//! The contract of a knowledge store, and the store that keeps the graph in
//! memory.
//!
//! [`KnowledgeStoreProvider`] says what every store does, against the graph as
//! a mathematical value. [`InMemoryKnowledgeStore`] keeps the two tables in
//! hash maps, with an adjacency index in each direction; its well-formedness
//! says that the index and the edge table always agree.

use vstd::prelude::*;
use vstd::hash_map::StringHashMap;
use crate::clock::Timestamp;
use crate::error::KbError;
use crate::graph::{Edge, EdgeModel, Node, NodeModel};
use crate::json::{JsonObject, JsonValue};
use crate::model::{wants_incoming, wants_outgoing, GraphModel};
use crate::taxonomy::NodeType;
use crate::text::{clone_strings, distinct, owned, position, remove_text, str_eq};

verus! {

/// The view of an optional direction.
pub open spec fn direction_view(direction: Option<String>) -> Option<Seq<char>> {
    match direction {
        Some(text) => Some(text@),
        None => None,
    }
}

/// What a store of nodes and edges offers, whatever keeps the data.
pub trait KnowledgeStoreProvider {
    /// The graph that the store holds.
    spec fn graph(&self) -> GraphModel;

    /// The store's own validity. It implies that of the graph.
    spec fn well_formed(&self) -> bool;

    /// Whether the store answers structured queries.
    spec fn answers_queries(&self) -> bool;

    /// A well-formed store holds a well-formed graph.
    proof fn graph_is_well_formed(&self)
        requires
            self.well_formed(),
        ensures
            self.graph().wf(),
    ;

    /// Inserts a copy of `node`; `Conflict` where its identity is taken, and
    /// then nothing changes.
    fn add_node(&mut self, node: &Node) -> (r: Result<(), KbError>)
        requires
            old(self).well_formed(),
        ensures
            final(self).well_formed(),
            match old(self).graph().add_node(node@) {
                Ok(g) => r is Ok && final(self).graph() == g,
                Err(e) => r == Err::<(), KbError>(e) && final(self).graph() == old(self).graph(),
            },
    ;

    /// Inserts a copy of `edge`; `NotFound` where an endpoint is missing, else
    /// `Conflict` where its identity is taken. On a failure nothing changes.
    fn add_edge(&mut self, edge: &Edge) -> (r: Result<(), KbError>)
        requires
            old(self).well_formed(),
        ensures
            final(self).well_formed(),
            match old(self).graph().add_edge(edge@) {
                Ok(g) => r is Ok && final(self).graph() == g,
                Err(e) => r == Err::<(), KbError>(e) && final(self).graph() == old(self).graph(),
            },
    ;

    /// Removes the edge under `edge_id`; `NotFound` where there is none.
    fn delete_edge(&mut self, edge_id: &str) -> (r: Result<(), KbError>)
        requires
            old(self).well_formed(),
        ensures
            final(self).well_formed(),
            match old(self).graph().delete_edge(edge_id@) {
                Ok(g) => r is Ok && final(self).graph() == g,
                Err(e) => r == Err::<(), KbError>(e) && final(self).graph() == old(self).graph(),
            },
    ;

    /// Merges `patch` into the properties of the node under `node_id`, at the
    /// time that the clock gives. `NotFound` where there is no such node, else
    /// `InvalidInput` where the patch or the stored document is no object; on a
    /// failure nothing changes. Which time the clock gives, no contract says.
    fn update_node_properties(&mut self, node_id: &str, properties_to_update: JsonValue) -> (r:
        Result<(), KbError>)
        requires
            old(self).well_formed(),
        ensures
            final(self).well_formed(),
            exists|now: Timestamp|
                match #[trigger] old(self).graph().update_node_properties(
                    node_id@,
                    properties_to_update@,
                    now,
                ) {
                    Ok(g) => r is Ok && final(self).graph() == g,
                    Err(e) => r == Err::<(), KbError>(e) && final(self).graph() == old(
                        self,
                    ).graph(),
                },
    ;

    /// Merges `patch` into the properties of the edge under `edge_id`, at the
    /// time that the clock gives. `NotFound` where there is no such edge, else
    /// `InvalidInput` where the patch or the stored document is no object; on a
    /// failure nothing changes. Which time the clock gives, no contract says.
    fn update_edge_properties(&mut self, edge_id: &str, properties_to_update: JsonValue) -> (r:
        Result<(), KbError>)
        requires
            old(self).well_formed(),
        ensures
            final(self).well_formed(),
            exists|now: Timestamp|
                match #[trigger] old(self).graph().update_edge_properties(
                    edge_id@,
                    properties_to_update@,
                    now,
                ) {
                    Ok(g) => r is Ok && final(self).graph() == g,
                    Err(e) => r == Err::<(), KbError>(e) && final(self).graph() == old(
                        self,
                    ).graph(),
                },
    ;

    /// Removes the node under `node_id` and every edge that starts or ends
    /// there; `NotFound` where there is no such node, and then nothing changes.
    fn delete_node(&mut self, node_id: &str) -> (r: Result<(), KbError>)
        requires
            old(self).well_formed(),
        ensures
            final(self).well_formed(),
            match old(self).graph().delete_node(node_id@) {
                Ok(g) => r is Ok && final(self).graph() == g,
                Err(e) => r == Err::<(), KbError>(e) && final(self).graph() == old(self).graph(),
            },
    ;

    /// The node under `node_id`, if there is one. Absence is no failure.
    fn get_node_by_id(&self, node_id: &str) -> (r: Result<Option<Node>, KbError>)
        requires
            self.well_formed(),
        ensures
            r is Ok,
            match r->Ok_0 {
                Some(node) => self.graph().nodes.contains_key(node_id@) && node@
                    == self.graph().nodes[node_id@],
                None => !self.graph().nodes.contains_key(node_id@),
            },
    ;

    /// The edges at `node_id` in `direction` ("outgoing", "incoming" or
    /// "both"; none given means both), each once. A node that the store does
    /// not hold has none; that is no failure.
    fn get_edges_by_node_id(&self, node_id: &str, direction: Option<String>) -> (r: Result<
        Vec<Edge>,
        KbError,
    >)
        requires
            self.well_formed(),
        ensures
            r is Ok,
            self.graph().lists_edges(
                r->Ok_0.deep_view(),
                self.graph().edges_of(node_id@, direction_view(direction)),
            ),
    ;

    /// The nodes of a kind whose properties hold exactly `property_value` at
    /// `property_key`, each once.
    fn get_nodes_by_type_and_property(
        &self,
        node_type: NodeType,
        property_key: &str,
        property_value: &JsonValue,
    ) -> (r: Result<Vec<Node>, KbError>)
        requires
            self.well_formed(),
        ensures
            r is Ok,
            self.graph().lists_nodes(
                r->Ok_0.deep_view(),
                self.graph().nodes_matching(node_type, property_key@, property_value@),
            ),
    ;

    /// A structured query. A store that does not answer such queries says
    /// `Unsupported`.
    fn query_cypher(&self, query: &str, params: Option<JsonObject>) -> (r: Result<
        Vec<JsonObject>,
        KbError,
    >)
        requires
            self.well_formed(),
        ensures
            !self.answers_queries() ==> r == Err::<Vec<JsonObject>, KbError>(KbError::Unsupported),
    ;
}

/// Lists `edge_id` under `node_id` in one direction of the index.
fn list_add(index: &mut StringHashMap<Vec<String>>, node_id: &str, edge_id: &str)
    requires
        old(index)@.contains_key(node_id@),
        distinct(old(index)@[node_id@].deep_view()),
        !old(index)@[node_id@].deep_view().contains(edge_id@),
    ensures
        final(index)@.dom() == old(index)@.dom(),
        forall|n: Seq<char>|
            n != node_id@ && old(index)@.contains_key(n) ==> final(index)@[n] == old(index)@[n],
        final(index)@[node_id@].deep_view() == old(index)@[node_id@].deep_view().push(edge_id@),
        distinct(final(index)@[node_id@].deep_view()),
{
    let ghost before = index@[node_id@].deep_view();
    let mut list: Vec<String> = match index.get(node_id) {
        Some(ids) => clone_strings(ids),
        None => Vec::new(),
    };
    list.push(owned(edge_id));
    proof {
        let after = list.deep_view();
        assert(after =~= before.push(edge_id@));
        assert forall|a: int, b: int| 0 <= a < b < after.len() implies after[a] != after[b] by {
            if b == before.len() {
                assert(before.contains(before[a]));
            } else {
                assert(before[a] != before[b]);
            }
        }
    }
    index.insert(owned(node_id), list);
    assert(index@.dom() =~= old(index)@.dom());
}

/// Strikes `edge_id` from the list under `node_id` in one direction of the
/// index. An index without that entry stays as it is.
fn list_remove(index: &mut StringHashMap<Vec<String>>, node_id: &str, edge_id: &str)
    requires
        old(index)@.contains_key(node_id@) ==> distinct(old(index)@[node_id@].deep_view()),
    ensures
        final(index)@.dom() == old(index)@.dom(),
        forall|n: Seq<char>|
            n != node_id@ && old(index)@.contains_key(n) ==> final(index)@[n] == old(index)@[n],
        old(index)@.contains_key(node_id@) ==> {
            &&& distinct(final(index)@[node_id@].deep_view())
            &&& forall|s: Seq<char>|
                final(index)@[node_id@].deep_view().contains(s) <==> old(index)@[node_id@].deep_view().contains(
                    s,
                ) && s != edge_id@
        },
{
    match index.get(node_id) {
        Some(ids) => {
            let mut list = clone_strings(ids);
            remove_text(&mut list, edge_id);
            index.insert(owned(node_id), list);
            assert(index@.dom() =~= old(index)@.dom());
        },
        None => {},
    }
}

/// A store that keeps the graph in memory.
pub struct InMemoryKnowledgeStore {
    nodes: StringHashMap<Node>,
    edges: StringHashMap<Edge>,
    /// For each node, the identities of the edges that leave it.
    adj_outgoing: StringHashMap<Vec<String>>,
    /// For each node, the identities of the edges that reach it.
    adj_incoming: StringHashMap<Vec<String>>,
    /// The identities of the nodes, in the order in which they came.
    node_ids: Vec<String>,
}

impl InMemoryKnowledgeStore {
    /// The outgoing index: for each node that has an entry, the set of edge
    /// identities listed there.
    pub closed spec fn outgoing_index(&self) -> Map<Seq<char>, Set<Seq<char>>> {
        self.adj_outgoing@.map_values(|ids: Vec<String>| ids.deep_view().to_set())
    }

    /// The incoming index: for each node that has an entry, the set of edge
    /// identities listed there.
    pub closed spec fn incoming_index(&self) -> Map<Seq<char>, Set<Seq<char>>> {
        self.adj_incoming@.map_values(|ids: Vec<String>| ids.deep_view().to_set())
    }

    /// The graph that the two tables hold.
    pub closed spec fn tables(&self) -> GraphModel {
        GraphModel {
            nodes: self.nodes@.map_values(|n: Node| n@),
            edges: self.edges@.map_values(|e: Edge| e@),
        }
    }

    /// The index agrees with the tables: exactly the nodes have an entry in
    /// each direction, and an edge is listed under a node in a direction
    /// exactly when the edge table holds it with that node at that end.
    pub open spec fn index_consistent(&self) -> bool {
        let g = self.tables();
        &&& self.outgoing_index().dom() == g.nodes.dom()
        &&& self.incoming_index().dom() == g.nodes.dom()
        &&& forall|node_id: Seq<char>, edge_id: Seq<char>|
            g.nodes.contains_key(node_id) ==> (#[trigger] self.outgoing_index()[node_id].contains(
                edge_id,
            ) <==> g.edges.contains_key(edge_id) && g.edges[edge_id].source_node_id == node_id)
        &&& forall|node_id: Seq<char>, edge_id: Seq<char>|
            g.nodes.contains_key(node_id) ==> (#[trigger] self.incoming_index()[node_id].contains(
                edge_id,
            ) <==> g.edges.contains_key(edge_id) && g.edges[edge_id].target_node_id == node_id)
    }

    /// No list of the representation names anything twice, and the list of
    /// node identities names exactly the nodes.
    pub closed spec fn lists_exact(&self) -> bool {
        &&& forall|node_id: Seq<char>| #[trigger]
            self.adj_outgoing@.contains_key(node_id) ==> distinct(
                self.adj_outgoing@[node_id].deep_view(),
            )
        &&& forall|node_id: Seq<char>| #[trigger]
            self.adj_incoming@.contains_key(node_id) ==> distinct(
                self.adj_incoming@[node_id].deep_view(),
            )
        &&& distinct(self.node_ids.deep_view())
        &&& forall|node_id: Seq<char>|
            self.nodes@.contains_key(node_id) <==> self.node_ids.deep_view().contains(node_id)
    }

    /// The index is what the tables make it: two well-formed stores that hold
    /// the same graph have the same index in both directions.
    pub proof fn index_follows_tables(&self, other: &InMemoryKnowledgeStore)
        requires
            self.well_formed(),
            other.well_formed(),
            self.graph() == other.graph(),
        ensures
            self.outgoing_index() == other.outgoing_index(),
            self.incoming_index() == other.incoming_index(),
    {
        assert forall|n: Seq<char>| #[trigger]
            self.outgoing_index().dom().contains(n) implies self.outgoing_index()[n]
            == other.outgoing_index()[n] by {
            assert forall|e: Seq<char>|
                self.outgoing_index()[n].contains(e) == other.outgoing_index()[n].contains(e) by {}
            assert(self.outgoing_index()[n] =~= other.outgoing_index()[n]);
        }
        assert forall|n: Seq<char>| #[trigger]
            self.incoming_index().dom().contains(n) implies self.incoming_index()[n]
            == other.incoming_index()[n] by {
            assert forall|e: Seq<char>|
                self.incoming_index()[n].contains(e) == other.incoming_index()[n].contains(e) by {}
            assert(self.incoming_index()[n] =~= other.incoming_index()[n]);
        }
        assert(self.outgoing_index() =~= other.outgoing_index());
        assert(self.incoming_index() =~= other.incoming_index());
    }

    /// The store without nodes or edges.
    pub fn new() -> (r: InMemoryKnowledgeStore)
        ensures
            r.well_formed(),
            r.graph() == GraphModel::empty(),
    {
        let r = InMemoryKnowledgeStore {
            nodes: StringHashMap::new(),
            edges: StringHashMap::new(),
            adj_outgoing: StringHashMap::new(),
            adj_incoming: StringHashMap::new(),
            node_ids: Vec::new(),
        };
        proof {
            assert(r.tables().nodes =~= Map::<Seq<char>, NodeModel>::empty());
            assert(r.tables().edges =~= Map::<Seq<char>, EdgeModel>::empty());
            assert(r.outgoing_index().dom() =~= r.tables().nodes.dom());
            assert(r.incoming_index().dom() =~= r.tables().nodes.dom());
        }
        r
    }
}

impl InMemoryKnowledgeStore {
    /// The identities of the edges at `node_id` in `direction`, each once,
    /// read from the adjacency index.
    fn edge_ids_of(&self, node_id: &str, direction: &Option<String>) -> (ids: Vec<String>)
        requires
            self.well_formed(),
        ensures
            distinct(ids.deep_view()),
            forall|e: Seq<char>|
                ids.deep_view().contains(e) <==> self.graph().edges_of(
                    node_id@,
                    direction_view(*direction),
                ).contains(e),
    {
        let text: &str = match direction {
            Some(text) => text.as_str(),
            None => "both",
        };
        let both = str_eq(text, "both");
        let outgoing = both || str_eq(text, "outgoing");
        let incoming = both || str_eq(text, "incoming");
        let ghost g = self.tables();
        let ghost n = node_id@;
        let ghost dir = direction_view(*direction);
        assert(outgoing == wants_outgoing(dir));
        assert(incoming == wants_incoming(dir));
        proof {
            if !g.nodes.contains_key(n) {
                assert(!self.outgoing_index().dom().contains(n));
                assert(!self.incoming_index().dom().contains(n));
                assert forall|e: Seq<char>| !g.edges_of(n, dir).contains(e) by {}
            } else {
                assert(self.outgoing_index().dom().contains(n));
                assert(self.incoming_index().dom().contains(n));
            }
        }
        let mut ids: Vec<String> = Vec::new();
        if outgoing {
            match self.adj_outgoing.get(node_id) {
                Some(list) => {
                    ids = clone_strings(list);
                    proof {
                        assert forall|e: Seq<char>| ids.deep_view().contains(e)
                            == g.outgoing(n).contains(e) by {
                            assert(self.outgoing_index()[n].contains(e) == list.deep_view().contains(
                                e,
                            ));
                        }
                    }
                },
                None => {},
            }
        }
        assert(ids.deep_view().len() == 0 ==> forall|e: Seq<char>| !ids.deep_view().contains(e));
        assert(forall|e: Seq<char>|
            ids.deep_view().contains(e) <==> outgoing && g.outgoing(n).contains(e));
        if incoming {
            match self.adj_incoming.get(node_id) {
                Some(list) => {
                    let mut i: usize = 0;
                    while i < list.len()
                        invariant
                            i <= list@.len(),
                            distinct(ids.deep_view()),
                            forall|e: Seq<char>|
                                ids.deep_view().contains(e) <==> (outgoing && g.outgoing(
                                    n,
                                ).contains(e)) || exists|j: int|
                                    0 <= j < i && list.deep_view()[j] == e,
                        decreases list@.len() - i,
                    {
                        let ghost prev = ids.deep_view();
                        let ghost x = list.deep_view()[i as int];
                        let place = position(&ids, list[i].as_str());
                        proof {
                            if let Some(p) = place {
                                assert(prev[p as int] == x);
                                assert(prev.contains(x));
                            }
                        }
                        if place.is_none() {
                            ids.push(list[i].clone());
                            proof {
                                let next = ids.deep_view();
                                assert(next =~= prev.push(x));
                                assert forall|a: int, b: int|
                                    0 <= a < b < next.len() implies next[a] != next[b] by {
                                    if b == prev.len() {
                                        assert(prev.contains(prev[a]));
                                    } else {
                                        assert(prev[a] != prev[b]);
                                    }
                                }
                                assert forall|e: Seq<char>| next.contains(e) <==> prev.contains(e)
                                    || e == x by {
                                    if prev.contains(e) {
                                        let j = choose|j: int| 0 <= j < prev.len() && prev[j] == e;
                                        assert(next[j] == e);
                                    }
                                    if e == x {
                                        assert(next[prev.len() as int] == e);
                                    }
                                    if next.contains(e) {
                                        let j = choose|j: int| 0 <= j < next.len() && next[j] == e;
                                        if j < prev.len() {
                                            assert(prev[j] == e);
                                        }
                                    }
                                }
                            }
                        }
                        i += 1;
                    }
                    proof {
                        assert forall|e: Seq<char>| (exists|j: int|
                            0 <= j < list@.len() && list.deep_view()[j] == e)
                            == g.incoming(n).contains(e) by {
                            assert(self.incoming_index()[n].contains(e) == list.deep_view().contains(
                                e,
                            ));
                        }
                    }
                },
                None => {},
            }
        }
        ids
    }

    /// Merges `patch` into the properties of the node under `node_id` at time
    /// `now`.
    pub fn update_node_properties_at(
        &mut self,
        node_id: &str,
        properties_to_update: JsonValue,
        now: Timestamp,
    ) -> (r: Result<(), KbError>)
        requires
            old(self).well_formed(),
        ensures
            final(self).well_formed(),
            final(self).outgoing_index() == old(self).outgoing_index(),
            final(self).incoming_index() == old(self).incoming_index(),
            match old(self).graph().update_node_properties(node_id@, properties_to_update@, now) {
                Ok(g) => r is Ok && final(self).graph() == g,
                Err(e) => r == Err::<(), KbError>(e) && final(self).graph() == old(self).graph(),
            },
    {
        let updated = match self.nodes.get(node_id) {
            None => {
                return Err(KbError::NotFound);
            },
            Some(node) => {
                let patch = match properties_to_update.as_object() {
                    Some(patch) => patch,
                    None => {
                        return Err(KbError::InvalidInput);
                    },
                };
                let mut properties = match node.properties.as_object() {
                    Some(stored) => stored.clone(),
                    None => {
                        return Err(KbError::InvalidInput);
                    },
                };
                properties.merge(patch);
                Node {
                    id: node.id.clone(),
                    node_type: node.node_type,
                    labels: clone_strings(&node.labels),
                    properties: JsonValue::Object(properties),
                    created_at: node.created_at,
                    updated_at: node.updated_at.later(now),
                }
            },
        };
        let ghost before = *self;
        let ghost id = node_id@;
        proof {
            assert(before.tables().nodes.contains_key(id));
            assert(before.tables().nodes[id].id == id);
        }
        self.nodes.insert(updated.id.clone(), updated);
        proof {
            let g0 = before.tables();
            let g1 = self.tables();
            assert(g1.edges =~= g0.edges);
            assert(g1.nodes =~= g0.update_node_properties(id, properties_to_update@, now)->Ok_0.nodes);
            assert(g1.nodes.dom() =~= g0.nodes.dom());
        }
        Ok(())
    }

    /// Merges `patch` into the properties of the edge under `edge_id` at time
    /// `now`.
    pub fn update_edge_properties_at(
        &mut self,
        edge_id: &str,
        properties_to_update: JsonValue,
        now: Timestamp,
    ) -> (r: Result<(), KbError>)
        requires
            old(self).well_formed(),
        ensures
            final(self).well_formed(),
            final(self).outgoing_index() == old(self).outgoing_index(),
            final(self).incoming_index() == old(self).incoming_index(),
            match old(self).graph().update_edge_properties(edge_id@, properties_to_update@, now) {
                Ok(g) => r is Ok && final(self).graph() == g,
                Err(e) => r == Err::<(), KbError>(e) && final(self).graph() == old(self).graph(),
            },
    {
        let updated = match self.edges.get(edge_id) {
            None => {
                return Err(KbError::NotFound);
            },
            Some(edge) => {
                let patch = match properties_to_update.as_object() {
                    Some(patch) => patch,
                    None => {
                        return Err(KbError::InvalidInput);
                    },
                };
                let mut properties = match edge.properties.as_object() {
                    Some(stored) => stored.clone(),
                    None => {
                        return Err(KbError::InvalidInput);
                    },
                };
                properties.merge(patch);
                Edge {
                    id: edge.id.clone(),
                    source_node_id: edge.source_node_id.clone(),
                    target_node_id: edge.target_node_id.clone(),
                    edge_type: edge.edge_type,
                    properties: JsonValue::Object(properties),
                    created_at: edge.created_at,
                    updated_at: edge.updated_at.later(now),
                }
            },
        };
        let ghost before = *self;
        let ghost id = edge_id@;
        proof {
            assert(before.tables().edges.contains_key(id));
            assert(before.tables().edges[id].id == id);
        }
        self.edges.insert(updated.id.clone(), updated);
        proof {
            let g0 = before.tables();
            let g1 = self.tables();
            assert(g1.nodes =~= g0.nodes);
            assert(g1.edges =~= g0.update_edge_properties(id, properties_to_update@, now)->Ok_0.edges);
            assert(g1.edges.dom() =~= g0.edges.dom());
        }
        Ok(())
    }
}

impl Default for InMemoryKnowledgeStore {
    fn default() -> (r: InMemoryKnowledgeStore)
        ensures
            r.well_formed(),
            r.graph() == GraphModel::empty(),
    {
        InMemoryKnowledgeStore::new()
    }
}

impl KnowledgeStoreProvider for InMemoryKnowledgeStore {
    open spec fn graph(&self) -> GraphModel {
        self.tables()
    }

    open spec fn well_formed(&self) -> bool {
        &&& self.tables().wf()
        &&& self.index_consistent()
        &&& self.lists_exact()
    }

    open spec fn answers_queries(&self) -> bool {
        false
    }

    proof fn graph_is_well_formed(&self) {
    }

    fn add_node(&mut self, node: &Node) -> (r: Result<(), KbError>) {
        if self.nodes.contains_key(node.id.as_str()) {
            return Err(KbError::Conflict);
        }
        let ghost before = *self;
        let ghost id = node.id@;
        self.nodes.insert(node.id.clone(), node.clone());
        self.adj_outgoing.insert(node.id.clone(), Vec::new());
        self.adj_incoming.insert(node.id.clone(), Vec::new());
        self.node_ids.push(node.id.clone());
        proof {
            let g0 = before.tables();
            let g1 = self.tables();
            assert(g1.nodes =~= g0.nodes.insert(id, node@));
            assert(g1.edges =~= g0.edges);
            assert(self.outgoing_index().dom() =~= g1.nodes.dom());
            assert(self.incoming_index().dom() =~= g1.nodes.dom());
            let empty = Seq::<Seq<char>>::empty();
            assert(self.adj_outgoing@[id].deep_view() =~= empty);
            assert(self.adj_incoming@[id].deep_view() =~= empty);
            assert forall|n: Seq<char>, e: Seq<char>| g1.nodes.contains_key(n) implies (
            #[trigger] self.outgoing_index()[n].contains(e) <==> g1.edges.contains_key(e)
                && g1.edges[e].source_node_id == n) by {
                if n == id {
                    assert(!empty.to_set().contains(e));
                } else {
                    assert(before.outgoing_index()[n].contains(e) == self.outgoing_index()[n].contains(e));
                }
            }
            assert forall|n: Seq<char>, e: Seq<char>| g1.nodes.contains_key(n) implies (
            #[trigger] self.incoming_index()[n].contains(e) <==> g1.edges.contains_key(e)
                && g1.edges[e].target_node_id == n) by {
                if n == id {
                    assert(!empty.to_set().contains(e));
                } else {
                    assert(before.incoming_index()[n].contains(e) == self.incoming_index()[n].contains(e));
                }
            }
            let l0 = before.node_ids.deep_view();
            let l1 = self.node_ids.deep_view();
            assert(l1 =~= l0.push(id));
            assert forall|n: Seq<char>| self.nodes@.contains_key(n) <==> l1.contains(n) by {
                if n == id {
                    assert(l1[l0.len() as int] == id);
                } else if l0.contains(n) {
                    let j = choose|j: int| 0 <= j < l0.len() && l0[j] == n;
                    assert(l1[j] == n);
                } else if l1.contains(n) {
                    let j = choose|j: int| 0 <= j < l1.len() && l1[j] == n;
                    assert(l0[j] == n);
                }
            }
            assert(distinct(l1)) by {
                assert forall|a: int, b: int| 0 <= a < b < l1.len() implies l1[a] != l1[b] by {
                    if b == l0.len() {
                        assert(l0[a] == l1[a]);
                        assert(l0.contains(l0[a]));
                    } else {
                        assert(l0[a] != l0[b]);
                    }
                }
            }
            assert(g1.nodes.dom() =~= g0.nodes.dom().insert(id));
        }
        Ok(())
    }

    fn add_edge(&mut self, edge: &Edge) -> (r: Result<(), KbError>) {
        if !self.nodes.contains_key(edge.source_node_id.as_str()) || !self.nodes.contains_key(
            edge.target_node_id.as_str(),
        ) {
            return Err(KbError::NotFound);
        }
        if self.edges.contains_key(edge.id.as_str()) {
            return Err(KbError::Conflict);
        }
        let ghost before = *self;
        let ghost id = edge.id@;
        let ghost source = edge.source_node_id@;
        let ghost target = edge.target_node_id@;
        proof {
            assert(before.outgoing_index().dom().contains(source));
            assert(before.incoming_index().dom().contains(target));
            assert(!before.outgoing_index()[source].contains(id));
            assert(!before.incoming_index()[target].contains(id));
        }
        self.edges.insert(edge.id.clone(), edge.clone());
        list_add(&mut self.adj_outgoing, edge.source_node_id.as_str(), edge.id.as_str());
        list_add(&mut self.adj_incoming, edge.target_node_id.as_str(), edge.id.as_str());
        proof {
            let g0 = before.tables();
            let g1 = self.tables();
            assert(g1.nodes =~= g0.nodes);
            assert(g1.edges =~= g0.edges.insert(id, edge@));
            assert(g1.edges.dom() =~= g0.edges.dom().insert(id));
            assert(self.outgoing_index().dom() =~= g1.nodes.dom());
            assert(self.incoming_index().dom() =~= g1.nodes.dom());
            assert forall|n: Seq<char>, e: Seq<char>| g1.nodes.contains_key(n) implies (
            #[trigger] self.outgoing_index()[n].contains(e) <==> g1.edges.contains_key(e)
                && g1.edges[e].source_node_id == n) by {
                assert(before.outgoing_index().dom().contains(n));
                if n == source {
                    let l0 = before.adj_outgoing@[n].deep_view();
                    let l1 = self.adj_outgoing@[n].deep_view();
                    assert(l1 == l0.push(id));
                    if l1.contains(e) {
                        let j = choose|j: int| 0 <= j < l1.len() && l1[j] == e;
                        if j < l0.len() {
                            assert(l0[j] == e);
                            assert(before.outgoing_index()[n].contains(e));
                        }
                    }
                    if e == id {
                        assert(l1[l0.len() as int] == id);
                    } else if l0.contains(e) {
                        let j = choose|j: int| 0 <= j < l0.len() && l0[j] == e;
                        assert(l1[j] == e);
                    }
                    assert(before.outgoing_index()[n].contains(e) == l0.contains(e));
                } else {
                    assert(before.outgoing_index()[n].contains(e) == self.outgoing_index()[n].contains(e));
                }
            }
            assert forall|n: Seq<char>, e: Seq<char>| g1.nodes.contains_key(n) implies (
            #[trigger] self.incoming_index()[n].contains(e) <==> g1.edges.contains_key(e)
                && g1.edges[e].target_node_id == n) by {
                assert(before.incoming_index().dom().contains(n));
                if n == target {
                    let l0 = before.adj_incoming@[n].deep_view();
                    let l1 = self.adj_incoming@[n].deep_view();
                    assert(l1 == l0.push(id));
                    if l1.contains(e) {
                        let j = choose|j: int| 0 <= j < l1.len() && l1[j] == e;
                        if j < l0.len() {
                            assert(l0[j] == e);
                            assert(before.incoming_index()[n].contains(e));
                        }
                    }
                    if e == id {
                        assert(l1[l0.len() as int] == id);
                    } else if l0.contains(e) {
                        let j = choose|j: int| 0 <= j < l0.len() && l0[j] == e;
                        assert(l1[j] == e);
                    }
                    assert(before.incoming_index()[n].contains(e) == l0.contains(e));
                } else {
                    assert(before.incoming_index()[n].contains(e) == self.incoming_index()[n].contains(e));
                }
            }
        }
        Ok(())
    }

    fn delete_edge(&mut self, edge_id: &str) -> (r: Result<(), KbError>) {
        let (source, target) = match self.edges.get(edge_id) {
            Some(edge) => (edge.source_node_id.clone(), edge.target_node_id.clone()),
            None => {
                return Err(KbError::NotFound);
            },
        };
        let ghost before = *self;
        let ghost id = edge_id@;
        proof {
            assert(before.tables().edges.contains_key(id));
            assert(before.tables().nodes.contains_key(source@));
            assert(before.tables().nodes.contains_key(target@));
            assert(before.outgoing_index().dom().contains(source@));
            assert(before.incoming_index().dom().contains(target@));
        }
        self.edges.remove(edge_id);
        list_remove(&mut self.adj_outgoing, source.as_str(), edge_id);
        list_remove(&mut self.adj_incoming, target.as_str(), edge_id);
        proof {
            let g0 = before.tables();
            let g1 = self.tables();
            assert(g1.nodes =~= g0.nodes);
            assert(g1.edges =~= g0.edges.remove(id));
            assert(g1.edges.dom() =~= g0.edges.dom().remove(id));
            assert(self.outgoing_index().dom() =~= g1.nodes.dom());
            assert(self.incoming_index().dom() =~= g1.nodes.dom());
            assert forall|n: Seq<char>, e: Seq<char>| g1.nodes.contains_key(n) implies (
            #[trigger] self.outgoing_index()[n].contains(e) <==> g1.edges.contains_key(e)
                && g1.edges[e].source_node_id == n) by {
                assert(before.outgoing_index().dom().contains(n));
                assert(before.outgoing_index()[n].contains(e) <==> g0.edges.contains_key(e)
                    && g0.edges[e].source_node_id == n);
                if n == source@ {
                    let l0 = before.adj_outgoing@[n].deep_view();
                    let l1 = self.adj_outgoing@[n].deep_view();
                    assert(before.outgoing_index()[n].contains(e) == l0.contains(e));
                    assert(self.outgoing_index()[n].contains(e) == l1.contains(e));
                } else {
                    assert(before.outgoing_index()[n].contains(e) == self.outgoing_index()[n].contains(e));
                }
            }
            assert forall|n: Seq<char>, e: Seq<char>| g1.nodes.contains_key(n) implies (
            #[trigger] self.incoming_index()[n].contains(e) <==> g1.edges.contains_key(e)
                && g1.edges[e].target_node_id == n) by {
                assert(before.incoming_index().dom().contains(n));
                assert(before.incoming_index()[n].contains(e) <==> g0.edges.contains_key(e)
                    && g0.edges[e].target_node_id == n);
                if n == target@ {
                    let l0 = before.adj_incoming@[n].deep_view();
                    let l1 = self.adj_incoming@[n].deep_view();
                    assert(before.incoming_index()[n].contains(e) == l0.contains(e));
                    assert(self.incoming_index()[n].contains(e) == l1.contains(e));
                } else {
                    assert(before.incoming_index()[n].contains(e) == self.incoming_index()[n].contains(e));
                }
            }
        }
        Ok(())
    }

    fn update_node_properties(&mut self, node_id: &str, properties_to_update: JsonValue) -> (r:
        Result<(), KbError>) {
        let now = Timestamp::now();
        let ghost patch = properties_to_update@;
        let r = self.update_node_properties_at(node_id, properties_to_update, now);
        proof {
            let outcome = old(self).graph().update_node_properties(node_id@, patch, now);
            assert(match outcome {
                Ok(g) => r is Ok && self.graph() == g,
                Err(e) => r == Err::<(), KbError>(e) && self.graph() == old(self).graph(),
            });
        }
        r
    }

    fn update_edge_properties(&mut self, edge_id: &str, properties_to_update: JsonValue) -> (r:
        Result<(), KbError>) {
        let now = Timestamp::now();
        let ghost patch = properties_to_update@;
        let r = self.update_edge_properties_at(edge_id, properties_to_update, now);
        proof {
            let outcome = old(self).graph().update_edge_properties(edge_id@, patch, now);
            assert(match outcome {
                Ok(g) => r is Ok && self.graph() == g,
                Err(e) => r == Err::<(), KbError>(e) && self.graph() == old(self).graph(),
            });
        }
        r
    }

    fn delete_node(&mut self, node_id: &str) -> (r: Result<(), KbError>) {
        if !self.nodes.contains_key(node_id) {
            return Err(KbError::NotFound);
        }
        let ghost g0 = self.tables();
        let ghost n = node_id@;
        let ids = self.edge_ids_of(node_id, &None);
        proof {
            assert forall|e: Seq<char>| ids.deep_view().contains(e) <==> g0.edges.contains_key(e)
                && g0.edges[e].touches(n) by {
                assert(g0.edges_of(n, None).contains(e) <==> g0.outgoing(n).contains(e)
                    || g0.incoming(n).contains(e));
            }
        }
        let mut i: usize = 0;
        while i < ids.len()
            invariant
                i <= ids@.len(),
                self.well_formed(),
                self.tables().nodes == g0.nodes,
                forall|e: Seq<char>|
                    self.tables().edges.contains_key(e) <==> g0.edges.contains_key(e) && !exists|
                        j: int,
                    |
                        0 <= j < i && ids.deep_view()[j] == e,
                forall|e: Seq<char>|
                    self.tables().edges.contains_key(e) ==> self.tables().edges[e] == g0.edges[e],
            decreases ids@.len() - i,
        {
            let ghost before = self.tables();
            let ghost id = ids.deep_view()[i as int];
            let _ = self.delete_edge(ids[i].as_str());
            proof {
                let after = self.tables();
                assert forall|e: Seq<char>|
                    after.edges.contains_key(e) <==> g0.edges.contains_key(e) && !exists|j: int|
                        0 <= j < i + 1 && ids.deep_view()[j] == e by {
                    assert(after.edges.contains_key(e) == (before.edges.contains_key(e) && e != id));
                    if e == id {
                        assert(ids.deep_view()[i as int] == e);
                    } else {
                        if exists|j: int| 0 <= j < i + 1 && ids.deep_view()[j] == e {
                            let j = choose|j: int| 0 <= j < i + 1 && ids.deep_view()[j] == e;
                            assert(0 <= j < i && ids.deep_view()[j] == e);
                        }
                        if exists|j: int| 0 <= j < i && ids.deep_view()[j] == e {
                            let j = choose|j: int| 0 <= j < i && ids.deep_view()[j] == e;
                            assert(0 <= j < i + 1 && ids.deep_view()[j] == e);
                        }
                    }
                }
            }
            i += 1;
        }
        let ghost middle = *self;
        proof {
            let g1 = middle.tables();
            assert forall|e: Seq<char>| g1.edges.contains_key(e) <==> g0.edges.contains_key(e)
                && !g0.edges[e].touches(n) by {
                if g0.edges.contains_key(e) && g0.edges[e].touches(n) {
                    assert(ids.deep_view().contains(e));
                    let j = choose|j: int| 0 <= j < ids.deep_view().len() && ids.deep_view()[j] == e;
                    assert(0 <= j < i && ids.deep_view()[j] == e);
                }
                if g0.edges.contains_key(e) && !g0.edges[e].touches(n) {
                    if exists|j: int| 0 <= j < i && ids.deep_view()[j] == e {
                        let j = choose|j: int| 0 <= j < i && ids.deep_view()[j] == e;
                        assert(ids.deep_view().contains(e));
                    }
                }
            }
            assert(g1.edges =~= g0.edges_without(n));
        }
        self.nodes.remove(node_id);
        self.adj_outgoing.remove(node_id);
        self.adj_incoming.remove(node_id);
        remove_text(&mut self.node_ids, node_id);
        proof {
            let g1 = middle.tables();
            let g2 = self.tables();
            assert(g2.nodes =~= g0.nodes.remove(n));
            assert(g2.edges =~= g1.edges);
            assert(g2.nodes.dom() =~= g1.nodes.dom().remove(n));
            assert(self.outgoing_index().dom() =~= g2.nodes.dom());
            assert(self.incoming_index().dom() =~= g2.nodes.dom());
            assert forall|m: Seq<char>, e: Seq<char>| g2.nodes.contains_key(m) implies (
            #[trigger] self.outgoing_index()[m].contains(e) <==> g2.edges.contains_key(e)
                && g2.edges[e].source_node_id == m) by {
                assert(middle.outgoing_index().dom().contains(m));
                assert(middle.outgoing_index()[m].contains(e) == self.outgoing_index()[m].contains(e));
            }
            assert forall|m: Seq<char>, e: Seq<char>| g2.nodes.contains_key(m) implies (
            #[trigger] self.incoming_index()[m].contains(e) <==> g2.edges.contains_key(e)
                && g2.edges[e].target_node_id == m) by {
                assert(middle.incoming_index().dom().contains(m));
                assert(middle.incoming_index()[m].contains(e) == self.incoming_index()[m].contains(e));
            }
            assert forall|e: Seq<char>| #[trigger] g2.edges.contains_key(e) implies g2.edges[e].id
                == e && g2.nodes.contains_key(g2.edges[e].source_node_id) && g2.nodes.contains_key(
                g2.edges[e].target_node_id,
            ) by {
                assert(g1.edges.contains_key(e));
                assert(g0.edges.contains_key(e) && !g0.edges[e].touches(n));
            }
        }
        Ok(())
    }

    fn get_node_by_id(&self, node_id: &str) -> (r: Result<Option<Node>, KbError>) {
        match self.nodes.get(node_id) {
            Some(node) => Ok(Some(node.clone())),
            None => Ok(None),
        }
    }

    fn get_edges_by_node_id(&self, node_id: &str, direction: Option<String>) -> (r: Result<
        Vec<Edge>,
        KbError,
    >) {
        let ids = self.edge_ids_of(node_id, &direction);
        let ghost g = self.tables();
        let ghost wanted = g.edges_of(node_id@, direction_view(direction));
        let mut found: Vec<Edge> = Vec::new();
        let mut i: usize = 0;
        while i < ids.len()
            invariant
                i <= ids@.len(),
                self.well_formed(),
                g == self.tables(),
                wanted == g.edges_of(node_id@, direction_view(direction)),
                distinct(ids.deep_view()),
                forall|e: Seq<char>| ids.deep_view().contains(e) <==> wanted.contains(e),
                found@.len() == i,
                forall|k: int|
                    0 <= k < i ==> (#[trigger] found@[k])@.id == ids.deep_view()[k]
                        && g.edges[ids.deep_view()[k]] == found@[k]@,
            decreases ids@.len() - i,
        {
            let ghost id = ids.deep_view()[i as int];
            proof {
                assert(ids.deep_view().contains(id));
                assert(wanted.contains(id));
                assert(g.outgoing(node_id@).contains(id) || g.incoming(node_id@).contains(id));
                assert(g.edges.contains_key(id));
            }
            match self.edges.get(ids[i].as_str()) {
                Some(edge) => {
                    found.push(edge.clone());
                },
                None => {},
            }
            i += 1;
        }
        proof {
            let list = found.deep_view();
            assert forall|k: int| 0 <= k < list.len() implies wanted.contains(#[trigger] list[k].id)
                && g.edges[list[k].id] == list[k] by {
                assert(found@[k]@.id == ids.deep_view()[k]);
                assert(ids.deep_view().contains(ids.deep_view()[k]));
            }
            assert forall|a: int, b: int| 0 <= a < b < list.len() implies list[a].id
                != list[b].id by {
                assert(found@[a]@.id == ids.deep_view()[a]);
                assert(found@[b]@.id == ids.deep_view()[b]);
            }
            assert forall|e: Seq<char>| wanted.contains(e) implies exists|k: int|
                0 <= k < list.len() && list[k].id == e by {
                let k = choose|k: int| 0 <= k < ids.deep_view().len() && ids.deep_view()[k] == e;
                assert(found@[k]@.id == e);
                assert(list[k].id == e);
            }
        }
        Ok(found)
    }

    fn get_nodes_by_type_and_property(
        &self,
        node_type: NodeType,
        property_key: &str,
        property_value: &JsonValue,
    ) -> (r: Result<Vec<Node>, KbError>) {
        let ghost g = self.tables();
        let ghost wanted = g.nodes_matching(node_type, property_key@, property_value@);
        let ghost order = self.node_ids.deep_view();
        let mut found: Vec<Node> = Vec::new();
        let mut i: usize = 0;
        while i < self.node_ids.len()
            invariant
                i <= self.node_ids@.len(),
                self.well_formed(),
                g == self.tables(),
                order == self.node_ids.deep_view(),
                wanted == g.nodes_matching(node_type, property_key@, property_value@),
                forall|k: int|
                    0 <= k < found@.len() ==> wanted.contains((#[trigger] found@[k])@.id)
                        && g.nodes[found@[k]@.id] == found@[k]@ && exists|j: int|
                        0 <= j < i && order[j] == found@[k]@.id,
                forall|a: int, b: int|
                    0 <= a < b < found@.len() ==> found@[a]@.id != found@[b]@.id,
                forall|j: int|
                    0 <= j < i && wanted.contains(order[j]) ==> exists|k: int|
                        0 <= k < found@.len() && found@[k]@.id == order[j],
            decreases self.node_ids@.len() - i,
        {
            let ghost id = order[i as int];
            let ghost prev = found@;
            proof {
                assert(order.contains(id));
                assert(g.nodes.contains_key(id));
            }
            match self.nodes.get(self.node_ids[i].as_str()) {
                Some(node) => {
                    let same_value = match node.properties.get(property_key) {
                        Some(value) => value.equals(property_value),
                        None => false,
                    };
                    if node.node_type == node_type && same_value {
                        found.push(node.clone());
                        proof {
                            let last = prev.len() as int;
                            assert(found@[last]@.id == id);
                            assert forall|a: int, b: int|
                                0 <= a < b < found@.len() implies found@[a]@.id
                                != found@[b]@.id by {
                                if b == last {
                                    assert(found@[a] == prev[a]);
                                    let j = choose|j: int| 0 <= j < i && order[j] == prev[a]@.id;
                                    assert(order[j] != order[i as int]);
                                } else {
                                    assert(prev[a]@.id != prev[b]@.id);
                                }
                            }
                            assert forall|k: int| 0 <= k < found@.len() implies wanted.contains(
                                (#[trigger] found@[k])@.id,
                            ) && g.nodes[found@[k]@.id] == found@[k]@ && exists|j: int|
                                0 <= j < i + 1 && order[j] == found@[k]@.id by {
                                if k < last {
                                    assert(found@[k] == prev[k]);
                                    let j = choose|j: int| 0 <= j < i && order[j] == prev[k]@.id;
                                    assert(order[j] == found@[k]@.id);
                                } else {
                                    assert(order[i as int] == found@[k]@.id);
                                }
                            }
                            assert forall|j: int|
                                0 <= j < i + 1 && wanted.contains(order[j]) implies exists|k: int|
                                0 <= k < found@.len() && found@[k]@.id == order[j] by {
                                if j < i {
                                    let k = choose|k: int|
                                        0 <= k < prev.len() && prev[k]@.id == order[j];
                                    assert(found@[k] == prev[k]);
                                } else {
                                    assert(found@[last]@.id == order[j]);
                                }
                            }
                        }
                    } else {
                        assert(!wanted.contains(id));
                    }
                },
                None => {},
            }
            i += 1;
        }
        proof {
            let list = found.deep_view();
            assert forall|k: int| 0 <= k < list.len() implies wanted.contains(#[trigger] list[k].id)
                && g.nodes[list[k].id] == list[k] by {
                assert(list[k] == found@[k]@);
            }
            assert forall|a: int, b: int| 0 <= a < b < list.len() implies list[a].id
                != list[b].id by {
                assert(found@[a]@.id != found@[b]@.id);
            }
            assert forall|e: Seq<char>| wanted.contains(e) implies exists|k: int|
                0 <= k < list.len() && list[k].id == e by {
                assert(g.nodes.contains_key(e));
                assert(order.contains(e));
                let j = choose|j: int| 0 <= j < order.len() && order[j] == e;
                let k = choose|k: int| 0 <= k < found@.len() && found@[k]@.id == order[j];
                assert(list[k].id == e);
            }
        }
        Ok(found)
    }

    fn query_cypher(&self, query: &str, params: Option<JsonObject>) -> (r: Result<
        Vec<JsonObject>,
        KbError,
    >)
        ensures
            r == Err::<Vec<JsonObject>, KbError>(KbError::Unsupported),
    {
        Err(KbError::Unsupported)
    }
}

} // verus!
