//! The graph as a mathematical value, and what each operation of a store does
//! to it.
//!
//! A store's contract is stated against [`GraphModel`]: the node table and the
//! edge table as maps from identity to value. The adjacency of a node is not
//! kept in the model; it is what the edge table says it is.

use vstd::prelude::*;
use crate::clock::Timestamp;
use crate::error::KbError;
use crate::graph::{EdgeModel, NodeModel};
use crate::json::JsonModel;
use crate::taxonomy::NodeType;

verus! {

/// The node table and the edge table.
pub struct GraphModel {
    pub nodes: Map<Seq<char>, NodeModel>,
    pub edges: Map<Seq<char>, EdgeModel>,
}

/// The direction that a query names; no direction means both.
pub open spec fn direction_text(direction: Option<Seq<char>>) -> Seq<char> {
    match direction {
        Some(text) => text,
        None => "both"@,
    }
}

/// Whether a query in this direction asks for the edges that leave the node.
pub open spec fn wants_outgoing(direction: Option<Seq<char>>) -> bool {
    direction_text(direction) == "outgoing"@ || direction_text(direction) == "both"@
}

/// Whether a query in this direction asks for the edges that reach the node.
pub open spec fn wants_incoming(direction: Option<Seq<char>>) -> bool {
    direction_text(direction) == "incoming"@ || direction_text(direction) == "both"@
}

/// The document that a shallow merge of `patch` into `stored` gives: every
/// key of the patch is set, every other key is kept.
pub open spec fn merged(stored: JsonModel, patch: JsonModel) -> JsonModel
    recommends
        stored is Object,
        patch is Object,
{
    JsonModel::Object(stored->Object_0.union_prefer_right(patch->Object_0))
}

impl GraphModel {
    /// The graph without nodes or edges.
    pub open spec fn empty() -> GraphModel {
        GraphModel { nodes: Map::empty(), edges: Map::empty() }
    }

    /// Every entry stands under its own identity, and every edge has both its
    /// endpoints in the node table.
    pub open spec fn wf(self) -> bool {
        &&& self.nodes.dom().finite()
        &&& self.edges.dom().finite()
        &&& forall|id: Seq<char>| #[trigger]
            self.nodes.contains_key(id) ==> self.nodes[id].id == id
        &&& forall|id: Seq<char>| #[trigger]
            self.edges.contains_key(id) ==> {
                &&& self.edges[id].id == id
                &&& self.nodes.contains_key(self.edges[id].source_node_id)
                &&& self.nodes.contains_key(self.edges[id].target_node_id)
            }
    }

    /// The identities of the edges that leave the node.
    pub open spec fn outgoing(self, node_id: Seq<char>) -> Set<Seq<char>> {
        Set::new(
            |id: Seq<char>| self.edges.contains_key(id) && self.edges[id].source_node_id == node_id,
        )
    }

    /// The identities of the edges that reach the node.
    pub open spec fn incoming(self, node_id: Seq<char>) -> Set<Seq<char>> {
        Set::new(
            |id: Seq<char>| self.edges.contains_key(id) && self.edges[id].target_node_id == node_id,
        )
    }

    /// The identities of the edges that a query for `node_id` in `direction`
    /// finds. A direction other than "outgoing", "incoming" and "both" finds
    /// none.
    pub open spec fn edges_of(self, node_id: Seq<char>, direction: Option<Seq<char>>) -> Set<
        Seq<char>,
    > {
        Set::new(
            |id: Seq<char>|
                (wants_outgoing(direction) && self.outgoing(node_id).contains(id)) || (
                wants_incoming(direction) && self.incoming(node_id).contains(id)),
        )
    }

    /// The identities of the nodes of a kind whose property document is an
    /// object that holds exactly `value` at `key`.
    pub open spec fn nodes_matching(self, node_type: NodeType, key: Seq<char>, value: JsonModel) -> Set<
        Seq<char>,
    > {
        Set::new(
            |id: Seq<char>|
                self.nodes.contains_key(id) && self.nodes[id].node_type == node_type
                    && self.nodes[id].properties.field(key) == Some(value),
        )
    }

    /// Whether `found` holds exactly the edges named in `ids`, each once and
    /// as the edge table has it.
    pub open spec fn lists_edges(self, found: Seq<EdgeModel>, ids: Set<Seq<char>>) -> bool {
        &&& forall|i: int|
            0 <= i < found.len() ==> ids.contains(#[trigger] found[i].id) && self.edges[found[i].id]
                == found[i]
        &&& forall|i: int, j: int| 0 <= i < j < found.len() ==> found[i].id != found[j].id
        &&& forall|id: Seq<char>|
            ids.contains(id) ==> exists|i: int| 0 <= i < found.len() && found[i].id == id
    }

    /// Whether `found` holds exactly the nodes named in `ids`, each once and
    /// as the node table has it.
    pub open spec fn lists_nodes(self, found: Seq<NodeModel>, ids: Set<Seq<char>>) -> bool {
        &&& forall|i: int|
            0 <= i < found.len() ==> ids.contains(#[trigger] found[i].id) && self.nodes[found[i].id]
                == found[i]
        &&& forall|i: int, j: int| 0 <= i < j < found.len() ==> found[i].id != found[j].id
        &&& forall|id: Seq<char>|
            ids.contains(id) ==> exists|i: int| 0 <= i < found.len() && found[i].id == id
    }

    /// Inserting a node: refused where the identity is taken.
    pub open spec fn add_node(self, node: NodeModel) -> Result<GraphModel, KbError> {
        if self.nodes.contains_key(node.id) {
            Err(KbError::Conflict)
        } else {
            Ok(GraphModel { nodes: self.nodes.insert(node.id, node), ..self })
        }
    }

    /// Inserting an edge: refused where an endpoint is missing, and else where
    /// the identity is taken.
    pub open spec fn add_edge(self, edge: EdgeModel) -> Result<GraphModel, KbError> {
        if !self.nodes.contains_key(edge.source_node_id) || !self.nodes.contains_key(
            edge.target_node_id,
        ) {
            Err(KbError::NotFound)
        } else if self.edges.contains_key(edge.id) {
            Err(KbError::Conflict)
        } else {
            Ok(GraphModel { edges: self.edges.insert(edge.id, edge), ..self })
        }
    }

    /// Removing an edge.
    pub open spec fn delete_edge(self, edge_id: Seq<char>) -> Result<GraphModel, KbError> {
        if self.edges.contains_key(edge_id) {
            Ok(GraphModel { edges: self.edges.remove(edge_id), ..self })
        } else {
            Err(KbError::NotFound)
        }
    }

    /// The edge table without the edges that start or end at the node.
    pub open spec fn edges_without(self, node_id: Seq<char>) -> Map<Seq<char>, EdgeModel> {
        self.edges.restrict(
            Set::new(|id: Seq<char>| self.edges.contains_key(id) && !self.edges[id].touches(node_id)),
        )
    }

    /// Removing a node, and with it every edge that starts or ends there.
    pub open spec fn delete_node(self, node_id: Seq<char>) -> Result<GraphModel, KbError> {
        if self.nodes.contains_key(node_id) {
            Ok(GraphModel { nodes: self.nodes.remove(node_id), edges: self.edges_without(node_id) })
        } else {
            Err(KbError::NotFound)
        }
    }

    /// Merging a patch into a node's properties at time `now`. The time of the
    /// update never moves back.
    pub open spec fn update_node_properties(
        self,
        node_id: Seq<char>,
        patch: JsonModel,
        now: Timestamp,
    ) -> Result<GraphModel, KbError> {
        if !self.nodes.contains_key(node_id) {
            Err(KbError::NotFound)
        } else if !(patch is Object) || !(self.nodes[node_id].properties is Object) {
            Err(KbError::InvalidInput)
        } else {
            let node = self.nodes[node_id];
            Ok(
                GraphModel {
                    nodes: self.nodes.insert(
                        node_id,
                        NodeModel {
                            properties: merged(node.properties, patch),
                            updated_at: node.updated_at.later_spec(now),
                            ..node
                        },
                    ),
                    ..self
                },
            )
        }
    }

    /// Merging a patch into an edge's properties at time `now`. The time of the
    /// update never moves back.
    pub open spec fn update_edge_properties(
        self,
        edge_id: Seq<char>,
        patch: JsonModel,
        now: Timestamp,
    ) -> Result<GraphModel, KbError> {
        if !self.edges.contains_key(edge_id) {
            Err(KbError::NotFound)
        } else if !(patch is Object) || !(self.edges[edge_id].properties is Object) {
            Err(KbError::InvalidInput)
        } else {
            let edge = self.edges[edge_id];
            Ok(
                GraphModel {
                    edges: self.edges.insert(
                        edge_id,
                        EdgeModel {
                            properties: merged(edge.properties, patch),
                            updated_at: edge.updated_at.later_spec(now),
                            ..edge
                        },
                    ),
                    ..self
                },
            )
        }
    }
}

} // verus!
