//! What holds of every graph, whatever the order of the operations.
//!
//! Each law is stated over [`GraphModel`], the value against which every
//! store's contract is written; so each holds of every store that meets the
//! contract.

use vstd::prelude::*;
use crate::clock::Timestamp;
use crate::error::KbError;
use crate::graph::{EdgeModel, NodeModel};
use crate::json::JsonModel;
use crate::model::GraphModel;

verus! {

/// Every operation that succeeds on a well-formed graph leaves a well-formed
/// graph.
pub proof fn operations_keep_graph_well_formed(
    g: GraphModel,
    node: NodeModel,
    edge: EdgeModel,
    id: Seq<char>,
    patch: JsonModel,
    now: Timestamp,
)
    requires
        g.wf(),
    ensures
        g.add_node(node) matches Ok(h) ==> h.wf(),
        g.add_edge(edge) matches Ok(h) ==> h.wf(),
        g.delete_edge(id) matches Ok(h) ==> h.wf(),
        g.delete_node(id) matches Ok(h) ==> h.wf(),
        g.update_node_properties(id, patch, now) matches Ok(h) ==> h.wf(),
        g.update_edge_properties(id, patch, now) matches Ok(h) ==> h.wf(),
{
    if let Ok(h) = g.delete_node(id) {
        assert(h.edges.dom().subset_of(g.edges.dom()));
        vstd::set_lib::lemma_len_subset(h.edges.dom(), g.edges.dom());
    }
}

/// A node that was added is found under its identity, equal to what was
/// added. (A node whose identity is taken is not added.)
pub proof fn added_node_is_found(g: GraphModel, node: NodeModel)
    requires
        g.add_node(node) is Ok,
    ensures
        g.add_node(node)->Ok_0.nodes.contains_key(node.id),
        g.add_node(node)->Ok_0.nodes[node.id] == node,
{
}

/// The graph as an operation leaves it: the new graph where the operation
/// succeeded, the old one where it failed.
pub open spec fn left_by(before: GraphModel, outcome: Result<GraphModel, KbError>) -> GraphModel {
    match outcome {
        Ok(after) => after,
        Err(_) => before,
    }
}

/// After a node was offered to the graph, whether it was taken or refused,
/// adding any node under the same identity is a `Conflict`.
pub proof fn second_add_is_conflict(g: GraphModel, first: NodeModel, second: NodeModel)
    requires
        second.id == first.id,
    ensures
        left_by(g, g.add_node(first)).add_node(second) == Err::<GraphModel, KbError>(
            KbError::Conflict,
        ),
{
}

/// Adding an edge whose source or target is no node of the graph is
/// `NotFound`.
pub proof fn edge_to_nowhere_is_not_found(g: GraphModel, edge: EdgeModel)
    requires
        !g.nodes.contains_key(edge.source_node_id) || !g.nodes.contains_key(edge.target_node_id),
    ensures
        g.add_edge(edge) == Err::<GraphModel, KbError>(KbError::NotFound),
{
}

/// An edge that was added is found from its source among the outgoing edges,
/// from its target among the incoming edges, and from either end when both
/// directions are asked for, named or by default.
pub proof fn added_edge_is_found_from_both_ends(g: GraphModel, edge: EdgeModel)
    requires
        g.add_edge(edge) is Ok,
    ensures
        ({
            let h = g.add_edge(edge)->Ok_0;
            &&& h.edges[edge.id] == edge
            &&& h.edges_of(edge.source_node_id, Some("outgoing"@)).contains(edge.id)
            &&& h.edges_of(edge.target_node_id, Some("incoming"@)).contains(edge.id)
            &&& h.edges_of(edge.source_node_id, Some("both"@)).contains(edge.id)
            &&& h.edges_of(edge.target_node_id, Some("both"@)).contains(edge.id)
            &&& h.edges_of(edge.source_node_id, None).contains(edge.id)
            &&& h.edges_of(edge.target_node_id, None).contains(edge.id)
        }),
{
    let h = g.add_edge(edge)->Ok_0;
    assert(h.outgoing(edge.source_node_id).contains(edge.id));
    assert(h.incoming(edge.target_node_id).contains(edge.id));
}

/// After a node was to be deleted from a well-formed graph, whether it was
/// there or not, the node table does not hold it and the edge table holds no
/// edge that touched it; the other nodes, and the edges that did not touch it,
/// stay as they were, and no query at any node finds an edge that touched it.
pub proof fn deleted_node_takes_its_edges(g: GraphModel, node_id: Seq<char>)
    requires
        g.wf(),
    ensures
        ({
            let h = left_by(g, g.delete_node(node_id));
            &&& h.wf()
            &&& !h.nodes.contains_key(node_id)
            &&& forall|other: Seq<char>|
                other != node_id && g.nodes.contains_key(other) ==> h.nodes.contains_key(other)
                    && h.nodes[other] == g.nodes[other]
            &&& forall|e: Seq<char>|
                g.edges.contains_key(e) && g.edges[e].touches(node_id) ==> !h.edges.contains_key(e)
            &&& forall|e: Seq<char>|
                g.edges.contains_key(e) && !g.edges[e].touches(node_id) ==> h.edges.contains_key(e)
                    && h.edges[e] == g.edges[e]
            &&& forall|e: Seq<char>, other: Seq<char>, direction: Option<Seq<char>>|
                g.edges.contains_key(e) && g.edges[e].touches(node_id) ==> !h.edges_of(
                    other,
                    direction,
                ).contains(e)
        }),
{
    operations_keep_graph_well_formed(
        g,
        arbitrary(),
        arbitrary(),
        node_id,
        arbitrary(),
        arbitrary(),
    );
}

/// Two merges in a row: the node's properties hold every key of the second
/// patch with the second patch's value, every key of the first patch that the
/// second lacks with the first patch's value, and every earlier key that
/// neither patch names with its earlier value.
pub proof fn merges_accumulate(
    g: GraphModel,
    node_id: Seq<char>,
    first: JsonModel,
    at_first: Timestamp,
    second: JsonModel,
    at_second: Timestamp,
)
    requires
        g.update_node_properties(node_id, first, at_first) is Ok,
        second is Object,
    ensures
        ({
            let g1 = g.update_node_properties(node_id, first, at_first)->Ok_0;
            let g2 = g1.update_node_properties(node_id, second, at_second);
            let before = g.nodes[node_id].properties;
            &&& g2 is Ok
            &&& forall|key: Seq<char>|
                second->Object_0.contains_key(key) ==> #[trigger] g2->Ok_0.nodes[node_id].properties.field(
                    key,
                ) == Some(second->Object_0[key])
            &&& forall|key: Seq<char>|
                first->Object_0.contains_key(key) && !second->Object_0.contains_key(key)
                    ==> #[trigger] g2->Ok_0.nodes[node_id].properties.field(key) == Some(
                    first->Object_0[key],
                )
            &&& forall|key: Seq<char>|
                !first->Object_0.contains_key(key) && !second->Object_0.contains_key(key)
                    ==> #[trigger] g2->Ok_0.nodes[node_id].properties.field(key) == before.field(
                    key,
                )
        }),
{
}

/// An update never moves a node's time of update back, and never touches its
/// time of creation: a node that was valid stays valid.
pub proof fn update_keeps_node_valid(
    g: GraphModel,
    node_id: Seq<char>,
    patch: JsonModel,
    now: Timestamp,
)
    requires
        g.update_node_properties(node_id, patch, now) is Ok,
    ensures
        ({
            let before = g.nodes[node_id];
            let after = g.update_node_properties(node_id, patch, now)->Ok_0.nodes[node_id];
            &&& after.id == before.id
            &&& after.node_type == before.node_type
            &&& after.labels == before.labels
            &&& after.created_at == before.created_at
            &&& before.updated_at.le(after.updated_at)
            &&& now.le(after.updated_at)
            &&& before.valid() ==> after.valid()
        }),
{
}

/// An update never moves an edge's time of update back, and never touches its
/// endpoints or its time of creation: an edge that was valid stays valid.
pub proof fn update_keeps_edge_valid(
    g: GraphModel,
    edge_id: Seq<char>,
    patch: JsonModel,
    now: Timestamp,
)
    requires
        g.update_edge_properties(edge_id, patch, now) is Ok,
    ensures
        ({
            let before = g.edges[edge_id];
            let after = g.update_edge_properties(edge_id, patch, now)->Ok_0.edges[edge_id];
            &&& after.id == before.id
            &&& after.source_node_id == before.source_node_id
            &&& after.target_node_id == before.target_node_id
            &&& after.edge_type == before.edge_type
            &&& after.created_at == before.created_at
            &&& before.updated_at.le(after.updated_at)
            &&& now.le(after.updated_at)
            &&& before.valid() ==> after.valid()
        }),
{
}

} // verus!
