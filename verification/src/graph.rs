//! Nodes and edges, and the values that contracts see in their place.

use vstd::prelude::*;
use crate::clock::Timestamp;
use crate::ident::random_id;
use crate::json::{JsonModel, JsonValue};
use crate::taxonomy::{EdgeType, NodeType};
use crate::text::{clone_strings, owned};

verus! {

/// What a node is to a contract.
pub struct NodeModel {
    pub id: Seq<char>,
    pub node_type: NodeType,
    pub labels: Seq<Seq<char>>,
    pub properties: JsonModel,
    pub created_at: Timestamp,
    pub updated_at: Timestamp,
}

/// What an edge is to a contract.
pub struct EdgeModel {
    pub id: Seq<char>,
    pub source_node_id: Seq<char>,
    pub target_node_id: Seq<char>,
    pub edge_type: EdgeType,
    pub properties: JsonModel,
    pub created_at: Timestamp,
    pub updated_at: Timestamp,
}

impl NodeModel {
    /// A node is never updated before it is created.
    pub open spec fn valid(self) -> bool {
        self.created_at.le(self.updated_at)
    }
}

impl EdgeModel {
    /// An edge is never updated before it is created.
    pub open spec fn valid(self) -> bool {
        self.created_at.le(self.updated_at)
    }

    /// Whether the edge starts or ends at the node.
    pub open spec fn touches(self, node_id: Seq<char>) -> bool {
        self.source_node_id == node_id || self.target_node_id == node_id
    }
}

/// A typed, identified entity of the graph with an open property document.
#[derive(Debug)]
pub struct Node {
    /// The identity: an opaque string, such as a URN.
    pub id: String,
    pub node_type: NodeType,
    /// Human-readable tags.
    pub labels: Vec<String>,
    pub properties: JsonValue,
    pub created_at: Timestamp,
    pub updated_at: Timestamp,
}

/// A typed, identified, directed relation between two nodes.
#[derive(Debug)]
pub struct Edge {
    pub id: String,
    pub source_node_id: String,
    pub target_node_id: String,
    pub edge_type: EdgeType,
    pub properties: JsonValue,
    pub created_at: Timestamp,
    pub updated_at: Timestamp,
}

impl View for Node {
    type V = NodeModel;

    open spec fn view(&self) -> NodeModel {
        NodeModel {
            id: self.id@,
            node_type: self.node_type,
            labels: self.labels.deep_view(),
            properties: self.properties@,
            created_at: self.created_at,
            updated_at: self.updated_at,
        }
    }
}

impl View for Edge {
    type V = EdgeModel;

    open spec fn view(&self) -> EdgeModel {
        EdgeModel {
            id: self.id@,
            source_node_id: self.source_node_id@,
            target_node_id: self.target_node_id@,
            edge_type: self.edge_type,
            properties: self.properties@,
            created_at: self.created_at,
            updated_at: self.updated_at,
        }
    }
}

impl DeepView for Node {
    type V = NodeModel;

    open spec fn deep_view(&self) -> NodeModel {
        self@
    }
}

impl DeepView for Edge {
    type V = EdgeModel;

    open spec fn deep_view(&self) -> EdgeModel {
        self@
    }
}

impl Clone for Node {
    /// A copy that is the same node to every contract.
    fn clone(&self) -> (r: Node)
        ensures
            r@ == self@,
    {
        Node {
            id: self.id.clone(),
            node_type: self.node_type,
            labels: clone_strings(&self.labels),
            properties: self.properties.clone(),
            created_at: self.created_at,
            updated_at: self.updated_at,
        }
    }
}

impl Clone for Edge {
    /// A copy that is the same edge to every contract.
    fn clone(&self) -> (r: Edge)
        ensures
            r@ == self@,
    {
        Edge {
            id: self.id.clone(),
            source_node_id: self.source_node_id.clone(),
            target_node_id: self.target_node_id.clone(),
            edge_type: self.edge_type,
            properties: self.properties.clone(),
            created_at: self.created_at,
            updated_at: self.updated_at,
        }
    }
}

impl Node {
    /// A node created at `now`, with the name of its kind as its one label.
    pub fn new_at(id: String, node_type: NodeType, properties: JsonValue, now: Timestamp) -> (r:
        Node)
        ensures
            r@ == (NodeModel {
                id: id@,
                node_type,
                labels: seq![node_type.name_spec()],
                properties: properties@,
                created_at: now,
                updated_at: now,
            }),
    {
        let mut labels: Vec<String> = Vec::new();
        labels.push(owned(node_type.name()));
        assert(labels.deep_view() =~= seq![node_type.name_spec()]);
        Node { id, node_type, labels, properties, created_at: now, updated_at: now }
    }

    /// A node created at `now` with the given labels.
    pub fn new_with_labels_at(
        id: String,
        node_type: NodeType,
        labels: Vec<String>,
        properties: JsonValue,
        now: Timestamp,
    ) -> (r: Node)
        ensures
            r@ == (NodeModel {
                id: id@,
                node_type,
                labels: labels.deep_view(),
                properties: properties@,
                created_at: now,
                updated_at: now,
            }),
    {
        Node { id, node_type, labels, properties, created_at: now, updated_at: now }
    }

    /// A node created now, with the name of its kind as its one label. Whatever
    /// the clock says, both timestamps are that one reading.
    pub fn new(id: String, node_type: NodeType, properties: JsonValue) -> (r: Node)
        ensures
            r@ == (NodeModel {
                id: id@,
                node_type,
                labels: seq![node_type.name_spec()],
                properties: properties@,
                created_at: r.created_at,
                updated_at: r.created_at,
            }),
            r@.valid(),
    {
        Node::new_at(id, node_type, properties, Timestamp::now())
    }

    /// A node created now with the given labels. Whatever the clock says, both
    /// timestamps are that one reading.
    pub fn new_with_labels(
        id: String,
        node_type: NodeType,
        labels: Vec<String>,
        properties: JsonValue,
    ) -> (r: Node)
        ensures
            r@ == (NodeModel {
                id: id@,
                node_type,
                labels: labels.deep_view(),
                properties: properties@,
                created_at: r.created_at,
                updated_at: r.created_at,
            }),
            r@.valid(),
    {
        Node::new_with_labels_at(id, node_type, labels, properties, Timestamp::now())
    }
}

impl Edge {
    /// The edge with the given identity, created at `now`.
    pub fn with_id_at(
        id: String,
        source_node_id: String,
        target_node_id: String,
        edge_type: EdgeType,
        properties: JsonValue,
        now: Timestamp,
    ) -> (r: Edge)
        ensures
            r@ == (EdgeModel {
                id: id@,
                source_node_id: source_node_id@,
                target_node_id: target_node_id@,
                edge_type,
                properties: properties@,
                created_at: now,
                updated_at: now,
            }),
    {
        Edge {
            id,
            source_node_id,
            target_node_id,
            edge_type,
            properties,
            created_at: now,
            updated_at: now,
        }
    }

    /// An edge created now under a random identity. Whatever the clock and the
    /// random source give, both timestamps are one reading and the identity has
    /// the length of a random identifier.
    pub fn new(
        source_node_id: String,
        target_node_id: String,
        edge_type: EdgeType,
        properties: JsonValue,
    ) -> (r: Edge)
        ensures
            r@ == (EdgeModel {
                id: r.id@,
                source_node_id: source_node_id@,
                target_node_id: target_node_id@,
                edge_type,
                properties: properties@,
                created_at: r.created_at,
                updated_at: r.created_at,
            }),
            r.id@.len() == crate::ident::RANDOM_ID_LEN,
            r@.valid(),
    {
        let now = Timestamp::now();
        Edge::with_id_at(random_id(), source_node_id, target_node_id, edge_type, properties, now)
    }
}

} // verus!
