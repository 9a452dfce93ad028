use goose_kb::clock::Timestamp;
use goose_kb::error::KbError;
use goose_kb::graph::{Edge, Node};
use goose_kb::json::{JsonNumber, JsonObject, JsonValue};
use goose_kb::store::{InMemoryKnowledgeStore, KnowledgeStoreProvider};
use goose_kb::taxonomy::{EdgeType, NodeType};

fn at(secs: i64) -> Timestamp {
    Timestamp { secs, nanos: 0 }
}

fn object(pairs: Vec<(&str, JsonValue)>) -> JsonValue {
    let mut o = JsonObject::new();
    for (k, v) in pairs {
        o.insert(k.to_string(), v);
    }
    JsonValue::Object(o)
}

fn node(id: &str, node_type: NodeType, properties: JsonValue) -> Node {
    Node::new_at(id.to_string(), node_type, properties, at(100))
}

fn edge(id: &str, source: &str, target: &str, edge_type: EdgeType) -> Edge {
    Edge::with_id_at(
        id.to_string(),
        source.to_string(),
        target.to_string(),
        edge_type,
        object(vec![]),
        at(100),
    )
}

fn ids(edges: &Vec<Edge>) -> Vec<String> {
    let mut v: Vec<String> = edges.iter().map(|e| e.id.clone()).collect();
    v.sort();
    v
}

fn node_ids(nodes: &Vec<Node>) -> Vec<String> {
    let mut v: Vec<String> = nodes.iter().map(|n| n.id.clone()).collect();
    v.sort();
    v
}

fn dir(text: &str) -> Option<String> {
    Some(text.to_string())
}

fn triangle() -> InMemoryKnowledgeStore {
    let mut store = InMemoryKnowledgeStore::new();
    for id in ["a", "b", "c"] {
        assert_eq!(store.add_node(&node(id, NodeType::Concept, object(vec![]))), Ok(()));
    }
    assert_eq!(store.add_edge(&edge("ab", "a", "b", EdgeType::RelatedTo)), Ok(()));
    assert_eq!(store.add_edge(&edge("bc", "b", "c", EdgeType::Mentions)), Ok(()));
    assert_eq!(store.add_edge(&edge("ca", "c", "a", EdgeType::InstanceOf)), Ok(()));
    store
}

#[test]
fn new_store_is_empty() {
    let store = InMemoryKnowledgeStore::new();
    assert!(store.get_node_by_id("a").unwrap().is_none());
    assert!(store.get_edges_by_node_id("a", None).unwrap().is_empty());
    let store = InMemoryKnowledgeStore::default();
    assert!(store.get_node_by_id("a").unwrap().is_none());
}

#[test]
fn added_node_is_returned_equal() {
    let mut store = InMemoryKnowledgeStore::new();
    let n = Node::new(
        "urn:goose:user:1".to_string(),
        NodeType::User,
        object(vec![("name", JsonValue::string("Ada"))]),
    );
    assert_eq!(store.add_node(&n), Ok(()));
    let found = store.get_node_by_id("urn:goose:user:1").unwrap().unwrap();
    assert_eq!(found.id, n.id);
    assert_eq!(found.node_type, NodeType::User);
    assert_eq!(found.labels, vec!["User".to_string()]);
    assert_eq!(found.properties, n.properties);
    assert_eq!(found.created_at, n.created_at);
    assert_eq!(found.updated_at, n.updated_at);
    assert_eq!(found.created_at, found.updated_at);
}

#[test]
fn node_with_labels_keeps_them() {
    let n = Node::new_with_labels(
        "p".to_string(),
        NodeType::User,
        vec!["Person".to_string(), "Employee".to_string()],
        JsonValue::Null,
    );
    assert_eq!(n.labels, vec!["Person".to_string(), "Employee".to_string()]);
    assert_eq!(n.created_at, n.updated_at);
    let m = Node::new_with_labels_at("q".to_string(), NodeType::File, vec![], JsonValue::Null, at(7));
    assert!(m.labels.is_empty());
    assert_eq!(m.created_at, at(7));
    assert_eq!(m.updated_at, at(7));
}

#[test]
fn absent_node_is_none_not_an_error() {
    let store = triangle();
    assert!(store.get_node_by_id("zzz").unwrap().is_none());
}

#[test]
fn second_add_with_same_id_is_conflict() {
    let mut store = InMemoryKnowledgeStore::new();
    let first = node("n1", NodeType::Tool, JsonValue::Null);
    let second = node("n1", NodeType::File, JsonValue::Bool(true));
    assert_eq!(store.add_node(&first), Ok(()));
    assert_eq!(store.add_node(&second), Err(KbError::Conflict));
    let found = store.get_node_by_id("n1").unwrap().unwrap();
    assert_eq!(found.node_type, NodeType::Tool);
    assert_eq!(found.properties, JsonValue::Null);
}

#[test]
fn edge_to_missing_endpoint_is_not_found_and_changes_nothing() {
    let mut store = triangle();
    assert_eq!(store.add_edge(&edge("ax", "a", "x", EdgeType::RelatedTo)), Err(KbError::NotFound));
    assert_eq!(store.add_edge(&edge("xa", "x", "a", EdgeType::RelatedTo)), Err(KbError::NotFound));
    assert_eq!(store.add_edge(&edge("xy", "x", "y", EdgeType::RelatedTo)), Err(KbError::NotFound));
    assert_eq!(ids(&store.get_edges_by_node_id("a", dir("outgoing")).unwrap()), vec!["ab"]);
    assert_eq!(ids(&store.get_edges_by_node_id("a", dir("incoming")).unwrap()), vec!["ca"]);
    assert!(store.get_edges_by_node_id("x", None).unwrap().is_empty());
    assert_eq!(store.delete_edge("ax"), Err(KbError::NotFound));
    assert_eq!(store.delete_edge("xa"), Err(KbError::NotFound));
}

#[test]
fn missing_endpoint_is_reported_before_a_taken_id() {
    let mut store = triangle();
    assert_eq!(store.add_edge(&edge("ab", "a", "x", EdgeType::RelatedTo)), Err(KbError::NotFound));
}

#[test]
fn edge_with_taken_id_is_conflict() {
    let mut store = triangle();
    assert_eq!(store.add_edge(&edge("ab", "b", "c", EdgeType::UsesTool)), Err(KbError::Conflict));
    let out = store.get_edges_by_node_id("a", dir("outgoing")).unwrap();
    assert_eq!(out.len(), 1);
    assert_eq!(out[0].edge_type, EdgeType::RelatedTo);
    assert_eq!(out[0].target_node_id, "b");
    assert_eq!(ids(&store.get_edges_by_node_id("b", dir("outgoing")).unwrap()), vec!["bc"]);
}

#[test]
fn added_edge_is_found_from_both_ends() {
    let mut store = InMemoryKnowledgeStore::new();
    store.add_node(&node("s", NodeType::User, JsonValue::Null)).unwrap();
    store.add_node(&node("t", NodeType::Tool, JsonValue::Null)).unwrap();
    let e = Edge::new("s".to_string(), "t".to_string(), EdgeType::UsesTool, JsonValue::Null);
    assert_eq!(e.id.chars().count(), 36);
    assert_eq!(e.created_at, e.updated_at);
    assert_eq!(store.add_edge(&e), Ok(()));
    let out = store.get_edges_by_node_id("s", dir("outgoing")).unwrap();
    assert_eq!(out.len(), 1);
    assert_eq!(out[0].id, e.id);
    assert_eq!(out[0].source_node_id, "s");
    assert_eq!(out[0].target_node_id, "t");
    assert_eq!(out[0].edge_type, EdgeType::UsesTool);
    assert_eq!(out[0].properties, JsonValue::Null);
    let inc = store.get_edges_by_node_id("t", dir("incoming")).unwrap();
    assert_eq!(ids(&inc), vec![e.id.clone()]);
    assert_eq!(ids(&store.get_edges_by_node_id("s", dir("both")).unwrap()), vec![e.id.clone()]);
    assert_eq!(ids(&store.get_edges_by_node_id("t", dir("both")).unwrap()), vec![e.id.clone()]);
    assert_eq!(ids(&store.get_edges_by_node_id("s", None).unwrap()), vec![e.id.clone()]);
    assert_eq!(ids(&store.get_edges_by_node_id("t", None).unwrap()), vec![e.id.clone()]);
    assert!(store.get_edges_by_node_id("s", dir("incoming")).unwrap().is_empty());
    assert!(store.get_edges_by_node_id("t", dir("outgoing")).unwrap().is_empty());
}

#[test]
fn directions_select_edges() {
    let store = triangle();
    assert_eq!(ids(&store.get_edges_by_node_id("a", dir("outgoing")).unwrap()), vec!["ab"]);
    assert_eq!(ids(&store.get_edges_by_node_id("a", dir("incoming")).unwrap()), vec!["ca"]);
    assert_eq!(ids(&store.get_edges_by_node_id("a", dir("both")).unwrap()), vec!["ab", "ca"]);
    assert_eq!(ids(&store.get_edges_by_node_id("a", None).unwrap()), vec!["ab", "ca"]);
}

#[test]
fn unknown_direction_finds_nothing() {
    let store = triangle();
    assert!(store.get_edges_by_node_id("a", dir("sideways")).unwrap().is_empty());
    assert!(store.get_edges_by_node_id("a", dir("Outgoing")).unwrap().is_empty());
    assert!(store.get_edges_by_node_id("a", dir("")).unwrap().is_empty());
}

#[test]
fn unknown_node_has_no_edges() {
    let store = triangle();
    assert!(store.get_edges_by_node_id("nobody", None).unwrap().is_empty());
    assert!(store.get_edges_by_node_id("nobody", dir("outgoing")).unwrap().is_empty());
}

#[test]
fn self_loop_is_listed_once() {
    let mut store = InMemoryKnowledgeStore::new();
    store.add_node(&node("a", NodeType::Plan, JsonValue::Null)).unwrap();
    store.add_edge(&edge("aa", "a", "a", EdgeType::NextStep)).unwrap();
    assert_eq!(ids(&store.get_edges_by_node_id("a", None).unwrap()), vec!["aa"]);
    assert_eq!(ids(&store.get_edges_by_node_id("a", dir("outgoing")).unwrap()), vec!["aa"]);
    assert_eq!(ids(&store.get_edges_by_node_id("a", dir("incoming")).unwrap()), vec!["aa"]);
    assert_eq!(store.delete_node("a"), Ok(()));
    assert!(store.get_node_by_id("a").unwrap().is_none());
    assert_eq!(store.delete_edge("aa"), Err(KbError::NotFound));
}

#[test]
fn delete_edge_removes_it_from_both_ends() {
    let mut store = triangle();
    assert_eq!(store.delete_edge("ab"), Ok(()));
    assert!(store.get_edges_by_node_id("a", dir("outgoing")).unwrap().is_empty());
    assert!(store.get_edges_by_node_id("b", dir("incoming")).unwrap().is_empty());
    assert_eq!(ids(&store.get_edges_by_node_id("a", None).unwrap()), vec!["ca"]);
    assert_eq!(ids(&store.get_edges_by_node_id("b", None).unwrap()), vec!["bc"]);
    assert_eq!(store.delete_edge("ab"), Err(KbError::NotFound));
    assert_eq!(store.add_edge(&edge("ab", "a", "b", EdgeType::RelatedTo)), Ok(()));
}

#[test]
fn delete_edge_of_unknown_id_is_not_found() {
    let mut store = triangle();
    assert_eq!(store.delete_edge("nope"), Err(KbError::NotFound));
    assert_eq!(ids(&store.get_edges_by_node_id("a", None).unwrap()), vec!["ab", "ca"]);
}

#[test]
fn delete_node_takes_its_edges() {
    let mut store = triangle();
    assert_eq!(store.delete_node("a"), Ok(()));
    assert!(store.get_node_by_id("a").unwrap().is_none());
    assert!(store.get_node_by_id("b").unwrap().is_some());
    assert!(store.get_node_by_id("c").unwrap().is_some());
    assert_eq!(ids(&store.get_edges_by_node_id("b", dir("both")).unwrap()), vec!["bc"]);
    assert_eq!(ids(&store.get_edges_by_node_id("c", dir("both")).unwrap()), vec!["bc"]);
    assert!(store.get_edges_by_node_id("a", dir("both")).unwrap().is_empty());
    assert_eq!(store.delete_edge("ab"), Err(KbError::NotFound));
    assert_eq!(store.delete_edge("ca"), Err(KbError::NotFound));
    assert_eq!(store.delete_edge("bc"), Ok(()));
}

#[test]
fn delete_node_of_unknown_id_is_not_found() {
    let mut store = triangle();
    assert_eq!(store.delete_node("nobody"), Err(KbError::NotFound));
    assert_eq!(ids(&store.get_edges_by_node_id("a", None).unwrap()), vec!["ab", "ca"]);
    assert_eq!(store.delete_node("a"), Ok(()));
    assert_eq!(store.delete_node("a"), Err(KbError::NotFound));
}

#[test]
fn deleted_node_can_come_back_without_edges() {
    let mut store = triangle();
    store.delete_node("b").unwrap();
    assert_eq!(store.add_node(&node("b", NodeType::File, JsonValue::Null)), Ok(()));
    assert!(store.get_edges_by_node_id("b", None).unwrap().is_empty());
    assert_eq!(ids(&store.get_edges_by_node_id("a", None).unwrap()), vec!["ca"]);
}

#[test]
fn two_updates_accumulate() {
    let mut store = InMemoryKnowledgeStore::new();
    store.add_node(&node("n", NodeType::Concept, object(vec![]))).unwrap();
    assert_eq!(
        store.update_node_properties("n", object(vec![("a", JsonValue::unsigned(1))])),
        Ok(())
    );
    assert_eq!(
        store.update_node_properties("n", object(vec![("b", JsonValue::unsigned(2))])),
        Ok(())
    );
    let found = store.get_node_by_id("n").unwrap().unwrap();
    assert_eq!(found.properties.get("a"), Some(&JsonValue::unsigned(1)));
    assert_eq!(found.properties.get("b"), Some(&JsonValue::unsigned(2)));
    assert_eq!(
        found.properties,
        object(vec![("b", JsonValue::unsigned(2)), ("a", JsonValue::unsigned(1))])
    );
}

#[test]
fn update_overwrites_and_keeps_other_keys() {
    let mut store = InMemoryKnowledgeStore::new();
    let start = object(vec![
        ("keep", JsonValue::string("k")),
        ("change", JsonValue::unsigned(1)),
        ("nested", object(vec![("x", JsonValue::unsigned(1)), ("y", JsonValue::unsigned(2))])),
    ]);
    store.add_node(&node("n", NodeType::Concept, start)).unwrap();
    let patch = object(vec![
        ("change", JsonValue::unsigned(9)),
        ("nested", object(vec![("z", JsonValue::unsigned(3))])),
        ("gone", JsonValue::Null),
    ]);
    assert_eq!(store.update_node_properties_at("n", patch, at(200)), Ok(()));
    let found = store.get_node_by_id("n").unwrap().unwrap();
    assert_eq!(
        found.properties,
        object(vec![
            ("keep", JsonValue::string("k")),
            ("change", JsonValue::unsigned(9)),
            ("nested", object(vec![("z", JsonValue::unsigned(3))])),
            ("gone", JsonValue::Null),
        ])
    );
    assert_eq!(found.created_at, at(100));
    assert_eq!(found.updated_at, at(200));
    assert_eq!(found.id, "n");
    assert_eq!(found.node_type, NodeType::Concept);
    assert_eq!(found.labels, vec!["Concept".to_string()]);
}

#[test]
fn update_never_moves_the_time_back() {
    let mut store = InMemoryKnowledgeStore::new();
    store.add_node(&node("n", NodeType::Concept, object(vec![]))).unwrap();
    assert_eq!(store.update_node_properties_at("n", object(vec![]), at(50)), Ok(()));
    let found = store.get_node_by_id("n").unwrap().unwrap();
    assert_eq!(found.updated_at, at(100));
    assert_eq!(
        store.update_node_properties_at("n", object(vec![]), Timestamp { secs: 100, nanos: 5 }),
        Ok(())
    );
    let found = store.get_node_by_id("n").unwrap().unwrap();
    assert_eq!(found.updated_at, Timestamp { secs: 100, nanos: 5 });
    assert_eq!(found.created_at, at(100));
}

#[test]
fn update_with_the_clock_does_not_move_back() {
    let mut store = InMemoryKnowledgeStore::new();
    let n = Node::new("n".to_string(), NodeType::Concept, object(vec![]));
    store.add_node(&n).unwrap();
    store.update_node_properties("n", object(vec![("a", JsonValue::Bool(true))])).unwrap();
    let found = store.get_node_by_id("n").unwrap().unwrap();
    assert!(n.updated_at.not_after(&found.updated_at));
    assert_eq!(found.created_at, n.created_at);
}

#[test]
fn update_of_unknown_node_is_not_found() {
    let mut store = triangle();
    assert_eq!(store.update_node_properties("nobody", object(vec![])), Err(KbError::NotFound));
    assert_eq!(store.update_node_properties("nobody", JsonValue::Null), Err(KbError::NotFound));
    assert_eq!(store.update_edge_properties("nothing", object(vec![])), Err(KbError::NotFound));
}

#[test]
fn update_with_a_patch_that_is_no_object_is_invalid() {
    let mut store = InMemoryKnowledgeStore::new();
    let start = object(vec![("a", JsonValue::unsigned(1))]);
    store.add_node(&node("n", NodeType::Concept, start.clone())).unwrap();
    for patch in [
        JsonValue::Null,
        JsonValue::Bool(true),
        JsonValue::unsigned(3),
        JsonValue::string("x"),
        JsonValue::Array(vec![object(vec![])]),
    ] {
        assert_eq!(store.update_node_properties("n", patch), Err(KbError::InvalidInput));
    }
    let found = store.get_node_by_id("n").unwrap().unwrap();
    assert_eq!(found.properties, start);
    assert_eq!(found.updated_at, at(100));
}

#[test]
fn update_of_properties_that_are_no_object_is_invalid() {
    let mut store = InMemoryKnowledgeStore::new();
    store.add_node(&node("n", NodeType::Concept, JsonValue::string("plain"))).unwrap();
    assert_eq!(
        store.update_node_properties("n", object(vec![("a", JsonValue::unsigned(1))])),
        Err(KbError::InvalidInput)
    );
    let found = store.get_node_by_id("n").unwrap().unwrap();
    assert_eq!(found.properties, JsonValue::string("plain"));
}

#[test]
fn edge_properties_merge_too() {
    let mut store = triangle();
    assert_eq!(
        store.update_edge_properties_at("ab", object(vec![("weight", JsonValue::unsigned(3))]), at(300)),
        Ok(())
    );
    assert_eq!(
        store.update_edge_properties("ab", object(vec![("seen", JsonValue::Bool(true))])),
        Ok(())
    );
    let out = store.get_edges_by_node_id("a", dir("outgoing")).unwrap();
    assert_eq!(out.len(), 1);
    assert_eq!(
        out[0].properties,
        object(vec![("weight", JsonValue::unsigned(3)), ("seen", JsonValue::Bool(true))])
    );
    assert_eq!(out[0].source_node_id, "a");
    assert_eq!(out[0].target_node_id, "b");
    assert_eq!(out[0].edge_type, EdgeType::RelatedTo);
    assert_eq!(out[0].created_at, at(100));
    assert!(at(300).not_after(&out[0].updated_at));
    let inc = store.get_edges_by_node_id("b", dir("incoming")).unwrap();
    assert_eq!(inc[0].properties, out[0].properties);
}

#[test]
fn edge_update_with_bad_documents_is_invalid() {
    let mut store = InMemoryKnowledgeStore::new();
    store.add_node(&node("a", NodeType::Concept, JsonValue::Null)).unwrap();
    let e = Edge::with_id_at(
        "e".to_string(),
        "a".to_string(),
        "a".to_string(),
        EdgeType::RelatedTo,
        JsonValue::Null,
        at(1),
    );
    store.add_edge(&e).unwrap();
    assert_eq!(store.update_edge_properties("e", object(vec![])), Err(KbError::InvalidInput));
    assert_eq!(store.update_edge_properties("e", JsonValue::Null), Err(KbError::InvalidInput));
    assert_eq!(store.update_edge_properties_at("e", object(vec![]), at(9)), Err(KbError::InvalidInput));
}

#[test]
fn nodes_are_found_by_type_and_property() {
    let mut store = InMemoryKnowledgeStore::new();
    store.add_node(&node("t1", NodeType::Tool, object(vec![("lang", JsonValue::string("rust"))]))).unwrap();
    store.add_node(&node("t2", NodeType::Tool, object(vec![("lang", JsonValue::string("go"))]))).unwrap();
    store.add_node(&node("t3", NodeType::Tool, object(vec![("lang", JsonValue::string("rust"))]))).unwrap();
    store.add_node(&node("f1", NodeType::File, object(vec![("lang", JsonValue::string("rust"))]))).unwrap();
    store.add_node(&node("t4", NodeType::Tool, object(vec![("other", JsonValue::string("rust"))]))).unwrap();
    store.add_node(&node("t5", NodeType::Tool, JsonValue::string("rust"))).unwrap();
    let found = store
        .get_nodes_by_type_and_property(NodeType::Tool, "lang", &JsonValue::string("rust"))
        .unwrap();
    assert_eq!(node_ids(&found), vec!["t1", "t3"]);
    let found = store
        .get_nodes_by_type_and_property(NodeType::File, "lang", &JsonValue::string("rust"))
        .unwrap();
    assert_eq!(node_ids(&found), vec!["f1"]);
    let found = store
        .get_nodes_by_type_and_property(NodeType::Tool, "lang", &JsonValue::string("Rust"))
        .unwrap();
    assert!(found.is_empty());
    let found = store
        .get_nodes_by_type_and_property(NodeType::Tool, "missing", &JsonValue::Null)
        .unwrap();
    assert!(found.is_empty());
}

#[test]
fn property_match_is_structural() {
    let mut store = InMemoryKnowledgeStore::new();
    let nested = object(vec![
        ("x", JsonValue::Array(vec![JsonValue::unsigned(1), JsonValue::Null])),
        ("y", JsonValue::Bool(false)),
    ]);
    let same_other_order = object(vec![
        ("y", JsonValue::Bool(false)),
        ("x", JsonValue::Array(vec![JsonValue::unsigned(1), JsonValue::Null])),
    ]);
    let different = object(vec![
        ("y", JsonValue::Bool(false)),
        ("x", JsonValue::Array(vec![JsonValue::Null, JsonValue::unsigned(1)])),
    ]);
    store.add_node(&node("n", NodeType::Concept, object(vec![("shape", nested)]))).unwrap();
    let found = store
        .get_nodes_by_type_and_property(NodeType::Concept, "shape", &same_other_order)
        .unwrap();
    assert_eq!(node_ids(&found), vec!["n"]);
    let found = store.get_nodes_by_type_and_property(NodeType::Concept, "shape", &different).unwrap();
    assert!(found.is_empty());
}

#[test]
fn property_match_tells_integers_from_doubles() {
    let mut store = InMemoryKnowledgeStore::new();
    let one = JsonValue::Number(JsonNumber::Real(1.0f64.to_bits()));
    store.add_node(&node("i", NodeType::Concept, object(vec![("v", JsonValue::unsigned(1))]))).unwrap();
    store.add_node(&node("d", NodeType::Concept, object(vec![("v", one.clone())]))).unwrap();
    let found = store
        .get_nodes_by_type_and_property(NodeType::Concept, "v", &JsonValue::signed(1))
        .unwrap();
    assert_eq!(node_ids(&found), vec!["i"]);
    let found = store.get_nodes_by_type_and_property(NodeType::Concept, "v", &one).unwrap();
    assert_eq!(node_ids(&found), vec!["d"]);
}

#[test]
fn property_match_after_update_and_delete() {
    let mut store = InMemoryKnowledgeStore::new();
    store.add_node(&node("a", NodeType::Skill, object(vec![("level", JsonValue::unsigned(1))]))).unwrap();
    store.add_node(&node("b", NodeType::Skill, object(vec![("level", JsonValue::unsigned(1))]))).unwrap();
    store.update_node_properties("a", object(vec![("level", JsonValue::unsigned(2))])).unwrap();
    let found = store
        .get_nodes_by_type_and_property(NodeType::Skill, "level", &JsonValue::unsigned(1))
        .unwrap();
    assert_eq!(node_ids(&found), vec!["b"]);
    store.delete_node("b").unwrap();
    let found = store
        .get_nodes_by_type_and_property(NodeType::Skill, "level", &JsonValue::unsigned(1))
        .unwrap();
    assert!(found.is_empty());
    let found = store
        .get_nodes_by_type_and_property(NodeType::Skill, "level", &JsonValue::unsigned(2))
        .unwrap();
    assert_eq!(node_ids(&found), vec!["a"]);
}

#[test]
fn structured_queries_are_unsupported() {
    let store = triangle();
    assert_eq!(store.query_cypher("MATCH (n) RETURN n", None).unwrap_err(), KbError::Unsupported);
    let mut params = JsonObject::new();
    params.insert("id".to_string(), JsonValue::string("a"));
    assert_eq!(store.query_cypher("", Some(params)).unwrap_err(), KbError::Unsupported);
}

#[test]
fn returned_copies_do_not_reach_the_store() {
    let mut store = InMemoryKnowledgeStore::new();
    let mut n = node("n", NodeType::Concept, object(vec![("a", JsonValue::unsigned(1))]));
    store.add_node(&n).unwrap();
    n.properties = JsonValue::Null;
    n.labels.push("extra".to_string());
    let mut found = store.get_node_by_id("n").unwrap().unwrap();
    assert_eq!(found.properties, object(vec![("a", JsonValue::unsigned(1))]));
    assert_eq!(found.labels, vec!["Concept".to_string()]);
    found.properties = JsonValue::Bool(false);
    let again = store.get_node_by_id("n").unwrap().unwrap();
    assert_eq!(again.properties, object(vec![("a", JsonValue::unsigned(1))]));
}

#[test]
fn many_edges_at_one_node() {
    let mut store = InMemoryKnowledgeStore::new();
    store.add_node(&node("hub", NodeType::Session, JsonValue::Null)).unwrap();
    let mut expected_out = Vec::new();
    let mut expected_in = Vec::new();
    for i in 0..20 {
        let id = format!("n{:02}", i);
        store.add_node(&node(&id, NodeType::Message, JsonValue::Null)).unwrap();
        let out_id = format!("o{:02}", i);
        let in_id = format!("i{:02}", i);
        store.add_edge(&edge(&out_id, "hub", &id, EdgeType::Mentions)).unwrap();
        store.add_edge(&edge(&in_id, &id, "hub", EdgeType::BelongsToSession)).unwrap();
        expected_out.push(out_id);
        expected_in.push(in_id);
    }
    assert_eq!(ids(&store.get_edges_by_node_id("hub", dir("outgoing")).unwrap()), expected_out);
    assert_eq!(ids(&store.get_edges_by_node_id("hub", dir("incoming")).unwrap()), expected_in);
    assert_eq!(store.get_edges_by_node_id("hub", None).unwrap().len(), 40);
    for i in 0..10 {
        store.delete_node(&format!("n{:02}", i)).unwrap();
    }
    assert_eq!(
        ids(&store.get_edges_by_node_id("hub", dir("outgoing")).unwrap()),
        expected_out[10..].to_vec()
    );
    assert_eq!(store.get_edges_by_node_id("hub", None).unwrap().len(), 20);
    store.delete_node("hub").unwrap();
    for i in 10..20 {
        assert!(store.get_edges_by_node_id(&format!("n{:02}", i), None).unwrap().is_empty());
    }
}

#[test]
fn error_names() {
    assert_eq!(KbError::NotFound.name(), "NotFound");
    assert_eq!(KbError::Conflict.name(), "Conflict");
    assert_eq!(KbError::InvalidInput.name(), "InvalidInput");
    assert_eq!(KbError::Unsupported.name(), "Unsupported");
    assert_eq!(KbError::UpstreamFailure.name(), "UpstreamFailure");
    assert_eq!(KbError::ParseFailure.name(), "ParseFailure");
}

#[test]
fn timestamps_compare_by_seconds_then_nanoseconds() {
    let a = Timestamp { secs: 1, nanos: 999_999_999 };
    let b = Timestamp { secs: 2, nanos: 0 };
    let c = Timestamp { secs: 2, nanos: 1 };
    assert!(a.not_after(&b));
    assert!(b.not_after(&c));
    assert!(!c.not_after(&b));
    assert!(b.not_after(&b));
    assert!(Timestamp { secs: -5, nanos: 3 }.not_after(&Timestamp { secs: -4, nanos: 0 }));
    assert_eq!(a.later(b), b);
    assert_eq!(c.later(b), c);
    assert_eq!(b.later(b), b);
}
