//! From generated text to graph primitives.
//!
//! The pipeline builds a prompt from a text, hands it to a text-generation
//! collaborator, reads the reply as a JSON document with a list of entities and
//! a list of relations, and turns these into nodes and edges. Relations are
//! resolved against the entities of the same reply only; nothing here reads or
//! changes a store.

use vstd::prelude::*;
use vstd::hash_map::StringHashMap;
use crate::clock::Timestamp;
use crate::error::KbError;
use crate::graph::{Edge, EdgeModel, Node, NodeModel};
use crate::ident::{random_id, RANDOM_ID_LEN};
use crate::json::{array_model, parsed, JsonModel, JsonObject, JsonValue};
use crate::taxonomy::{EdgeType, NodeType};
use crate::text::{
    distinct, lemma_position_of, lowercase_of, owned, position_of, replace_all, replaced, text_view,
    to_lowercase,
};

verus! {

/// What an extraction is asked to do, beyond the text itself.
#[derive(Debug)]
pub struct ExtractionContext {
    pub session_id: String,
    /// Where the text came from: a URL, a path, a message id.
    pub source_document_uri: Option<String>,
    pub related_trace_id: Option<String>,
    /// The concept that the extraction is about, if it has one.
    pub target_concept_id: Option<String>,
    /// A prompt to use in place of the default one.
    pub extraction_prompt_template: Option<String>,
    /// What to look for, in a form that only the caller reads.
    pub custom_extraction_rules: Option<JsonValue>,
}

/// An entity as the collaborator reports it.
#[derive(Debug)]
pub struct ExtractedEntityInfo {
    /// The identity of a node that the entity is known to be, if any.
    pub id: Option<String>,
    pub name: String,
    /// The kind of the entity in free text, such as "Person" or "Tool".
    pub entity_type: String,
    pub properties: Option<JsonObject>,
}

/// A relation as the collaborator reports it: between two entities, by name.
#[derive(Debug)]
pub struct ExtractedRelationInfo {
    pub source_entity_name: String,
    pub target_entity_name: String,
    /// The kind of the relation in free text, such as "Uses".
    pub relation_type: String,
    pub properties: Option<JsonObject>,
}

/// The whole of a collaborator's reply.
#[derive(Debug)]
pub struct LlmExtractionOutput {
    pub entities: Vec<ExtractedEntityInfo>,
    pub relations: Vec<ExtractedRelationInfo>,
}

/// What a reported entity is to a contract.
pub struct EntityModel {
    pub id: Option<Seq<char>>,
    pub name: Seq<char>,
    pub entity_type: Seq<char>,
    pub properties: Option<Map<Seq<char>, JsonModel>>,
}

/// What a reported relation is to a contract.
pub struct RelationModel {
    pub source_entity_name: Seq<char>,
    pub target_entity_name: Seq<char>,
    pub relation_type: Seq<char>,
    pub properties: Option<Map<Seq<char>, JsonModel>>,
}

/// What a reply is to a contract.
pub struct OutputModel {
    pub entities: Seq<EntityModel>,
    pub relations: Seq<RelationModel>,
}

/// The view of an optional object.
pub open spec fn object_view(object: Option<JsonObject>) -> Option<Map<Seq<char>, JsonModel>> {
    match object {
        Some(o) => Some(o@),
        None => None,
    }
}

impl View for ExtractedEntityInfo {
    type V = EntityModel;

    open spec fn view(&self) -> EntityModel {
        EntityModel {
            id: text_view(self.id),
            name: self.name@,
            entity_type: self.entity_type@,
            properties: object_view(self.properties),
        }
    }
}

impl DeepView for ExtractedEntityInfo {
    type V = EntityModel;

    open spec fn deep_view(&self) -> EntityModel {
        self@
    }
}

impl View for ExtractedRelationInfo {
    type V = RelationModel;

    open spec fn view(&self) -> RelationModel {
        RelationModel {
            source_entity_name: self.source_entity_name@,
            target_entity_name: self.target_entity_name@,
            relation_type: self.relation_type@,
            properties: object_view(self.properties),
        }
    }
}

impl DeepView for ExtractedRelationInfo {
    type V = RelationModel;

    open spec fn deep_view(&self) -> RelationModel {
        self@
    }
}

impl View for LlmExtractionOutput {
    type V = OutputModel;

    open spec fn view(&self) -> OutputModel {
        OutputModel {
            entities: self.entities.deep_view(),
            relations: self.relations.deep_view(),
        }
    }
}

/// The string at `key`, where the document is an object that holds a string
/// there.
pub open spec fn required_text(doc: JsonModel, key: Seq<char>) -> Option<Seq<char>> {
    match doc.field(key) {
        Some(JsonModel::String(s)) => Some(s),
        _ => None,
    }
}

/// The string at `key`, which may be missing or null. The outer `None` says
/// that something other than a string or null stands there.
pub open spec fn optional_text(doc: JsonModel, key: Seq<char>) -> Option<Option<Seq<char>>> {
    match doc.field(key) {
        None => Some(None),
        Some(JsonModel::Null) => Some(None),
        Some(JsonModel::String(s)) => Some(Some(s)),
        _ => None,
    }
}

/// The object at `key`, which may be missing or null. The outer `None` says
/// that something other than an object or null stands there.
pub open spec fn optional_object(doc: JsonModel, key: Seq<char>) -> Option<
    Option<Map<Seq<char>, JsonModel>>,
> {
    match doc.field(key) {
        None => Some(None),
        Some(JsonModel::Null) => Some(None),
        Some(JsonModel::Object(fields)) => Some(Some(fields)),
        _ => None,
    }
}

/// The entity that a document describes: an object with the strings `name`
/// and `entity_type`, and optionally a string `id` and an object
/// `properties`. Other keys are ignored.
pub open spec fn entity_of(doc: JsonModel) -> Option<EntityModel> {
    match (
        required_text(doc, "name"@),
        required_text(doc, "entity_type"@),
        optional_text(doc, "id"@),
        optional_object(doc, "properties"@),
    ) {
        (Some(name), Some(entity_type), Some(id), Some(properties)) => Some(
            EntityModel { id, name, entity_type, properties },
        ),
        _ => None,
    }
}

/// The relation that a document describes: an object with the strings
/// `source_entity_name`, `target_entity_name` and `relation_type`, and
/// optionally an object `properties`. Other keys are ignored.
pub open spec fn relation_of(doc: JsonModel) -> Option<RelationModel> {
    match (
        required_text(doc, "source_entity_name"@),
        required_text(doc, "target_entity_name"@),
        required_text(doc, "relation_type"@),
        optional_object(doc, "properties"@),
    ) {
        (Some(source_entity_name), Some(target_entity_name), Some(relation_type), Some(properties)) => Some(
            RelationModel { source_entity_name, target_entity_name, relation_type, properties },
        ),
        _ => None,
    }
}

/// The reply that a document is: an object whose `entities` is an array of
/// entities and whose `relations` is an array of relations.
pub open spec fn output_of(doc: JsonModel) -> Option<OutputModel> {
    match (doc.field("entities"@), doc.field("relations"@)) {
        (Some(JsonModel::Array(entities)), Some(JsonModel::Array(relations))) => {
            if (forall|i: int| 0 <= i < entities.len() ==> entity_of(#[trigger] entities[i]) is Some)
                && (forall|i: int|
                0 <= i < relations.len() ==> relation_of(#[trigger] relations[i]) is Some) {
                Some(
                    OutputModel {
                        entities: Seq::new(entities.len(), |i: int| entity_of(entities[i])->0),
                        relations: Seq::new(relations.len(), |i: int| relation_of(relations[i])->0),
                    },
                )
            } else {
                None
            }
        },
        _ => None,
    }
}

/// Reads the string at `key`.
fn read_required_text(doc: &JsonValue, key: &str) -> (r: Option<String>)
    ensures
        text_view(r) == required_text(doc@, key@),
{
    match doc.get(key) {
        Some(value) => match value.as_str() {
            Some(s) => Some(owned(s)),
            None => None,
        },
        None => None,
    }
}

/// Reads the string at `key`, which may be missing or null. `Err` where
/// something else stands there.
fn read_optional_text(doc: &JsonValue, key: &str) -> (r: Result<Option<String>, ()>)
    ensures
        match r {
            Ok(text) => optional_text(doc@, key@) == Some(text_view(text)),
            Err(_) => optional_text(doc@, key@) is None,
        },
{
    match doc.get(key) {
        None => Ok(None),
        Some(value) => match value {
            JsonValue::Null => Ok(None),
            JsonValue::String(s) => Ok(Some(s.clone())),
            _ => Err(()),
        },
    }
}

/// Reads the object at `key`, which may be missing or null. `Err` where
/// something else stands there.
fn read_optional_object(doc: &JsonValue, key: &str) -> (r: Result<Option<JsonObject>, ()>)
    ensures
        match r {
            Ok(object) => optional_object(doc@, key@) == Some(object_view(object)),
            Err(_) => optional_object(doc@, key@) is None,
        },
{
    match doc.get(key) {
        None => Ok(None),
        Some(value) => match value {
            JsonValue::Null => Ok(None),
            JsonValue::Object(o) => Ok(Some(o.clone())),
            _ => Err(()),
        },
    }
}

impl ExtractedEntityInfo {
    /// Reads an entity from a document.
    pub fn decode(doc: &JsonValue) -> (r: Option<ExtractedEntityInfo>)
        ensures
            match r {
                Some(entity) => entity_of(doc@) == Some(entity@),
                None => entity_of(doc@) is None,
            },
    {
        let name = match read_required_text(doc, "name") {
            Some(name) => name,
            None => {
                return None;
            },
        };
        let entity_type = match read_required_text(doc, "entity_type") {
            Some(entity_type) => entity_type,
            None => {
                return None;
            },
        };
        let id = match read_optional_text(doc, "id") {
            Ok(id) => id,
            Err(_) => {
                return None;
            },
        };
        let properties = match read_optional_object(doc, "properties") {
            Ok(properties) => properties,
            Err(_) => {
                return None;
            },
        };
        Some(ExtractedEntityInfo { id, name, entity_type, properties })
    }
}

impl ExtractedRelationInfo {
    /// Reads a relation from a document.
    pub fn decode(doc: &JsonValue) -> (r: Option<ExtractedRelationInfo>)
        ensures
            match r {
                Some(relation) => relation_of(doc@) == Some(relation@),
                None => relation_of(doc@) is None,
            },
    {
        let source_entity_name = match read_required_text(doc, "source_entity_name") {
            Some(name) => name,
            None => {
                return None;
            },
        };
        let target_entity_name = match read_required_text(doc, "target_entity_name") {
            Some(name) => name,
            None => {
                return None;
            },
        };
        let relation_type = match read_required_text(doc, "relation_type") {
            Some(relation_type) => relation_type,
            None => {
                return None;
            },
        };
        let properties = match read_optional_object(doc, "properties") {
            Ok(properties) => properties,
            Err(_) => {
                return None;
            },
        };
        Some(
            ExtractedRelationInfo {
                source_entity_name,
                target_entity_name,
                relation_type,
                properties,
            },
        )
    }
}

impl LlmExtractionOutput {
    /// Reads a reply from a document.
    pub fn decode(doc: &JsonValue) -> (r: Option<LlmExtractionOutput>)
        ensures
            match r {
                Some(output) => output_of(doc@) == Some(output@),
                None => output_of(doc@) is None,
            },
    {
        let entity_docs = match doc.get("entities") {
            Some(value) => match value.as_array() {
                Some(items) => items,
                None => {
                    return None;
                },
            },
            None => {
                return None;
            },
        };
        let relation_docs = match doc.get("relations") {
            Some(value) => match value.as_array() {
                Some(items) => items,
                None => {
                    return None;
                },
            },
            None => {
                return None;
            },
        };
        let ghost entity_models = array_model(entity_docs@);
        let ghost relation_models = array_model(relation_docs@);
        let mut entities: Vec<ExtractedEntityInfo> = Vec::new();
        let mut i: usize = 0;
        while i < entity_docs.len()
            invariant
                i <= entity_docs@.len(),
                entity_models == array_model(entity_docs@),
                doc@.field("entities"@) == Some(JsonModel::Array(entity_models)),
                doc@.field("relations"@) == Some(JsonModel::Array(relation_models)),
                entities@.len() == i,
                forall|j: int|
                    0 <= j < i ==> entity_of(#[trigger] entity_models[j]) == Some(entities@[j]@),
            decreases entity_docs@.len() - i,
        {
            assert(entity_models[i as int] == entity_docs@[i as int]@);
            match ExtractedEntityInfo::decode(&entity_docs[i]) {
                Some(entity) => {
                    entities.push(entity);
                },
                None => {
                    assert(entity_of(entity_models[i as int]) is None);
                    return None;
                },
            }
            i += 1;
        }
        let mut relations: Vec<ExtractedRelationInfo> = Vec::new();
        let mut k: usize = 0;
        while k < relation_docs.len()
            invariant
                k <= relation_docs@.len(),
                relation_models == array_model(relation_docs@),
                doc@.field("entities"@) == Some(JsonModel::Array(entity_models)),
                doc@.field("relations"@) == Some(JsonModel::Array(relation_models)),
                relations@.len() == k,
                forall|j: int|
                    0 <= j < k ==> relation_of(#[trigger] relation_models[j]) == Some(
                        relations@[j]@,
                    ),
            decreases relation_docs@.len() - k,
        {
            assert(relation_models[k as int] == relation_docs@[k as int]@);
            match ExtractedRelationInfo::decode(&relation_docs[k]) {
                Some(relation) => {
                    relations.push(relation);
                },
                None => {
                    assert(relation_of(relation_models[k as int]) is None);
                    return None;
                },
            }
            k += 1;
        }
        let output = LlmExtractionOutput { entities, relations };
        proof {
            let expected = output_of(doc@)->0;
            assert(output@.entities =~= expected.entities);
            assert(output@.relations =~= expected.relations);
        }
        Some(output)
    }
}

/// The prompt that is used where the context brings none. The text to read
/// takes the place of `{text_content}`.
pub const DEFAULT_PROMPT_TEMPLATE: &'static str = "Extract named entities and simple relationships from the following text.\n            Output MUST be a single JSON object with two keys: 'entities' and 'relations'.\n            'entities' is a list of objects, each with 'name' (string), 'entity_type' (e.g., Person, File, Tool, Concept, Organization), and optional 'properties' (object).\n            'relations' is a list of objects, each with 'source_entity_name', 'target_entity_name', 'relation_type' (e.g., Uses, Mentions, RelatedTo), and optional 'properties' (object).\n            Text to process:\n            ---\n            {text_content}\n            ---\n            JSON Output:";

/// What the prompt template calls the text to read.
pub const TEXT_PLACEHOLDER: &'static str = "{text_content}";

/// The template that a context asks for.
pub open spec fn template_of(context: ExtractionContext) -> Seq<char> {
    match context.extraction_prompt_template {
        Some(template) => template@,
        None => DEFAULT_PROMPT_TEMPLATE@,
    }
}

/// The prompt for a text: the context's template, or the default one, with the
/// text in the place of every `{text_content}`.
pub fn build_prompt(text_content: &str, context: &ExtractionContext) -> (r: String)
    ensures
        r@ == replaced(template_of(*context), TEXT_PLACEHOLDER@, text_content@),
{
    let template: &str = match &context.extraction_prompt_template {
        Some(template) => template.as_str(),
        None => DEFAULT_PROMPT_TEMPLATE,
    };
    replace_all(template, TEXT_PLACEHOLDER, text_content)
}

/// How the identity of an entity without one begins: a fixed prefix, the kind
/// of the entity in lowercase, and a colon.
pub open spec fn id_prefix(entity_type: Seq<char>) -> Seq<char> {
    "urn:goose:entity:"@ + lowercase_of(entity_type) + ":"@
}

/// Whether `id` is a synthesized identity for an entity of a kind: the prefix
/// for that kind, and then a random part of the usual length.
pub open spec fn is_synthesized_id(id: Seq<char>, entity_type: Seq<char>) -> bool {
    let prefix = id_prefix(entity_type);
    &&& id.len() == prefix.len() + RANDOM_ID_LEN
    &&& id.subrange(0, prefix.len() as int) == prefix
}

/// The identity of the node for an entity: its own where it brings one, else
/// one made of its kind and `random`.
pub open spec fn entity_id(entity: EntityModel, random: Seq<char>) -> Seq<char> {
    match entity.id {
        Some(id) => id,
        None => id_prefix(entity.entity_type) + random,
    }
}

/// The property document of the node for an entity: the name under `name`,
/// then the entity's own properties, which win where they name a key again.
pub open spec fn entity_properties(entity: EntityModel) -> JsonModel {
    let base = Map::<Seq<char>, JsonModel>::empty().insert(
        "name"@,
        JsonModel::String(entity.name),
    );
    match entity.properties {
        Some(extra) => JsonModel::Object(base.union_prefer_right(extra)),
        None => JsonModel::Object(base),
    }
}

/// The node kind for a free-text kind, whatever its case.
pub open spec fn node_type_of(entity_type: Seq<char>) -> NodeType {
    NodeType::for_lowercase_label(lowercase_of(entity_type))
}

/// The edge kind for a free-text kind, whatever its case.
pub open spec fn edge_type_of(relation_type: Seq<char>) -> EdgeType {
    EdgeType::for_lowercase_label(lowercase_of(relation_type))
}

/// The node for an entity, given the random part of a synthesized identity
/// and the time.
pub open spec fn entity_node(entity: EntityModel, random: Seq<char>, now: Timestamp) -> NodeModel {
    NodeModel {
        id: entity_id(entity, random),
        node_type: node_type_of(entity.entity_type),
        labels: seq![node_type_of(entity.entity_type).name_spec()],
        properties: entity_properties(entity),
        created_at: now,
        updated_at: now,
    }
}

/// The property document of the edge for a relation: its own properties, or
/// null where it brings none.
pub open spec fn relation_properties(relation: RelationModel) -> JsonModel {
    match relation.properties {
        Some(fields) => JsonModel::Object(fields),
        None => JsonModel::Null,
    }
}

/// The edge for a relation between two nodes, given its identity and the time.
pub open spec fn relation_edge(
    relation: RelationModel,
    source_node_id: Seq<char>,
    target_node_id: Seq<char>,
    id: Seq<char>,
    now: Timestamp,
) -> EdgeModel {
    EdgeModel {
        id,
        source_node_id,
        target_node_id,
        edge_type: edge_type_of(relation.relation_type),
        properties: relation_properties(relation),
        created_at: now,
        updated_at: now,
    }
}

/// Builds the node for an entity. `random` is used only where the entity
/// brings no identity of its own.
pub fn node_for_entity(entity: &ExtractedEntityInfo, random: &str, now: Timestamp) -> (r: Node)
    ensures
        r@ == entity_node(entity@, random@, now),
{
    let lowered = to_lowercase(entity.entity_type.as_str());
    let id = match &entity.id {
        Some(id) => id.clone(),
        None => {
            let mut id = owned("urn:goose:entity:");
            id.append(lowered.as_str());
            id.append(":");
            id.append(random);
            assert(id@ =~= id_prefix(entity.entity_type@) + random@);
            id
        },
    };
    let node_type = NodeType::from_lowercase_label(lowered.as_str());
    let mut properties = JsonObject::new();
    properties.insert(owned("name"), JsonValue::String(entity.name.clone()));
    match &entity.properties {
        Some(extra) => {
            properties.merge(extra);
        },
        None => {},
    }
    Node::new_at(id, node_type, JsonValue::Object(properties), now)
}

/// Builds the edge for a relation between two nodes.
pub fn edge_for_relation(
    relation: &ExtractedRelationInfo,
    source_node_id: &str,
    target_node_id: &str,
    id: String,
    now: Timestamp,
) -> (r: Edge)
    ensures
        r@ == relation_edge(relation@, source_node_id@, target_node_id@, id@, now),
{
    let lowered = to_lowercase(relation.relation_type.as_str());
    let edge_type = EdgeType::from_lowercase_label(lowered.as_str());
    let properties = match &relation.properties {
        Some(fields) => JsonValue::Object(fields.clone()),
        None => JsonValue::Null,
    };
    Edge::with_id_at(id, owned(source_node_id), owned(target_node_id), edge_type, properties, now)
}

/// What one reply yields: a node for each name that the entities bear, and an
/// edge for each relation between two such names.
#[derive(Debug)]
pub struct ExtractionBatch {
    /// The names of the entities, each once; `nodes` follows the same order.
    pub names: Vec<String>,
    pub nodes: Vec<Node>,
    pub edges: Vec<Edge>,
}

/// Whether `i` is the last place before `end` at which an entity bears `name`.
pub open spec fn is_last_named(
    entities: Seq<EntityModel>,
    name: Seq<char>,
    end: int,
    i: int,
) -> bool {
    &&& 0 <= i < end
    &&& entities[i].name == name
    &&& forall|j: int| i < j < end ==> entities[j].name != name
}

/// Whether `i` is the first place at which an entity bears `name`.
pub open spec fn is_first_named(entities: Seq<EntityModel>, name: Seq<char>, i: int) -> bool {
    &&& 0 <= i < entities.len()
    &&& entities[i].name == name
    &&& forall|j: int| 0 <= j < i ==> entities[j].name != name
}

/// Whether a node is the node for an entity, whatever the clock and the random
/// source gave when it was built.
pub open spec fn node_describes(node: NodeModel, entity: EntityModel) -> bool {
    &&& node.node_type == node_type_of(entity.entity_type)
    &&& node.labels == seq![node.node_type.name_spec()]
    &&& node.properties == entity_properties(entity)
    &&& node.created_at == node.updated_at
    &&& match entity.id {
        Some(id) => node.id == id,
        None => is_synthesized_id(node.id, entity.entity_type),
    }
}

/// Whether an edge is the edge for a relation between two nodes, whatever the
/// clock and the random source gave when it was built.
pub open spec fn edge_describes(
    edge: EdgeModel,
    relation: RelationModel,
    source_node_id: Seq<char>,
    target_node_id: Seq<char>,
) -> bool {
    &&& edge.id.len() == RANDOM_ID_LEN
    &&& edge.source_node_id == source_node_id
    &&& edge.target_node_id == target_node_id
    &&& edge.edge_type == edge_type_of(relation.relation_type)
    &&& edge.properties == relation_properties(relation)
    &&& edge.created_at == edge.updated_at
}

/// Whether both ends of a relation are among the names.
pub open spec fn resolves(names: Seq<Seq<char>>, relation: RelationModel) -> bool {
    names.contains(relation.source_entity_name) && names.contains(relation.target_entity_name)
}

/// The relations whose two ends are among the names, in their order. The
/// others are dropped.
pub open spec fn resolved(names: Seq<Seq<char>>, relations: Seq<RelationModel>) -> Seq<
    RelationModel,
>
    decreases relations.len(),
{
    if relations.len() == 0 {
        Seq::empty()
    } else {
        let earlier = resolved(names, relations.drop_last());
        if resolves(names, relations.last()) {
            earlier.push(relations.last())
        } else {
            earlier
        }
    }
}

/// The relations that resolve are those that pass the test, in their order:
/// none is added, none that passes is lost, and none is moved.
pub proof fn resolved_is_a_filter(names: Seq<Seq<char>>, relations: Seq<RelationModel>)
    ensures
        resolved(names, relations) == relations.filter(|r: RelationModel| resolves(names, r)),
        resolved(names, relations).len() <= relations.len(),
        forall|m: int|
            0 <= m < resolved(names, relations).len() ==> resolves(
                names,
                #[trigger] resolved(names, relations)[m],
            ) && relations.contains(resolved(names, relations)[m]),
        forall|i: int|
            0 <= i < relations.len() && resolves(names, relations[i]) ==> resolved(
                names,
                relations,
            ).contains(#[trigger] relations[i]),
    decreases relations.len(),
{
    let test = |r: RelationModel| resolves(names, r);
    reveal(Seq::filter);
    if relations.len() > 0 {
        let earlier = relations.drop_last();
        resolved_is_a_filter(names, earlier);
        assert(resolved(names, relations) == relations.filter(test));
        let kept = resolved(names, relations);
        let before = resolved(names, earlier);
        assert forall|m: int| 0 <= m < kept.len() implies resolves(names, #[trigger] kept[m])
            && relations.contains(kept[m]) by {
            if m < before.len() {
                assert(kept[m] == before[m]);
                assert(earlier.contains(before[m]));
                let i = choose|i: int| 0 <= i < earlier.len() && earlier[i] == before[m];
                assert(relations[i] == kept[m]);
            } else {
                assert(kept[m] == relations.last());
                assert(relations[relations.len() - 1] == kept[m]);
            }
        }
        assert forall|i: int|
            0 <= i < relations.len() && resolves(names, relations[i]) implies kept.contains(
            #[trigger] relations[i],
        ) by {
            if i < earlier.len() {
                assert(earlier[i] == relations[i]);
                assert(before.contains(earlier[i]));
                let m = choose|m: int| 0 <= m < before.len() && before[m] == earlier[i];
                assert(kept[m] == relations[i]);
            } else {
                assert(kept[kept.len() - 1] == relations[i]);
            }
        }
    } else {
        assert(resolved(names, relations) == relations.filter(test));
    }
}

/// Whether names and nodes are what the first `end` entities yield: each name
/// once, in the order in which the names first appear, and under each name the
/// node for the last entity that bears it.
pub open spec fn nodes_match(
    entities: Seq<EntityModel>,
    end: int,
    names: Seq<Seq<char>>,
    nodes: Seq<NodeModel>,
) -> bool {
    &&& distinct(names)
    &&& names.len() == nodes.len()
    &&& forall|name: Seq<char>|
        names.contains(name) <==> exists|i: int| 0 <= i < end && entities[i].name == name
    &&& forall|a: int, b: int, i: int, j: int|
        0 <= a < b < names.len() && #[trigger] is_first_named(entities, names[a], i)
            && #[trigger] is_first_named(entities, names[b], j) ==> i < j
    &&& forall|k: int, i: int|
        0 <= k < names.len() && is_last_named(entities, names[k], end, i) ==> node_describes(
            #[trigger] nodes[k],
            #[trigger] entities[i],
        )
}

/// Whether the edges are what the relations yield against the names: one for
/// each relation that resolves, in order, between the nodes that bear the two
/// names.
pub open spec fn edges_match(
    relations: Seq<RelationModel>,
    names: Seq<Seq<char>>,
    nodes: Seq<NodeModel>,
    edges: Seq<EdgeModel>,
) -> bool {
    let kept = resolved(names, relations);
    &&& edges.len() == kept.len()
    &&& forall|m: int|
        0 <= m < edges.len() ==> edge_describes(
            #[trigger] edges[m],
            kept[m],
            nodes[position_of(names, kept[m].source_entity_name)].id,
            nodes[position_of(names, kept[m].target_entity_name)].id,
        )
}

/// Whether some entity bears the name.
pub open spec fn borne(entities: Seq<EntityModel>, name: Seq<char>) -> bool {
    exists|i: int| 0 <= i < entities.len() && entities[i].name == name
}

/// Two tests that agree on every item keep the same items of a list.
proof fn lemma_filter_agrees<A>(items: Seq<A>, first: spec_fn(A) -> bool, second: spec_fn(A) -> bool)
    requires
        forall|x: A| #[trigger] first(x) == second(x),
    ensures
        items.filter(first) == items.filter(second),
    decreases items.len(),
{
    reveal(Seq::filter);
    if items.len() > 0 {
        lemma_filter_agrees(items.drop_last(), first, second);
    }
}

/// A batch has one edge for each relation between two names that entities of
/// the same reply bear, and for no other: a relation that names an entity which
/// the reply does not list is dropped, and nothing else is.
pub proof fn relations_to_unlisted_entities_are_dropped(batch: ExtractionBatch, output: OutputModel)
    requires
        batch.matches(output),
    ensures
        batch.edges@.len() == output.relations.filter(
            |r: RelationModel|
                borne(output.entities, r.source_entity_name) && borne(
                    output.entities,
                    r.target_entity_name,
                ),
        ).len(),
        batch.edges@.len() <= output.relations.len(),
{
    let names = batch.names.deep_view();
    resolved_is_a_filter(names, output.relations);
    assert forall|name: Seq<char>| names.contains(name) == borne(output.entities, name) by {
        if borne(output.entities, name) {
            let i = choose|i: int| 0 <= i < output.entities.len() && output.entities[i].name == name;
            assert(0 <= i < output.entities.len() as int && output.entities[i].name == name);
        }
    }
    lemma_filter_agrees(
        output.relations,
        |r: RelationModel| resolves(names, r),
        |r: RelationModel|
            borne(output.entities, r.source_entity_name) && borne(
                output.entities,
                r.target_entity_name,
            ),
    );
}

impl ExtractionBatch {
    /// Whether the batch is what a reply yields.
    pub open spec fn matches(&self, output: OutputModel) -> bool {
        &&& nodes_match(
            output.entities,
            output.entities.len() as int,
            self.names.deep_view(),
            self.nodes.deep_view(),
        )
        &&& edges_match(
            output.relations,
            self.names.deep_view(),
            self.nodes.deep_view(),
            self.edges.deep_view(),
        )
    }

    /// The batch in the shape of a list of nodes, each with edges: every node
    /// of the batch in its order, all the edges with the first node, none with
    /// the others. Nothing of the batch is left out: where there is no node,
    /// there is no edge either.
    pub open spec fn paired_spec(&self) -> Seq<(NodeModel, Seq<EdgeModel>)> {
        Seq::new(
            self.nodes@.len(),
            |k: int|
                (
                    self.nodes@[k]@,
                    if k == 0 {
                        self.edges.deep_view()
                    } else {
                        Seq::empty()
                    },
                ),
        )
    }

    /// The batch in the shape of a list of nodes, each with edges.
    pub fn into_pairs(self) -> (r: Vec<(Node, Vec<Edge>)>)
        ensures
            pairs_view(r@) == self.paired_spec(),
    {
        let ExtractionBatch { names, nodes, edges } = self;
        let ghost all_edges = edges.deep_view();
        let mut pairs: Vec<(Node, Vec<Edge>)> = Vec::new();
        if nodes.len() > 0 {
            pairs.push((nodes[0].clone(), edges));
        }
        let mut k: usize = pairs.len();
        while k < nodes.len()
            invariant
                k <= nodes@.len(),
                nodes@.len() > 0 ==> k >= 1,
                pairs@.len() == k,
                forall|j: int|
                    0 <= j < k ==> (#[trigger] pairs@[j]).0@ == nodes@[j]@ && pairs@[j].1.deep_view()
                        == (if j == 0 {
                        all_edges
                    } else {
                        Seq::<EdgeModel>::empty()
                    }),
            decreases nodes@.len() - k,
        {
            let none: Vec<Edge> = Vec::new();
            assert(none.deep_view() =~= Seq::<EdgeModel>::empty());
            pairs.push((nodes[k].clone(), none));
            k += 1;
        }
        assert(pairs_view(pairs@) =~= self.paired_spec());
        pairs
    }
}

/// Every edge of a batch starts and ends at a node of the same batch: whoever
/// inserts the nodes first can insert every edge.
pub proof fn edges_join_nodes_of_the_batch(batch: ExtractionBatch, output: OutputModel)
    requires
        batch.matches(output),
    ensures
        forall|m: int|
            0 <= m < batch.edges@.len() ==> (exists|a: int|
                0 <= a < batch.nodes@.len() && batch.nodes@[a].id@ == (
                #[trigger] batch.edges@[m]).source_node_id@) && (exists|b: int|
                0 <= b < batch.nodes@.len() && batch.nodes@[b].id@
                    == batch.edges@[m].target_node_id@),
{
    let names = batch.names.deep_view();
    let nodes = batch.nodes.deep_view();
    let edges = batch.edges.deep_view();
    let kept = resolved(names, output.relations);
    resolved_is_a_filter(names, output.relations);
    assert forall|m: int| 0 <= m < batch.edges@.len() implies (exists|a: int|
        0 <= a < batch.nodes@.len() && batch.nodes@[a].id@ == (
        #[trigger] batch.edges@[m]).source_node_id@) && (exists|b: int|
        0 <= b < batch.nodes@.len() && batch.nodes@[b].id@
            == batch.edges@[m].target_node_id@) by {
        assert(resolves(names, kept[m]));
        let a = position_of(names, kept[m].source_entity_name);
        let b = position_of(names, kept[m].target_entity_name);
        assert(0 <= a < names.len() && 0 <= b < names.len());
        assert(edge_describes(edges[m], kept[m], nodes[a].id, nodes[b].id));
        assert(edges[m] == batch.edges@[m]@);
        assert(nodes[a] == batch.nodes@[a]@);
        assert(nodes[b] == batch.nodes@[b]@);
        assert(batch.nodes@[a].id@ == batch.edges@[m].source_node_id@);
        assert(batch.nodes@[b].id@ == batch.edges@[m].target_node_id@);
    }
}

/// What a list of nodes, each with edges, is to a contract.
pub open spec fn pairs_view(pairs: Seq<(Node, Vec<Edge>)>) -> Seq<(NodeModel, Seq<EdgeModel>)> {
    Seq::new(pairs.len(), |k: int| (pairs[k].0@, pairs[k].1.deep_view()))
}

/// The names that the entities bear.
pub open spec fn names_borne(entities: Seq<EntityModel>) -> Set<Seq<char>> {
    Set::new(|name: Seq<char>| borne(entities, name))
}

/// A batch holds as many nodes as its reply's entities bear distinct names.
pub proof fn one_node_for_each_name(batch: ExtractionBatch, output: OutputModel)
    requires
        batch.matches(output),
    ensures
        names_borne(output.entities).finite(),
        batch.nodes@.len() == names_borne(output.entities).len(),
        batch.paired_spec().len() == names_borne(output.entities).len(),
{
    let names = batch.names.deep_view();
    assert forall|name: Seq<char>| names.contains(name) == borne(output.entities, name) by {
        if borne(output.entities, name) {
            let i = choose|i: int| 0 <= i < output.entities.len() && output.entities[i].name == name;
            assert(0 <= i < output.entities.len() as int && output.entities[i].name == name);
        }
    }
    assert(names.to_set() =~= names_borne(output.entities));
    assert(names.no_duplicates()) by {
        assert forall|i: int, j: int|
            0 <= i < names.len() && 0 <= j < names.len() && i != j implies names[i]
            != names[j] by {
            if i < j {
                assert(names[i] != names[j]);
            } else {
                assert(names[j] != names[i]);
            }
        }
    }
    names.unique_seq_to_set();
    vstd::seq_lib::seq_to_set_is_finite(names);
}

/// Whether a table from names to places says of each name of the list where it
/// stands, and holds no other name.
pub open spec fn places_of(table: Map<Seq<char>, usize>, names: Seq<Seq<char>>) -> bool {
    &&& forall|name: Seq<char>| table.contains_key(name) <==> names.contains(name)
    &&& forall|k: int|
        0 <= k < names.len() ==> table.contains_key(#[trigger] names[k]) && table[names[k]] == k
}

/// Where `name` stands among the names, by the table of places.
fn place_of(table: &StringHashMap<usize>, names: &Vec<String>, name: &str) -> (r: Option<usize>)
    requires
        places_of(table@, names.deep_view()),
    ensures
        match r {
            Some(p) => p < names@.len() && names@[p as int]@ == name@,
            None => !names.deep_view().contains(name@),
        },
{
    match table.get(name) {
        Some(p) => {
            proof {
                assert(table@.contains_key(name@));
                assert(names.deep_view().contains(name@));
                let k = choose|k: int|
                    0 <= k < names.deep_view().len() && names.deep_view()[k] == name@;
                assert(table@[names.deep_view()[k]] == k);
            }
            Some(*p)
        },
        None => None,
    }
}

/// Turns a reply into nodes and edges. Later entities of a name replace
/// earlier ones; a relation to or from a name that no entity bears is left out.
/// Identities that have to be made up come from the random source, and every
/// node and edge is stamped by the clock: the contract holds whatever they give.
pub fn assemble(output: &LlmExtractionOutput) -> (batch: ExtractionBatch)
    ensures
        batch.matches(output@),
{
    let ghost entities = output.entities.deep_view();
    let ghost relations = output.relations.deep_view();
    let mut names: Vec<String> = Vec::new();
    let mut nodes: Vec<Node> = Vec::new();
    let mut places: StringHashMap<usize> = StringHashMap::new();
    assert forall|name: Seq<char>| !names.deep_view().contains(name) by {}
    let mut i: usize = 0;
    while i < output.entities.len()
        invariant
            i <= output.entities@.len(),
            entities == output.entities.deep_view(),
            places_of(places@, names.deep_view()),
            nodes_match(entities, i as int, names.deep_view(), nodes.deep_view()),
        decreases output.entities@.len() - i,
    {
        let entity = &output.entities[i];
        let ghost old_names = names.deep_view();
        let ghost old_nodes = nodes.deep_view();
        let ghost name = entity.name@;
        assert(entities[i as int] == entity@);
        let random = match entity.id {
            Some(_) => String::new(),
            None => random_id(),
        };
        let node = node_for_entity(entity, random.as_str(), Timestamp::now());
        proof {
            let prefix = id_prefix(entity@.entity_type);
            if entity@.id is None {
                assert(node@.id == prefix + random@);
                assert(node@.id.subrange(0, prefix.len() as int) =~= prefix);
            }
            assert(node_describes(node@, entity@));
        }
        match place_of(&places, &names, entity.name.as_str()) {
            Some(p) => {
                nodes.set(p, node);
                proof {
                    let new_nodes = nodes.deep_view();
                    assert(new_nodes =~= old_nodes.update(p as int, node@));
                    assert forall|other: Seq<char>|
                        old_names.contains(other) <==> exists|j: int|
                            0 <= j < i + 1 && entities[j].name == other by {
                        if exists|j: int| 0 <= j < i + 1 && entities[j].name == other {
                            let j = choose|j: int| 0 <= j < i + 1 && entities[j].name == other;
                            if j == i {
                                assert(old_names[p as int] == other);
                            } else {
                                assert(0 <= j < i && entities[j].name == other);
                            }
                        }
                        if old_names.contains(other) {
                            let j = choose|j: int| 0 <= j < i && entities[j].name == other;
                            assert(0 <= j < i + 1 && entities[j].name == other);
                        }
                    }
                    assert forall|k: int, j: int|
                        0 <= k < old_names.len() && is_last_named(
                            entities,
                            old_names[k],
                            i + 1,
                            j,
                        ) implies node_describes(#[trigger] new_nodes[k], #[trigger] entities[j]) by {
                        if k == p {
                            assert(j == i);
                        } else {
                            assert(old_names[k] != old_names[p as int]);
                            assert(is_last_named(entities, old_names[k], i as int, j));
                            assert(node_describes(old_nodes[k], entities[j]));
                        }
                    }
                }
            },
            None => {
                let ghost old_places = places@;
                places.insert(entity.name.clone(), names.len());
                names.push(entity.name.clone());
                nodes.push(node);
                proof {
                    let new_names = names.deep_view();
                    let new_nodes = nodes.deep_view();
                    let last = old_names.len() as int;
                    assert(new_names =~= old_names.push(name));
                    assert(new_nodes =~= old_nodes.push(node@));
                    assert forall|k: int| 0 <= k < new_names.len() implies places@.contains_key(
                        #[trigger] new_names[k],
                    ) && places@[new_names[k]] == k by {
                        if k < last {
                            assert(old_names.contains(old_names[k]));
                            assert(old_places[old_names[k]] == k);
                        }
                    }
                    assert forall|other: Seq<char>|
                        places@.contains_key(other) <==> new_names.contains(other) by {
                        if other == name {
                            assert(new_names[last] == other);
                        } else {
                            if old_names.contains(other) {
                                let k = choose|k: int|
                                    0 <= k < old_names.len() && old_names[k] == other;
                                assert(new_names[k] == other);
                            }
                            if new_names.contains(other) {
                                let k = choose|k: int|
                                    0 <= k < new_names.len() && new_names[k] == other;
                                assert(old_names[k] == other);
                            }
                        }
                    }
                    assert forall|a: int, b: int|
                        0 <= a < b < new_names.len() implies new_names[a] != new_names[b] by {
                        if b == last {
                            assert(old_names.contains(old_names[a]));
                        } else {
                            assert(old_names[a] != old_names[b]);
                        }
                    }
                    assert forall|other: Seq<char>|
                        new_names.contains(other) <==> exists|j: int|
                            0 <= j < i + 1 && entities[j].name == other by {
                        if exists|j: int| 0 <= j < i + 1 && entities[j].name == other {
                            let j = choose|j: int| 0 <= j < i + 1 && entities[j].name == other;
                            if j == i {
                                assert(new_names[last] == other);
                            } else {
                                assert(0 <= j < i && entities[j].name == other);
                                assert(old_names.contains(other));
                                let k = choose|k: int|
                                    0 <= k < old_names.len() && old_names[k] == other;
                                assert(new_names[k] == other);
                            }
                        }
                        if new_names.contains(other) {
                            let k = choose|k: int|
                                0 <= k < new_names.len() && new_names[k] == other;
                            if k == last {
                                assert(0 <= i < i + 1 && entities[i as int].name == other);
                            } else {
                                assert(old_names[k] == other);
                                assert(old_names.contains(other));
                                let j = choose|j: int| 0 <= j < i && entities[j].name == other;
                                assert(0 <= j < i + 1 && entities[j].name == other);
                            }
                        }
                    }
                    assert forall|a: int, b: int, x: int, y: int|
                        0 <= a < b < new_names.len() && #[trigger] is_first_named(
                            entities,
                            new_names[a],
                            x,
                        ) && #[trigger] is_first_named(entities, new_names[b], y) implies x < y by {
                        if b == last {
                            assert(old_names.contains(old_names[a]));
                            let z = choose|z: int| 0 <= z < i && entities[z].name == old_names[a];
                            assert(x <= z);
                            if y < i {
                                assert(0 <= y < i && entities[y].name == name);
                                assert(old_names.contains(name));
                            }
                        } else {
                            assert(is_first_named(entities, old_names[a], x));
                            assert(is_first_named(entities, old_names[b], y));
                        }
                    }
                    assert forall|k: int, j: int|
                        0 <= k < new_names.len() && is_last_named(
                            entities,
                            new_names[k],
                            i + 1,
                            j,
                        ) implies node_describes(#[trigger] new_nodes[k], #[trigger] entities[j]) by {
                        if k == last {
                            if j < i {
                                assert(0 <= j < i && entities[j].name == name);
                                assert(old_names.contains(name));
                            }
                        } else {
                            assert(old_names.contains(old_names[k]));
                            assert(new_names[k] != name);
                            assert(is_last_named(entities, old_names[k], i as int, j));
                            assert(node_describes(old_nodes[k], entities[j]));
                        }
                    }
                }
            },
        }
        i += 1;
    }
    let ghost all_names = names.deep_view();
    let ghost all_nodes = nodes.deep_view();
    let mut edges: Vec<Edge> = Vec::new();
    let mut m: usize = 0;
    while m < output.relations.len()
        invariant
            m <= output.relations@.len(),
            relations == output.relations.deep_view(),
            all_names == names.deep_view(),
            all_nodes == nodes.deep_view(),
            places_of(places@, all_names),
            distinct(all_names),
            names@.len() == nodes@.len(),
            edges_match(relations.take(m as int), all_names, all_nodes, edges.deep_view()),
        decreases output.relations@.len() - m,
    {
        let relation = &output.relations[m];
        let ghost old_edges = edges.deep_view();
        let ghost before = relations.take(m as int);
        let ghost after = relations.take(m + 1);
        proof {
            assert(after.drop_last() =~= before);
            assert(after.last() == relation@);
        }
        let source = place_of(&places, &names, relation.source_entity_name.as_str());
        let target = place_of(&places, &names, relation.target_entity_name.as_str());
        match (source, target) {
            (Some(s), Some(t)) => {
                proof {
                    assert(all_names[s as int] == relation@.source_entity_name);
                    assert(all_names[t as int] == relation@.target_entity_name);
                    lemma_position_of(all_names, s as int);
                    lemma_position_of(all_names, t as int);
                    assert(resolves(all_names, relation@));
                }
                let edge = edge_for_relation(
                    relation,
                    nodes[s].id.as_str(),
                    nodes[t].id.as_str(),
                    random_id(),
                    Timestamp::now(),
                );
                edges.push(edge);
                proof {
                    let new_edges = edges.deep_view();
                    assert(new_edges =~= old_edges.push(edge@));
                    assert(resolved(all_names, after) == resolved(all_names, before).push(
                        relation@,
                    ));
                    assert(all_nodes[s as int].id == nodes@[s as int].id@);
                    assert(all_nodes[t as int].id == nodes@[t as int].id@);
                }
            },
            _ => {
                proof {
                    if source is None {
                        assert(!all_names.contains(relation@.source_entity_name));
                    } else {
                        assert(!all_names.contains(relation@.target_entity_name));
                    }
                    assert(!resolves(all_names, relation@));
                    assert(resolved(all_names, after) == resolved(all_names, before));
                }
            },
        }
        m += 1;
    }
    proof {
        assert(relations.take(relations.len() as int) =~= relations);
    }
    ExtractionBatch { names, nodes, edges }
}

/// Reads a collaborator's reply and turns it into nodes and edges.
/// `ParseFailure` exactly where the text is no JSON document, or the document
/// is no reply.
pub fn interpret_response(response_text: &str) -> (r: Result<ExtractionBatch, KbError>)
    ensures
        match parsed(response_text@) {
            Some(doc) => match output_of(doc) {
                Some(output) => r matches Ok(batch) && batch.matches(output),
                None => r matches Err(e) && e == KbError::ParseFailure,
            },
            None => r matches Err(e) && e == KbError::ParseFailure,
        },
{
    let doc = match JsonValue::parse(response_text) {
        Some(doc) => doc,
        None => {
            return Err(KbError::ParseFailure);
        },
    };
    match LlmExtractionOutput::decode(&doc) {
        Some(output) => Ok(assemble(&output)),
        None => Err(KbError::ParseFailure),
    }
}

/// Whether `result` is what an extraction returns for an outcome of the
/// collaborator's call: `UpstreamFailure` where the call failed,
/// `ParseFailure` where the reply is no JSON document or the document is no
/// reply, and else what the reply yields, in the shape of a list of nodes, each
/// with edges: one node for each distinct name, and every edge.
pub open spec fn extraction_outcome(
    reply: Result<String, String>,
    result: Result<Vec<(Node, Vec<Edge>)>, KbError>,
) -> bool {
    match reply {
        Err(_) => result matches Err(e) && e == KbError::UpstreamFailure,
        Ok(text) => match parsed(text@) {
            Some(doc) => match output_of(doc) {
                Some(output) => result matches Ok(pairs) && pairs@.len() == names_borne(
                    output.entities,
                ).len() && exists|batch: ExtractionBatch|
                    {
                        &&& #[trigger] batch.matches(output)
                        &&& pairs_view(pairs@) == batch.paired_spec()
                    },
                None => result matches Err(e) && e == KbError::ParseFailure,
            },
            None => result matches Err(e) && e == KbError::ParseFailure,
        },
    }
}

/// What an extraction returns for each outcome of the collaborator's call:
/// `UpstreamFailure` where the call failed, and else what the reply yields, in
/// the shape of a list of nodes, each with edges.
pub fn extraction_from_reply(reply: Result<String, String>) -> (r: Result<
    Vec<(Node, Vec<Edge>)>,
    KbError,
>)
    ensures
        extraction_outcome(reply, r),
{
    match reply {
        Err(_) => Err(KbError::UpstreamFailure),
        Ok(text) => match interpret_response(text.as_str()) {
            Ok(batch) => {
                let ghost witness = batch;
                let pairs = batch.into_pairs();
                proof {
                    let output = output_of(parsed(text@)->0)->0;
                    assert(witness.matches(output));
                    one_node_for_each_name(witness, output);
                    assert(pairs_view(pairs@).len() == pairs@.len());
                }
                Ok(pairs)
            },
            Err(e) => Err(e),
        },
    }
}

/// The text-generation collaborator: given a prompt, with no earlier messages
/// and no tools, it answers with a text or fails with a message.
pub trait Provider {
    /// Whether the collaborator may give `reply` when asked with `prompt`.
    /// Each collaborator may say for itself what it answers; one that does not
    /// may answer anything.
    open spec fn may_reply(&self, prompt: Seq<char>, reply: Result<String, String>) -> bool {
        true
    }

    /// Asks the collaborator. The contract only gives the outcome a name: it
    /// is one that the collaborator may give to this prompt.
    fn complete(&self, system_prompt: &str) -> (reply: Result<String, String>)
        ensures
            self.may_reply(system_prompt@, reply),
    ;
}

/// Whether every pair of a list but the first is without edges.
pub open spec fn edges_stand_first(pairs: Seq<(Node, Vec<Edge>)>) -> bool {
    forall|k: int| 0 < k < pairs.len() ==> (#[trigger] pairs[k]).1@.len() == 0
}

/// What turns a text into nodes and edges.
pub trait KnowledgeExtractionServiceProvider {
    /// Extracts from a text. The result is a list of nodes, each with edges:
    /// every node that was found, and every edge with the first of them. A
    /// failure is `UpstreamFailure`, where the collaborator failed, or
    /// `ParseFailure`, where its reply could not be read.
    fn extract_from_text(&self, text_content: &str, context: &ExtractionContext) -> (r: Result<
        Vec<(Node, Vec<Edge>)>,
        KbError,
    >)
        ensures
            r matches Err(e) ==> e == KbError::UpstreamFailure || e == KbError::ParseFailure,
            r matches Ok(pairs) ==> edges_stand_first(pairs@),
    ;
}

/// An extractor that asks a text-generation collaborator.
pub struct LlmKnowledgeExtractor<P: Provider> {
    llm_provider: P,
}

impl<P: Provider> LlmKnowledgeExtractor<P> {
    /// The collaborator that the extractor asks.
    pub closed spec fn provider(&self) -> P {
        self.llm_provider
    }

    /// An extractor that asks `llm_provider`.
    pub fn new(llm_provider: P) -> (r: Self)
        ensures
            r.provider() == llm_provider,
    {
        LlmKnowledgeExtractor { llm_provider }
    }

    /// The node kind for a free-text kind, whatever its case; `Generic` where
    /// the table does not hold it.
    pub fn map_str_to_nodetype(s: &str) -> (r: NodeType)
        ensures
            r == node_type_of(s@),
    {
        let lowered = to_lowercase(s);
        NodeType::from_lowercase_label(lowered.as_str())
    }

    /// The edge kind for a free-text kind, whatever its case; `RelatedTo`
    /// where the table does not hold it.
    pub fn map_str_to_edgetype(s: &str) -> (r: EdgeType)
        ensures
            r == edge_type_of(s@),
    {
        let lowered = to_lowercase(s);
        EdgeType::from_lowercase_label(lowered.as_str())
    }
}

impl<P: Provider> KnowledgeExtractionServiceProvider for LlmKnowledgeExtractor<P> {
    /// Builds the prompt, asks the collaborator once, and returns what
    /// [`extraction_from_reply`] makes of the outcome: the collaborator was
    /// asked with the context's template, or the default one, holding the text,
    /// and the result is the extraction from a reply that it gave to exactly
    /// that prompt: on success one node for each distinct name among the
    /// reply's entities, and every edge, all of them with the first node.
    fn extract_from_text(&self, text_content: &str, context: &ExtractionContext) -> (r: Result<
        Vec<(Node, Vec<Edge>)>,
        KbError,
    >)
        ensures
            exists|reply: Result<String, String>|
                #[trigger] self.provider().may_reply(
                    replaced(template_of(*context), TEXT_PLACEHOLDER@, text_content@),
                    reply,
                ) && extraction_outcome(reply, r),
    {
        let prompt = build_prompt(text_content, context);
        let reply = self.llm_provider.complete(prompt.as_str());
        let ghost given = reply;
        let r = extraction_from_reply(reply);
        proof {
            assert(self.provider().may_reply(
                replaced(template_of(*context), TEXT_PLACEHOLDER@, text_content@),
                given,
            ) && extraction_outcome(given, r));
            if r is Ok {
                let pairs = r->Ok_0;
                let output = output_of(parsed(given->Ok_0@)->0)->0;
                let batch = choose|batch: ExtractionBatch|
                    #[trigger] batch.matches(output) && pairs_view(pairs@) == batch.paired_spec();
                assert forall|k: int| 0 < k < pairs@.len() implies (#[trigger] pairs@[k]).1@.len()
                    == 0 by {
                    assert(pairs_view(pairs@).len() == pairs@.len());
                    assert(pairs_view(pairs@)[k].1 == batch.paired_spec()[k].1);
                    assert(pairs@[k].1.deep_view().len() == pairs@[k].1@.len());
                }
            }
        }
        r
    }
}

} // verus!
