use goose_kb::extraction::{LlmKnowledgeExtractor, Provider};
use goose_kb::taxonomy::{EdgeType, NodeType};

struct Silent;

impl Provider for Silent {
    fn complete(&self, _system_prompt: &str) -> Result<String, String> {
        Err("silent".to_string())
    }
}

fn node_type(s: &str) -> NodeType {
    LlmKnowledgeExtractor::<Silent>::map_str_to_nodetype(s)
}

fn edge_type(s: &str) -> EdgeType {
    LlmKnowledgeExtractor::<Silent>::map_str_to_edgetype(s)
}

#[test]
fn node_table_rows() {
    assert_eq!(node_type("person"), NodeType::ExternalEntity);
    assert_eq!(node_type("people"), NodeType::ExternalEntity);
    assert_eq!(node_type("organization"), NodeType::ExternalEntity);
    assert_eq!(node_type("org"), NodeType::ExternalEntity);
    assert_eq!(node_type("location"), NodeType::ExternalEntity);
    assert_eq!(node_type("place"), NodeType::ExternalEntity);
    assert_eq!(node_type("file"), NodeType::File);
    assert_eq!(node_type("tool"), NodeType::Tool);
    assert_eq!(node_type("concept"), NodeType::Concept);
    assert_eq!(node_type("task"), NodeType::Plan);
}

#[test]
fn node_lookup_ignores_case() {
    assert_eq!(node_type("Person"), NodeType::ExternalEntity);
    assert_eq!(node_type("PERSON"), NodeType::ExternalEntity);
    assert_eq!(node_type("ToOl"), NodeType::Tool);
    assert_eq!(node_type("FILE"), NodeType::File);
    assert_eq!(node_type("Concept"), NodeType::Concept);
    assert_eq!(node_type("Task"), NodeType::Plan);
    assert_eq!(node_type("Organization"), NodeType::ExternalEntity);
    assert_eq!(node_type("TAS\u{212A}"), NodeType::Plan);
}

#[test]
fn unknown_node_label_is_generic() {
    assert_eq!(node_type(""), NodeType::Generic);
    assert_eq!(node_type("robot"), NodeType::Generic);
    assert_eq!(node_type(" person"), NodeType::Generic);
    assert_eq!(node_type("person "), NodeType::Generic);
    assert_eq!(node_type("persons"), NodeType::Generic);
    assert_eq!(node_type("agent"), NodeType::Generic);
    assert_eq!(node_type("Generic"), NodeType::Generic);
}

#[test]
fn edge_table_rows() {
    assert_eq!(edge_type("uses"), EdgeType::UsesTool);
    assert_eq!(edge_type("employs"), EdgeType::UsesTool);
    assert_eq!(edge_type("utilizes"), EdgeType::UsesTool);
    assert_eq!(edge_type("mentions"), EdgeType::Mentions);
    assert_eq!(edge_type("refers_to"), EdgeType::Mentions);
    assert_eq!(edge_type("discusses"), EdgeType::Mentions);
    assert_eq!(edge_type("related_to"), EdgeType::RelatedTo);
    assert_eq!(edge_type("associated_with"), EdgeType::RelatedTo);
    assert_eq!(edge_type("works_on"), EdgeType::ReferencesFile);
    assert_eq!(edge_type("modifies"), EdgeType::ReferencesFile);
    assert_eq!(edge_type("is_a"), EdgeType::InstanceOf);
    assert_eq!(edge_type("instance_of"), EdgeType::InstanceOf);
}

#[test]
fn edge_lookup_ignores_case() {
    assert_eq!(edge_type("Uses"), EdgeType::UsesTool);
    assert_eq!(edge_type("USES"), EdgeType::UsesTool);
    assert_eq!(edge_type("Mentions"), EdgeType::Mentions);
    assert_eq!(edge_type("Is_A"), EdgeType::InstanceOf);
    assert_eq!(edge_type("Works_On"), EdgeType::ReferencesFile);
}

#[test]
fn unknown_edge_label_is_related_to() {
    assert_eq!(edge_type(""), EdgeType::RelatedTo);
    assert_eq!(edge_type("UsesTool"), EdgeType::RelatedTo);
    assert_eq!(edge_type("RelatedTo"), EdgeType::RelatedTo);
    assert_eq!(edge_type("likes"), EdgeType::RelatedTo);
    assert_eq!(edge_type("uses "), EdgeType::RelatedTo);
}

#[test]
fn lookup_of_lowercase_labels_does_not_fold_case() {
    assert_eq!(NodeType::from_lowercase_label("tool"), NodeType::Tool);
    assert_eq!(NodeType::from_lowercase_label("Tool"), NodeType::Generic);
    assert_eq!(EdgeType::from_lowercase_label("uses"), EdgeType::UsesTool);
    assert_eq!(EdgeType::from_lowercase_label("Uses"), EdgeType::RelatedTo);
}

#[test]
fn kinds_have_their_names() {
    assert_eq!(NodeType::Agent.name(), "Agent");
    assert_eq!(NodeType::User.name(), "User");
    assert_eq!(NodeType::Session.name(), "Session");
    assert_eq!(NodeType::Tool.name(), "Tool");
    assert_eq!(NodeType::ToolCall.name(), "ToolCall");
    assert_eq!(NodeType::ReasoningTrace.name(), "ReasoningTrace");
    assert_eq!(NodeType::Feedback.name(), "Feedback");
    assert_eq!(NodeType::File.name(), "File");
    assert_eq!(NodeType::WebResource.name(), "WebResource");
    assert_eq!(NodeType::Directory.name(), "Directory");
    assert_eq!(NodeType::Message.name(), "Message");
    assert_eq!(NodeType::Concept.name(), "Concept");
    assert_eq!(NodeType::Skill.name(), "Skill");
    assert_eq!(NodeType::Plan.name(), "Plan");
    assert_eq!(NodeType::PlanStep.name(), "PlanStep");
    assert_eq!(NodeType::ExternalEntity.name(), "ExternalEntity");
    assert_eq!(NodeType::SoftwarePackage.name(), "SoftwarePackage");
    assert_eq!(NodeType::ApiEndpoint.name(), "ApiEndpoint");
    assert_eq!(NodeType::Generic.name(), "Generic");
    assert_eq!(EdgeType::Initiated.name(), "Initiated");
    assert_eq!(EdgeType::UsesTool.name(), "UsesTool");
    assert_eq!(EdgeType::RelatedTo.name(), "RelatedTo");
    assert_eq!(EdgeType::ParentDirectory.name(), "ParentDirectory");
    assert_eq!(EdgeType::HasKnowledgeAbout.name(), "HasKnowledgeAbout");
}

#[test]
fn names_match_the_debug_form() {
    for t in [
        NodeType::Agent,
        NodeType::ToolCall,
        NodeType::ExternalEntity,
        NodeType::ApiEndpoint,
        NodeType::Generic,
    ] {
        assert_eq!(t.name(), format!("{:?}", t));
    }
    for t in [
        EdgeType::Initiated,
        EdgeType::BelongsToSession,
        EdgeType::ExecutedByUser,
        EdgeType::ExecutedByAgent,
        EdgeType::PartOfPlan,
        EdgeType::NextStep,
        EdgeType::Triggers,
        EdgeType::HasCapability,
        EdgeType::UsesTool,
        EdgeType::RecommendsTool,
        EdgeType::Mentions,
        EdgeType::ReferencesFile,
        EdgeType::ReferencesResource,
        EdgeType::OutputFile,
        EdgeType::InputTo,
        EdgeType::OutputFrom,
        EdgeType::HasKnowledgeAbout,
        EdgeType::LearnedFrom,
        EdgeType::RelatedTo,
        EdgeType::InstanceOf,
        EdgeType::SubConceptOf,
        EdgeType::ProvidesFeedbackOn,
        EdgeType::AssociatedWith,
        EdgeType::ContainsFile,
        EdgeType::ParentDirectory,
    ] {
        assert_eq!(t.name(), format!("{:?}", t));
    }
}
