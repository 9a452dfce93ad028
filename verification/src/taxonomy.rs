//! The closed sets of node kinds and edge kinds, and the fixed tables that map
//! free-text labels into them.

use vstd::prelude::*;
use crate::text::str_eq;

verus! {

/// The kind of a node.
#[derive(Clone, Copy, Debug, PartialEq, Eq, Structural, Hash)]
pub enum NodeType {
    Agent,
    User,
    Session,
    /// The definition of a tool.
    Tool,
    /// One call of a tool.
    ToolCall,
    ReasoningTrace,
    Feedback,
    File,
    WebResource,
    Directory,
    /// One message of a session.
    Message,
    Concept,
    Skill,
    Plan,
    PlanStep,
    /// A named entity of the outside world: a person, a company, a place.
    ExternalEntity,
    SoftwarePackage,
    ApiEndpoint,
    /// The catch-all kind.
    Generic,
}

/// The kind of an edge.
#[derive(Clone, Copy, Debug, PartialEq, Eq, Structural, Hash)]
pub enum EdgeType {
    Initiated,
    BelongsToSession,
    ExecutedByUser,
    ExecutedByAgent,
    PartOfPlan,
    NextStep,
    Triggers,
    HasCapability,
    UsesTool,
    RecommendsTool,
    Mentions,
    ReferencesFile,
    ReferencesResource,
    OutputFile,
    InputTo,
    OutputFrom,
    HasKnowledgeAbout,
    LearnedFrom,
    /// The generic relation.
    RelatedTo,
    InstanceOf,
    SubConceptOf,
    ProvidesFeedbackOn,
    AssociatedWith,
    ContainsFile,
    ParentDirectory,
}

impl NodeType {
    /// The name of the kind, which is also a node's default label.
    pub open spec fn name_spec(self) -> Seq<char> {
        match self {
            NodeType::Agent => "Agent"@,
            NodeType::User => "User"@,
            NodeType::Session => "Session"@,
            NodeType::Tool => "Tool"@,
            NodeType::ToolCall => "ToolCall"@,
            NodeType::ReasoningTrace => "ReasoningTrace"@,
            NodeType::Feedback => "Feedback"@,
            NodeType::File => "File"@,
            NodeType::WebResource => "WebResource"@,
            NodeType::Directory => "Directory"@,
            NodeType::Message => "Message"@,
            NodeType::Concept => "Concept"@,
            NodeType::Skill => "Skill"@,
            NodeType::Plan => "Plan"@,
            NodeType::PlanStep => "PlanStep"@,
            NodeType::ExternalEntity => "ExternalEntity"@,
            NodeType::SoftwarePackage => "SoftwarePackage"@,
            NodeType::ApiEndpoint => "ApiEndpoint"@,
            NodeType::Generic => "Generic"@,
        }
    }

    /// The name of the kind.
    pub fn name(&self) -> (r: &'static str)
        ensures
            r@ == self.name_spec(),
    {
        match self {
            NodeType::Agent => "Agent",
            NodeType::User => "User",
            NodeType::Session => "Session",
            NodeType::Tool => "Tool",
            NodeType::ToolCall => "ToolCall",
            NodeType::ReasoningTrace => "ReasoningTrace",
            NodeType::Feedback => "Feedback",
            NodeType::File => "File",
            NodeType::WebResource => "WebResource",
            NodeType::Directory => "Directory",
            NodeType::Message => "Message",
            NodeType::Concept => "Concept",
            NodeType::Skill => "Skill",
            NodeType::Plan => "Plan",
            NodeType::PlanStep => "PlanStep",
            NodeType::ExternalEntity => "ExternalEntity",
            NodeType::SoftwarePackage => "SoftwarePackage",
            NodeType::ApiEndpoint => "ApiEndpoint",
            NodeType::Generic => "Generic",
        }
    }

    /// The node kind that the lookup table gives a label already in lowercase.
    /// A label that the table does not hold is `Generic`.
    pub open spec fn for_lowercase_label(label: Seq<char>) -> NodeType {
        if label == "person"@ || label == "people"@ {
            NodeType::ExternalEntity
        } else if label == "organization"@ || label == "org"@ {
            NodeType::ExternalEntity
        } else if label == "location"@ || label == "place"@ {
            NodeType::ExternalEntity
        } else if label == "file"@ {
            NodeType::File
        } else if label == "tool"@ {
            NodeType::Tool
        } else if label == "concept"@ {
            NodeType::Concept
        } else if label == "task"@ {
            NodeType::Plan
        } else {
            NodeType::Generic
        }
    }

    /// Looks a lowercase label up in the table of node kinds.
    pub fn from_lowercase_label(label: &str) -> (r: NodeType)
        ensures
            r == NodeType::for_lowercase_label(label@),
    {
        if str_eq(label, "person") || str_eq(label, "people") {
            NodeType::ExternalEntity
        } else if str_eq(label, "organization") || str_eq(label, "org") {
            NodeType::ExternalEntity
        } else if str_eq(label, "location") || str_eq(label, "place") {
            NodeType::ExternalEntity
        } else if str_eq(label, "file") {
            NodeType::File
        } else if str_eq(label, "tool") {
            NodeType::Tool
        } else if str_eq(label, "concept") {
            NodeType::Concept
        } else if str_eq(label, "task") {
            NodeType::Plan
        } else {
            NodeType::Generic
        }
    }
}

impl EdgeType {
    /// The name of the kind.
    pub open spec fn name_spec(self) -> Seq<char> {
        match self {
            EdgeType::Initiated => "Initiated"@,
            EdgeType::BelongsToSession => "BelongsToSession"@,
            EdgeType::ExecutedByUser => "ExecutedByUser"@,
            EdgeType::ExecutedByAgent => "ExecutedByAgent"@,
            EdgeType::PartOfPlan => "PartOfPlan"@,
            EdgeType::NextStep => "NextStep"@,
            EdgeType::Triggers => "Triggers"@,
            EdgeType::HasCapability => "HasCapability"@,
            EdgeType::UsesTool => "UsesTool"@,
            EdgeType::RecommendsTool => "RecommendsTool"@,
            EdgeType::Mentions => "Mentions"@,
            EdgeType::ReferencesFile => "ReferencesFile"@,
            EdgeType::ReferencesResource => "ReferencesResource"@,
            EdgeType::OutputFile => "OutputFile"@,
            EdgeType::InputTo => "InputTo"@,
            EdgeType::OutputFrom => "OutputFrom"@,
            EdgeType::HasKnowledgeAbout => "HasKnowledgeAbout"@,
            EdgeType::LearnedFrom => "LearnedFrom"@,
            EdgeType::RelatedTo => "RelatedTo"@,
            EdgeType::InstanceOf => "InstanceOf"@,
            EdgeType::SubConceptOf => "SubConceptOf"@,
            EdgeType::ProvidesFeedbackOn => "ProvidesFeedbackOn"@,
            EdgeType::AssociatedWith => "AssociatedWith"@,
            EdgeType::ContainsFile => "ContainsFile"@,
            EdgeType::ParentDirectory => "ParentDirectory"@,
        }
    }

    /// The name of the kind.
    pub fn name(&self) -> (r: &'static str)
        ensures
            r@ == self.name_spec(),
    {
        match self {
            EdgeType::Initiated => "Initiated",
            EdgeType::BelongsToSession => "BelongsToSession",
            EdgeType::ExecutedByUser => "ExecutedByUser",
            EdgeType::ExecutedByAgent => "ExecutedByAgent",
            EdgeType::PartOfPlan => "PartOfPlan",
            EdgeType::NextStep => "NextStep",
            EdgeType::Triggers => "Triggers",
            EdgeType::HasCapability => "HasCapability",
            EdgeType::UsesTool => "UsesTool",
            EdgeType::RecommendsTool => "RecommendsTool",
            EdgeType::Mentions => "Mentions",
            EdgeType::ReferencesFile => "ReferencesFile",
            EdgeType::ReferencesResource => "ReferencesResource",
            EdgeType::OutputFile => "OutputFile",
            EdgeType::InputTo => "InputTo",
            EdgeType::OutputFrom => "OutputFrom",
            EdgeType::HasKnowledgeAbout => "HasKnowledgeAbout",
            EdgeType::LearnedFrom => "LearnedFrom",
            EdgeType::RelatedTo => "RelatedTo",
            EdgeType::InstanceOf => "InstanceOf",
            EdgeType::SubConceptOf => "SubConceptOf",
            EdgeType::ProvidesFeedbackOn => "ProvidesFeedbackOn",
            EdgeType::AssociatedWith => "AssociatedWith",
            EdgeType::ContainsFile => "ContainsFile",
            EdgeType::ParentDirectory => "ParentDirectory",
        }
    }

    /// The edge kind that the lookup table gives a label already in lowercase.
    /// A label that the table does not hold is `RelatedTo`.
    pub open spec fn for_lowercase_label(label: Seq<char>) -> EdgeType {
        if label == "uses"@ || label == "employs"@ || label == "utilizes"@ {
            EdgeType::UsesTool
        } else if label == "mentions"@ || label == "refers_to"@ || label == "discusses"@ {
            EdgeType::Mentions
        } else if label == "related_to"@ || label == "associated_with"@ {
            EdgeType::RelatedTo
        } else if label == "works_on"@ || label == "modifies"@ {
            EdgeType::ReferencesFile
        } else if label == "is_a"@ || label == "instance_of"@ {
            EdgeType::InstanceOf
        } else {
            EdgeType::RelatedTo
        }
    }

    /// Looks a lowercase label up in the table of edge kinds.
    pub fn from_lowercase_label(label: &str) -> (r: EdgeType)
        ensures
            r == EdgeType::for_lowercase_label(label@),
    {
        if str_eq(label, "uses") || str_eq(label, "employs") || str_eq(label, "utilizes") {
            EdgeType::UsesTool
        } else if str_eq(label, "mentions") || str_eq(label, "refers_to") || str_eq(
            label,
            "discusses",
        ) {
            EdgeType::Mentions
        } else if str_eq(label, "related_to") || str_eq(label, "associated_with") {
            EdgeType::RelatedTo
        } else if str_eq(label, "works_on") || str_eq(label, "modifies") {
            EdgeType::ReferencesFile
        } else if str_eq(label, "is_a") || str_eq(label, "instance_of") {
            EdgeType::InstanceOf
        } else {
            EdgeType::RelatedTo
        }
    }
}

} // verus!
