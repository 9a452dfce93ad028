//! Reasoning traces and what emits them.

pub mod mod_rs;

use vstd::prelude::*;
use crate::clock::Timestamp;
use crate::error::KbError;
use crate::ident::{random_id, RANDOM_ID_LEN};
use crate::json::{clone_optional, optional_model, JsonValue};
use crate::text::clone_optional_text;

verus! {

/// The sort of decision that a trace records.
#[derive(Clone, Copy, Debug, PartialEq, Eq, Structural, Hash)]
pub enum DecisionType {
    SessionStart,
    PlanGeneration,
    PlanStepSelection,
    PlanStepExecution,
    GoalAchieved,
    GoalFailed,
    PromptFinalization,
    LlmRequestSent,
    LlmResponseProcessing,
    JustificationGeneration,
    ToolSelection,
    ToolInputPreparation,
    ToolCallDispatch,
    ToolResponseProcessing,
    ExtensionManagement,
    ConfigurationChange,
    FeedbackIngestion,
    KnowledgeGapIdentified,
    PromptVariantSelection,
    AgentStateChange,
    ErrorConditionObserved,
}

/// One decision of the agent: what it had before it, what it chose, and what
/// came of it.
#[derive(Debug)]
pub struct ReasoningTrace {
    pub trace_id: String,
    pub session_id: String,
    /// The trace of which this one is a part.
    pub parent_trace_id: Option<String>,
    pub timestamp: Timestamp,
    pub decision_type: DecisionType,
    pub inputs: JsonValue,
    pub alternatives_considered: Option<JsonValue>,
    pub selected_alternative: JsonValue,
    /// What the model answered when asked why.
    pub justification_llm_response: Option<String>,
    /// The model's own confidence, as the bits of an IEEE 754 single.
    pub confidence_score_llm_self_assessed: Option<u32>,
    /// The confidence that the agent derived, as the bits of an IEEE 754
    /// single.
    pub confidence_score_derived: Option<u32>,
    pub outcome: Option<JsonValue>,
    pub duration_ms: Option<u64>,
}

impl ReasoningTrace {
    /// Whether two traces say the same: every field equal, the documents as
    /// documents.
    pub open spec fn same(&self, other: &ReasoningTrace) -> bool {
        &&& self.trace_id == other.trace_id
        &&& self.session_id == other.session_id
        &&& self.parent_trace_id == other.parent_trace_id
        &&& self.timestamp == other.timestamp
        &&& self.decision_type == other.decision_type
        &&& self.inputs@ == other.inputs@
        &&& optional_model(self.alternatives_considered) == optional_model(
            other.alternatives_considered,
        )
        &&& self.selected_alternative@ == other.selected_alternative@
        &&& self.justification_llm_response == other.justification_llm_response
        &&& self.confidence_score_llm_self_assessed == other.confidence_score_llm_self_assessed
        &&& self.confidence_score_derived == other.confidence_score_derived
        &&& optional_model(self.outcome) == optional_model(other.outcome)
        &&& self.duration_ms == other.duration_ms
    }

    /// A trace taken at `now` under `trace_id`, with nothing optional set but
    /// the parent.
    pub fn new_at(
        trace_id: String,
        session_id: String,
        parent_trace_id: Option<String>,
        decision_type: DecisionType,
        inputs: JsonValue,
        selected_alternative: JsonValue,
        now: Timestamp,
    ) -> (r: ReasoningTrace)
        ensures
            r == (ReasoningTrace {
                trace_id,
                session_id,
                parent_trace_id,
                timestamp: now,
                decision_type,
                inputs,
                alternatives_considered: None,
                selected_alternative,
                justification_llm_response: None,
                confidence_score_llm_self_assessed: None,
                confidence_score_derived: None,
                outcome: None,
                duration_ms: None,
            }),
    {
        ReasoningTrace {
            trace_id,
            session_id,
            parent_trace_id,
            timestamp: now,
            decision_type,
            inputs,
            alternatives_considered: None,
            selected_alternative,
            justification_llm_response: None,
            confidence_score_llm_self_assessed: None,
            confidence_score_derived: None,
            outcome: None,
            duration_ms: None,
        }
    }

    /// A trace taken now, under a random identity. Whatever the clock and the
    /// random source give, the rest is as in [`ReasoningTrace::new_at`].
    pub fn new(
        session_id: String,
        parent_trace_id: Option<String>,
        decision_type: DecisionType,
        inputs: JsonValue,
        selected_alternative: JsonValue,
    ) -> (r: ReasoningTrace)
        ensures
            r.trace_id@.len() == RANDOM_ID_LEN,
            r == (ReasoningTrace {
                trace_id: r.trace_id,
                session_id,
                parent_trace_id,
                timestamp: r.timestamp,
                decision_type,
                inputs,
                alternatives_considered: None,
                selected_alternative,
                justification_llm_response: None,
                confidence_score_llm_self_assessed: None,
                confidence_score_derived: None,
                outcome: None,
                duration_ms: None,
            }),
    {
        ReasoningTrace::new_at(
            random_id(),
            session_id,
            parent_trace_id,
            decision_type,
            inputs,
            selected_alternative,
            Timestamp::now(),
        )
    }

    /// The trace with the alternatives that were considered.
    pub fn with_alternatives(self, alternatives: JsonValue) -> (r: ReasoningTrace)
        ensures
            r == (ReasoningTrace { alternatives_considered: Some(alternatives), ..self }),
    {
        let mut trace = self;
        trace.alternatives_considered = Some(alternatives);
        trace
    }

    /// The trace with the model's justification.
    pub fn with_justification(self, justification: String) -> (r: ReasoningTrace)
        ensures
            r == (ReasoningTrace { justification_llm_response: Some(justification), ..self }),
    {
        let mut trace = self;
        trace.justification_llm_response = Some(justification);
        trace
    }

    /// The trace with the model's own confidence, given as the bits of an
    /// IEEE 754 single.
    pub fn with_llm_confidence(self, score_bits: u32) -> (r: ReasoningTrace)
        ensures
            r == (ReasoningTrace { confidence_score_llm_self_assessed: Some(score_bits), ..self }),
    {
        let mut trace = self;
        trace.confidence_score_llm_self_assessed = Some(score_bits);
        trace
    }

    /// The trace with the confidence that the agent derived, given as the bits
    /// of an IEEE 754 single.
    pub fn with_derived_confidence(self, score_bits: u32) -> (r: ReasoningTrace)
        ensures
            r == (ReasoningTrace { confidence_score_derived: Some(score_bits), ..self }),
    {
        let mut trace = self;
        trace.confidence_score_derived = Some(score_bits);
        trace
    }

    /// The trace with what came of the decision.
    pub fn with_outcome(self, outcome: JsonValue) -> (r: ReasoningTrace)
        ensures
            r == (ReasoningTrace { outcome: Some(outcome), ..self }),
    {
        let mut trace = self;
        trace.outcome = Some(outcome);
        trace
    }

    /// The trace with the time that the decision took, in milliseconds.
    pub fn with_duration(self, duration_ms: u64) -> (r: ReasoningTrace)
        ensures
            r == (ReasoningTrace { duration_ms: Some(duration_ms), ..self }),
    {
        let mut trace = self;
        trace.duration_ms = Some(duration_ms);
        trace
    }
}

impl Clone for ReasoningTrace {
    /// A copy that says the same.
    fn clone(&self) -> (r: ReasoningTrace)
        ensures
            r.same(self),
    {
        ReasoningTrace {
            trace_id: self.trace_id.clone(),
            session_id: self.session_id.clone(),
            parent_trace_id: clone_optional_text(&self.parent_trace_id),
            timestamp: self.timestamp,
            decision_type: self.decision_type,
            inputs: self.inputs.clone(),
            alternatives_considered: clone_optional(&self.alternatives_considered),
            selected_alternative: self.selected_alternative.clone(),
            justification_llm_response: clone_optional_text(&self.justification_llm_response),
            confidence_score_llm_self_assessed: self.confidence_score_llm_self_assessed,
            confidence_score_derived: self.confidence_score_derived,
            outcome: clone_optional(&self.outcome),
            duration_ms: self.duration_ms,
        }
    }
}

/// What takes the traces that the agent emits.
pub trait TraceEmitter {
    /// The traces taken so far, oldest first.
    spec fn emitted(&self) -> Seq<ReasoningTrace>;

    /// Takes a trace. Where it succeeds, the trace is the newest of those taken;
    /// where it fails, nothing changes.
    fn emit_trace(&mut self, trace: ReasoningTrace) -> (r: Result<(), KbError>)
        ensures
            r is Ok ==> final(self).emitted() == old(self).emitted().push(trace),
            r is Err ==> final(self).emitted() == old(self).emitted(),
    ;
}

/// An emitter that keeps the traces in memory.
pub struct InMemoryTraceEmitter {
    traces: Vec<ReasoningTrace>,
}

impl InMemoryTraceEmitter {
    /// An emitter that has taken no trace.
    pub fn new() -> (r: InMemoryTraceEmitter)
        ensures
            r.emitted() == Seq::<ReasoningTrace>::empty(),
    {
        InMemoryTraceEmitter { traces: Vec::new() }
    }

    /// Copies of the traces taken so far, oldest first.
    pub fn get_traces(&self) -> (r: Vec<ReasoningTrace>)
        ensures
            r@.len() == self.emitted().len(),
            forall|i: int| 0 <= i < r@.len() ==> (#[trigger] r@[i]).same(&self.emitted()[i]),
    {
        let mut copies: Vec<ReasoningTrace> = Vec::new();
        let mut i: usize = 0;
        while i < self.traces.len()
            invariant
                i <= self.traces@.len(),
                copies@.len() == i,
                forall|j: int| 0 <= j < i ==> (#[trigger] copies@[j]).same(&self.traces@[j]),
            decreases self.traces@.len() - i,
        {
            copies.push(self.traces[i].clone());
            i += 1;
        }
        copies
    }
}

impl Default for InMemoryTraceEmitter {
    fn default() -> (r: InMemoryTraceEmitter)
        ensures
            r.emitted() == Seq::<ReasoningTrace>::empty(),
    {
        InMemoryTraceEmitter::new()
    }
}

impl TraceEmitter for InMemoryTraceEmitter {
    closed spec fn emitted(&self) -> Seq<ReasoningTrace> {
        self.traces@
    }

    /// Takes a trace. It never fails.
    fn emit_trace(&mut self, trace: ReasoningTrace) -> (r: Result<(), KbError>)
        ensures
            r is Ok,
    {
        self.traces.push(trace);
        Ok(())
    }
}

} // verus!
