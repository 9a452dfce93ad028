//! Records of what the agent found it does not know.

use vstd::prelude::*;
use crate::clock::Timestamp;
use crate::ident::{random_id, RANDOM_ID_LEN};
use crate::json::JsonValue;

verus! {

/// How far the work on a gap has come.
#[derive(Clone, Copy, Debug, PartialEq, Eq, Structural, Hash)]
pub enum KnowledgeGapStatus {
    /// Newly identified.
    Open,
    /// The agent is trying to close it with tools.
    InvestigatingWithTools,
    /// The agent has asked the user.
    WaitingForUserInput,
    /// The agent believes it has closed it.
    ResolvedByAgent,
    /// The missing knowledge came from the user or from outside.
    ResolvedByExternalData,
    /// The agent tried and cannot close it as it is.
    CannotResolveCurrently,
    /// Flagged for a later look by a developer.
    PendingDeveloperReview,
    /// Closed because nobody came back to it.
    ClosedStale,
}

/// One gap in the agent's knowledge.
#[derive(Debug)]
pub struct KnowledgeGapEntry {
    pub gap_id: String,
    pub session_id: String,
    pub timestamp_identified: Timestamp,
    /// What is missing or misunderstood.
    pub description_by_llm_or_agent: String,
    /// The sort of gap, such as "MissingSpecificFact".
    pub type_of_gap: Option<String>,
    pub status: KnowledgeGapStatus,
    /// The reasoning trace that led to the gap.
    pub related_trace_id: Option<String>,
    /// The agent's state when the gap was found.
    pub context_snapshot: Option<JsonValue>,
    pub resolution_attempts: u32,
    pub resolution_details: Option<String>,
    pub last_investigation_utc: Option<Timestamp>,
    /// From 1 to 5; higher is more pressing.
    pub priority: Option<u8>,
}

impl KnowledgeGapEntry {
    /// A gap found at `now` and recorded under `gap_id`: open, never
    /// investigated, without priority.
    pub fn new_at(
        gap_id: String,
        session_id: String,
        description: String,
        related_trace_id: Option<String>,
        context_snapshot: Option<JsonValue>,
        type_of_gap: Option<String>,
        now: Timestamp,
    ) -> (r: KnowledgeGapEntry)
        ensures
            r == (KnowledgeGapEntry {
                gap_id,
                session_id,
                timestamp_identified: now,
                description_by_llm_or_agent: description,
                type_of_gap,
                status: KnowledgeGapStatus::Open,
                related_trace_id,
                context_snapshot,
                resolution_attempts: 0,
                resolution_details: None,
                last_investigation_utc: None,
                priority: None,
            }),
    {
        KnowledgeGapEntry {
            gap_id,
            session_id,
            timestamp_identified: now,
            description_by_llm_or_agent: description,
            type_of_gap,
            status: KnowledgeGapStatus::Open,
            related_trace_id,
            context_snapshot,
            resolution_attempts: 0,
            resolution_details: None,
            last_investigation_utc: None,
            priority: None,
        }
    }

    /// A gap found now, under a random identity. Whatever the clock and the
    /// random source give, the rest is as in [`KnowledgeGapEntry::new_at`].
    pub fn new(
        session_id: String,
        description: String,
        related_trace_id: Option<String>,
        context_snapshot: Option<JsonValue>,
        type_of_gap: Option<String>,
    ) -> (r: KnowledgeGapEntry)
        ensures
            r.gap_id@.len() == RANDOM_ID_LEN,
            r == (KnowledgeGapEntry {
                gap_id: r.gap_id,
                session_id,
                timestamp_identified: r.timestamp_identified,
                description_by_llm_or_agent: description,
                type_of_gap,
                status: KnowledgeGapStatus::Open,
                related_trace_id,
                context_snapshot,
                resolution_attempts: 0,
                resolution_details: None,
                last_investigation_utc: None,
                priority: None,
            }),
    {
        KnowledgeGapEntry::new_at(
            random_id(),
            session_id,
            description,
            related_trace_id,
            context_snapshot,
            type_of_gap,
            Timestamp::now(),
        )
    }
}

} // verus!
