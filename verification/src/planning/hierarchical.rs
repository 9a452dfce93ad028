//! Strategic goals, tactical plans and operational steps.

pub mod mod_rs;

use vstd::prelude::*;
use crate::clock::Timestamp;
use crate::ident::{random_id, RANDOM_ID_LEN};
use crate::json::JsonValue;

verus! {

/// Where a goal, a plan or a step stands.
#[derive(Clone, Copy, Debug, PartialEq, Eq, Structural, Hash)]
pub enum PlanStatus {
    Pending,
    /// Every precondition is met.
    Ready,
    InProgress,
    CompletedSuccessfully,
    Failed,
    CancelledByUser,
    RequiresHumanIntervention,
    /// Another step or plan has to finish first.
    WaitingForDependency,
}

/// What the user wants, as the agent understood it.
#[derive(Debug)]
pub struct StrategicGoal {
    pub id: String,
    pub user_request_summary: String,
    pub description: String,
    pub status: PlanStatus,
    pub created_at: Timestamp,
    pub updated_at: Timestamp,
    pub tactical_plan_ids: Vec<String>,
    /// Acceptance criteria and constraints.
    pub properties: Option<JsonValue>,
    pub original_user_message_id: Option<String>,
}

/// One way towards a strategic goal.
#[derive(Debug)]
pub struct TacticalPlan {
    pub id: String,
    pub strategic_goal_id: String,
    pub description: String,
    pub status: PlanStatus,
    pub created_at: Timestamp,
    pub updated_at: Timestamp,
    pub operational_step_ids: Vec<String>,
    pub preconditions: Vec<String>,
    pub effects: Vec<String>,
    pub priority: Option<u8>,
    pub properties: Option<JsonValue>,
}

/// One step of a tactical plan: a tool call or something a human does.
#[derive(Debug)]
pub struct OperationalStep {
    pub id: String,
    pub tactical_plan_id: String,
    pub description: String,
    pub tool_name: Option<String>,
    pub tool_parameters: Option<JsonValue>,
    pub human_action_description: Option<String>,
    pub status: PlanStatus,
    pub expected_outcome_description: String,
    pub actual_outcome_description: Option<String>,
    pub execution_attempts: u32,
    pub created_at: Timestamp,
    pub updated_at: Timestamp,
    /// The steps that must finish before this one.
    pub depends_on_step_ids: Vec<String>,
    /// What later steps may use of this step's result.
    pub output_parameters: Option<JsonValue>,
    pub properties: Option<JsonValue>,
}

impl StrategicGoal {
    /// A goal set at `now` under `id`: pending, without plans.
    pub fn new_at(
        id: String,
        user_request_summary: String,
        description: String,
        original_user_message_id: Option<String>,
        now: Timestamp,
    ) -> (r: StrategicGoal)
        ensures
            r.id == id,
            r.user_request_summary == user_request_summary,
            r.description == description,
            r.status == PlanStatus::Pending,
            r.created_at == now,
            r.updated_at == now,
            r.tactical_plan_ids@.len() == 0,
            r.properties is None,
            r.original_user_message_id == original_user_message_id,
    {
        StrategicGoal {
            id,
            user_request_summary,
            description,
            status: PlanStatus::Pending,
            created_at: now,
            updated_at: now,
            tactical_plan_ids: Vec::new(),
            properties: None,
            original_user_message_id,
        }
    }

    /// A goal set now, under a random identity. Whatever the clock and the
    /// random source give, both timestamps are one reading.
    pub fn new(
        user_request_summary: String,
        description: String,
        original_user_message_id: Option<String>,
    ) -> (r: StrategicGoal)
        ensures
            r.id@.len() == RANDOM_ID_LEN,
            r.user_request_summary == user_request_summary,
            r.description == description,
            r.status == PlanStatus::Pending,
            r.created_at == r.updated_at,
            r.tactical_plan_ids@.len() == 0,
            r.properties is None,
            r.original_user_message_id == original_user_message_id,
    {
        StrategicGoal::new_at(
            random_id(),
            user_request_summary,
            description,
            original_user_message_id,
            Timestamp::now(),
        )
    }
}

impl TacticalPlan {
    /// A plan made at `now` under `id`: pending, without steps, preconditions
    /// or effects.
    pub fn new_at(id: String, strategic_goal_id: String, description: String, now: Timestamp) -> (r:
        TacticalPlan)
        ensures
            r.id == id,
            r.strategic_goal_id == strategic_goal_id,
            r.description == description,
            r.status == PlanStatus::Pending,
            r.created_at == now,
            r.updated_at == now,
            r.operational_step_ids@.len() == 0,
            r.preconditions@.len() == 0,
            r.effects@.len() == 0,
            r.priority is None,
            r.properties is None,
    {
        TacticalPlan {
            id,
            strategic_goal_id,
            description,
            status: PlanStatus::Pending,
            created_at: now,
            updated_at: now,
            operational_step_ids: Vec::new(),
            preconditions: Vec::new(),
            effects: Vec::new(),
            priority: None,
            properties: None,
        }
    }

    /// A plan made now, under a random identity. Whatever the clock and the
    /// random source give, both timestamps are one reading.
    pub fn new(strategic_goal_id: String, description: String) -> (r: TacticalPlan)
        ensures
            r.id@.len() == RANDOM_ID_LEN,
            r.strategic_goal_id == strategic_goal_id,
            r.description == description,
            r.status == PlanStatus::Pending,
            r.created_at == r.updated_at,
            r.operational_step_ids@.len() == 0,
            r.preconditions@.len() == 0,
            r.effects@.len() == 0,
            r.priority is None,
            r.properties is None,
    {
        TacticalPlan::new_at(random_id(), strategic_goal_id, description, Timestamp::now())
    }
}

impl OperationalStep {
    /// A step made at `now` under `id`: pending, never tried, depending on no
    /// other step.
    pub fn new_at(
        id: String,
        tactical_plan_id: String,
        description: String,
        expected_outcome_description: String,
        tool_name: Option<String>,
        tool_parameters: Option<JsonValue>,
        human_action_description: Option<String>,
        now: Timestamp,
    ) -> (r: OperationalStep)
        ensures
            r.id == id,
            r.tactical_plan_id == tactical_plan_id,
            r.description == description,
            r.tool_name == tool_name,
            r.tool_parameters == tool_parameters,
            r.human_action_description == human_action_description,
            r.status == PlanStatus::Pending,
            r.expected_outcome_description == expected_outcome_description,
            r.actual_outcome_description is None,
            r.execution_attempts == 0,
            r.created_at == now,
            r.updated_at == now,
            r.depends_on_step_ids@.len() == 0,
            r.output_parameters is None,
            r.properties is None,
    {
        OperationalStep {
            id,
            tactical_plan_id,
            description,
            tool_name,
            tool_parameters,
            human_action_description,
            status: PlanStatus::Pending,
            expected_outcome_description,
            actual_outcome_description: None,
            execution_attempts: 0,
            created_at: now,
            updated_at: now,
            depends_on_step_ids: Vec::new(),
            output_parameters: None,
            properties: None,
        }
    }

    /// A step made now, under a random identity. Whatever the clock and the
    /// random source give, both timestamps are one reading.
    pub fn new(
        tactical_plan_id: String,
        description: String,
        expected_outcome_description: String,
        tool_name: Option<String>,
        tool_parameters: Option<JsonValue>,
        human_action_description: Option<String>,
    ) -> (r: OperationalStep)
        ensures
            r.id@.len() == RANDOM_ID_LEN,
            r.tactical_plan_id == tactical_plan_id,
            r.description == description,
            r.tool_name == tool_name,
            r.tool_parameters == tool_parameters,
            r.human_action_description == human_action_description,
            r.status == PlanStatus::Pending,
            r.expected_outcome_description == expected_outcome_description,
            r.actual_outcome_description is None,
            r.execution_attempts == 0,
            r.created_at == r.updated_at,
            r.depends_on_step_ids@.len() == 0,
            r.output_parameters is None,
            r.properties is None,
    {
        OperationalStep::new_at(
            random_id(),
            tactical_plan_id,
            description,
            expected_outcome_description,
            tool_name,
            tool_parameters,
            human_action_description,
            Timestamp::now(),
        )
    }
}

} // verus!
