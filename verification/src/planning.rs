//! Plans on three levels: goals, the plans that serve them, and their steps.

pub mod hierarchical;

pub use hierarchical::{OperationalStep, PlanStatus, StrategicGoal, TacticalPlan};
