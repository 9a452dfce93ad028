//! What users and the system said of the agent's work.

pub mod store;

pub use store::{FeedbackEntry, FeedbackSource, FeedbackStoreProvider, InMemoryFeedbackStore};
