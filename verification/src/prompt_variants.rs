//! Variants of the prompts that the agent uses, and how one is picked.

pub mod manager;

pub use manager::{InMemoryPromptVariantProvider, PromptVariant, PromptVariantProvider};
