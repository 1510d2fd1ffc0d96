//! The core of an agent harness.

pub mod engine;
pub mod exec;
pub mod json;
pub mod model;
pub mod ollama;
pub mod path;
pub mod prompt;
pub mod ralph;
pub mod run_record;
pub mod store;
pub mod task_spec;
pub mod test_support;
pub mod text;
pub mod time;
pub mod tool;
pub mod tools;
pub mod transcript;
pub mod wording;
pub mod workspace;
