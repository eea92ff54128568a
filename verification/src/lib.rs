//! The engine of a small agent harness: conversations, the model and the tools, and what is kept
//! of them. Everything that touches the world outside is done by the caller.

pub mod bytes;
pub mod catalog;
pub mod chat;
pub mod clock;
pub mod engine;
pub mod json;
pub mod order;
pub mod paths;
pub mod runs;
pub mod search;
pub mod settings;
pub mod text;
pub mod transcript;
pub mod worktrees;
