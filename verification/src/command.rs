//! Slash commands: the registry of built-in commands, parsing, and the
//! logic behind each command that does not need the outside world.
pub mod compact;
pub mod registry;
pub mod templates;
pub mod llm;
pub mod context_length;
pub mod tree;
pub mod tools;
pub mod completion;
pub mod handlers;
