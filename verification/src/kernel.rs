//! The kernel: routing between modules, the dispatch discipline, the byte
//! streams handed to modules, and the host's tool bridge.
pub mod registry;
pub mod dispatch;
pub mod stream;
pub mod tools;
pub mod syscalls;
pub mod boot;
pub mod loader;
