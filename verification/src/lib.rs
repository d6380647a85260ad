//! Interactive project-scaffolding assistant: a stack catalog, an idempotent
//! configuration-application engine over an in-memory file store, a wizard
//! state machine driven by abstract input events, and a directory-tree
//! snapshot renderer.

pub mod catalog;
pub mod cli;
pub mod engine;
pub mod state;
pub mod store;
pub mod tree;
pub mod wizard;

pub use catalog::get_available_stacks;
pub use store::FileStore;
pub use wizard::App;
