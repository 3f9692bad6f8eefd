//! A keyboard-driven task manager: a tree of stateful UI components renders
//! itself into plain draw commands, receives key events in a well-defined
//! delegation order, and reports through a boolean "handled" contract whether
//! an event was consumed locally or falls through to a parent handler.
//!
//! The component tree, the task store, and the on-disk codec are verified;
//! terminal and file I/O live outside the library and exchange plain values
//! (key events in, draw commands and snapshot bytes out).

pub mod keys;
pub mod store;
pub mod codec;
pub mod component;
pub mod session;
pub mod modal;
pub mod task_list;
pub mod tab_layout;
pub mod root;
