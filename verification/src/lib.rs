//! Process-tree model and observer protocol logic for an Ergo node inspector.
//!
//! The crate holds the parts of the inspector that decide things: the wire
//! formats of process identifiers and enumerations, the process tree that is
//! built from application snapshots, the observer connection state machine,
//! the session state that reacts to observer events, and the colour themes.
pub mod text;
pub mod json;
pub mod decode;
pub mod types;
pub mod tree;
pub mod tree_laws;
pub mod observer;
pub mod observer_laws;
pub mod session;
pub mod session_laws;
pub mod windows;
pub mod theme;
pub mod ports;
