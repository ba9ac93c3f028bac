//! Verified core of an interactive shell front end for a query tool.
//!
//! The library owns the line-editing session logic: the bracket scanner and
//! continuation validator, the keyword highlighter, the completion provider,
//! the history store, the key-binding dispatcher, and the session state
//! machine. Terminal I/O and the external query evaluator are collaborators
//! that live outside this crate; they hand the library plain strings and key
//! events and receive plain values back.

pub mod bracket;
pub mod buffer;
pub mod complete;
pub mod highlight;
pub mod history;
pub mod keymap;
pub mod session;
pub mod text;
