//! A runtime model of ownership: scopes, bindings, moves and releases.
//!
//! [`Tracker`] follows one simulated run of a program. It keeps the stack of
//! open scopes and, for every binding, whether it still holds its value.
//! [`model`] says what each operation does to that stack, [`laws`] and
//! [`trace`] hold what is proved of the model for every state and every run.

pub mod error;
pub mod functions;
pub mod handover;
pub mod laws;
pub mod model;
pub mod trace;
pub mod tracker;
pub mod value;

pub use crate::error::TrackerError;
pub use crate::tracker::Tracker;
pub use crate::value::{Kind, Value};
