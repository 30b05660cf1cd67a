//! Core of a terminal task-list editor: the task data model, the
//! keyboard-driven interaction state machine, and the persisted text
//! format for the task list. Terminal I/O and rendering live outside
//! this crate.

pub mod session;
pub mod store;
mod strutil;
pub mod task;

pub use session::{Key, Mode, Outcome, Session};
pub use task::Task;
