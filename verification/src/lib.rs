//! Core of a terminal task/project manager.
//!
//! The library is the application core: the task-hierarchy reordering
//! engine, the mode/message/update state machine, and the selection
//! (cursor) model.  Everything that touches a terminal, a database or a
//! clock lives outside, hands the core plain values, and takes plain
//! values back.

pub mod cli;
pub mod error;
pub mod keys;
pub mod laws;
pub mod message;
pub mod model;
pub mod objects;
pub mod reorder;
pub mod text;
pub mod update;

pub use cli::Cli;
pub use error::Error;
pub use message::Message;
pub use model::App;
