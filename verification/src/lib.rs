//! Task handler of a queueing daemon: the canonical set of tasks and groups,
//! the transitions that commands and process events cause, and the scheduler
//! that decides which task runs next.
//!
//! The state is a plain value. Every transition is a method of [`State`] with a
//! contract over the state before and after it; signals, processes, sockets and
//! files belong to the caller, which performs what a method hands back.

pub mod error;
pub mod group;
pub mod task;
pub mod count;
pub mod state;
pub mod scheduler;
pub mod commands;
pub mod batch;
pub mod groups;
pub mod restore;
pub mod shutdown;
pub mod snapshot;
pub mod startup;
pub mod tls;
pub mod frame;
pub mod store;

pub use error::Error;
pub use group::{Group, GroupStatus};
pub use shutdown::{Lifecycle, ShutdownKind};
pub use state::State;
pub use task::{NewTask, Selection, Task, TaskResult, TaskStatus};
pub use tls::{Identity, TlsError};
