//! Completion tracking for invocations of an event-sourced system.
//!
//! A consumer that wants to know when all side effects of an invocation
//! have settled hands in a handle before the invocation starts. The
//! [`Waiter`] reads the event stream, one event at a time, and keeps for
//! each registered invocation what is still pending: its return, the
//! durability of each record it wrote, the outcome of each peer message that
//! needs a round trip. When the last of these is met, or when the tracker
//! shuts down, it returns the handle together with the message for the
//! consumer, exactly once.
//!
//! Nothing here blocks, sends or receives. The host owns the channels: it
//! feeds events and handoffs in and delivers the messages that come out.
//! [`MainBackgroundTask`] holds the decisions of the loop that does so.
//!
//! The module [`laws`] states what holds of every run of a tracker.

pub mod checker;
pub mod condition;
pub mod event;
pub mod laws;
pub mod runner;
pub mod waiter;

pub use crate::checker::{CallFxChecker, ControlMsg, WaitError};
pub use crate::condition::Condition;
pub use crate::event::{Event, InvocationId, MessageId, PeerMessageKind, RecordId};
pub use crate::runner::{MainBackgroundTask, Observed, TaskError, POLL_TIMEOUT_MS};
pub use crate::waiter::{Notification, Waiter};
