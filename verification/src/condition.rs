use crate::event::{Event, InvocationId, MessageId, RecordId};
use vstd::prelude::*;

verus! {

/// One outstanding side effect of an invocation: a test on events that is met
/// by the event that settles the side effect, and is then discarded.
#[derive(Clone, Copy, Debug, PartialEq, Eq, Structural)]
pub enum Condition {
    /// Met when the invocation `id` returns.
    AwaitReturn { id: InvocationId },
    /// Met when `record` is acknowledged as durable.
    AwaitDurable { record: RecordId },
    /// Met when the peer message `msg_id` is resolved or times out.
    AwaitPeerOutcome { msg_id: MessageId },
}

impl Condition {
    /// Whether `event` settles this condition.
    pub open spec fn satisfied_by(self, event: Event) -> bool {
        match self {
            Condition::AwaitReturn { id } => event == (Event::InvocationReturned { id }),
            Condition::AwaitDurable { record } => event == (Event::RecordDurable { record }),
            Condition::AwaitPeerOutcome { msg_id } => {
                event == (Event::PeerMessageResolved { msg_id })
                    || event == (Event::PeerMessageTimedOut { msg_id })
            },
        }
    }

    /// Tests `event` against this condition.
    pub fn is_satisfied_by(&self, event: &Event) -> (met: bool)
        ensures
            met == self.satisfied_by(*event),
    {
        match (self, event) {
            (Condition::AwaitReturn { id }, Event::InvocationReturned { id: returned }) => {
                *id == *returned
            },
            (Condition::AwaitDurable { record }, Event::RecordDurable { record: durable }) => {
                *record == *durable
            },
            (Condition::AwaitPeerOutcome { msg_id }, Event::PeerMessageResolved { msg_id: resolved }) => {
                *msg_id == *resolved
            },
            (Condition::AwaitPeerOutcome { msg_id }, Event::PeerMessageTimedOut { msg_id: expired }) => {
                *msg_id == *expired
            },
            _ => false,
        }
    }
}

} // verus!
