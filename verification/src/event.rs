use vstd::prelude::*;

verus! {

/// Identifies one invocation: opaque to the tracker, only ever compared.
pub type InvocationId = u64;

/// Identifies one written record: opaque to the tracker, only ever compared.
pub type RecordId = u64;

/// Identifies one peer message: opaque to the tracker, only ever compared.
pub type MessageId = u64;

/// Whether the sender of a peer message waits for the peer to answer.
#[derive(Clone, Copy, Debug, PartialEq, Eq, Structural)]
pub enum PeerMessageKind {
    /// The message is confirmed later, by a resolution or by a timeout.
    RoundTrip,
    /// Nothing comes back for the message.
    OneWay,
}

/// One item of the event stream that the tracker consumes, in arrival order.
#[derive(Clone, Copy, Debug, PartialEq, Eq, Structural)]
pub enum Event {
    /// An invocation begins.
    InvocationStarted { id: InvocationId },
    /// An invocation has returned to its caller.
    InvocationReturned { id: InvocationId },
    /// A record was written; its durability is acknowledged later.
    RecordWritten { record: RecordId },
    /// A written record has become durable.
    RecordDurable { record: RecordId },
    /// A message left for a peer.
    PeerMessageSent { msg_id: MessageId, kind: PeerMessageKind },
    /// The peer answered a message.
    PeerMessageResolved { msg_id: MessageId },
    /// The wait for the peer's answer ran out.
    PeerMessageTimedOut { msg_id: MessageId },
    /// Anything else on the stream; the tracker does not react to it.
    Other,
}

} // verus!
