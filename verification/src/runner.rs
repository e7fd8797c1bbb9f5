use crate::checker::CheckerView;
use crate::event::{Event, InvocationId};
use crate::waiter::{Notification, Waiter, WaiterView};
use vstd::prelude::*;

verus! {

/// The longest that one wait on the event source may last, in milliseconds:
/// a request to shut down is noticed at least this often.
pub const POLL_TIMEOUT_MS: u64 = 250;

/// What the host saw in one cycle of the loop that drives the task.
#[derive(Clone, Copy, Debug, PartialEq, Eq, Structural)]
pub enum Observed {
    /// The shutdown flag was set, so the event source was not waited on.
    ShutdownRequested,
    /// The event source delivered the next event.
    Signal(Event),
    /// The wait ran out with no event.
    TimedOut,
    /// The event source is gone.
    SourceClosed,
}

/// Why the task ended other than on request.
#[derive(Clone, Copy, Debug, PartialEq, Eq, Structural)]
pub enum TaskError {
    /// The event source ended while the task was running.
    SourceClosed,
}

/// The mathematical content of a [`MainBackgroundTask`].
#[verifier::ext_equal]
pub struct TaskView<S> {
    /// The tracker that the task drives.
    pub waiter: WaiterView<S>,
    /// `None` while the task runs, then how it ended.
    pub exit: Option<Result<(), TaskError>>,
}

impl<S> TaskView<S> {
    /// A running task around an empty tracker.
    pub open spec fn fresh() -> Self {
        TaskView { waiter: WaiterView::empty(), exit: None }
    }

    /// What every reachable task satisfies: its tracker is well-formed, and
    /// once the task has ended nothing is tracked any more, so that no
    /// consumer is left waiting.
    pub open spec fn wf(self) -> bool {
        &&& self.waiter.wf()
        &&& self.exit is Some ==> self.waiter.checkers == Map::<
            InvocationId,
            CheckerView<S>,
        >::empty()
    }

    /// Whether `seen` ends a running task, and how.
    pub open spec fn ending(seen: Observed) -> Option<Result<(), TaskError>> {
        match seen {
            Observed::ShutdownRequested => Some(Ok(())),
            Observed::SourceClosed => Some(Err(TaskError::SourceClosed)),
            _ => None,
        }
    }

    /// The task after one cycle in which the host saw `seen`. An event is
    /// handed to the tracker and a timeout changes nothing. A request to shut
    /// down and the loss of the event source both end the task, and the
    /// tracker is shut down either way. An ended task stays as it is.
    pub open spec fn advance(self, seen: Observed) -> Self {
        if self.exit is Some {
            self
        } else {
            match seen {
                Observed::Signal(event) => TaskView { waiter: self.waiter.step(event), exit: None },
                Observed::TimedOut => self,
                _ => TaskView { waiter: self.waiter.shut_down(), exit: Self::ending(seen) },
            }
        }
    }

    /// The messages that the cycle produces.
    pub open spec fn delivers(self, seen: Observed) -> Set<Notification<S>> {
        if self.exit is Some {
            Set::empty()
        } else {
            match seen {
                Observed::Signal(event) => self.waiter.notified(event),
                Observed::TimedOut => Set::empty(),
                _ => self.waiter.forced(),
            }
        }
    }

    /// Whether a handoff is due before `seen` is taken in: the task runs,
    /// `seen` starts an invocation and no handoff is held yet.
    pub open spec fn wants_handoff(self, seen: Observed) -> bool {
        &&& self.exit is None
        &&& self.waiter.intake is None
        &&& seen matches Observed::Signal(event)
        &&& event is InvocationStarted
    }

    /// The task once `tx` was offered as a handoff: an ended task takes none.
    pub open spec fn offer(self, tx: S) -> Self {
        if self.exit is Some {
            self
        } else {
            TaskView { waiter: self.waiter.offer(tx), exit: None }
        }
    }

    /// A cycle keeps a task well-formed. The task ends when the host sees a
    /// request to shut down or the loss of the event source, and at no other
    /// time; and a task that has ended stays as it is and delivers nothing.
    pub proof fn law_invariants_kept(self, seen: Observed)
        requires
            self.wf(),
        ensures
            self.advance(seen).wf(),
            self.advance(seen).exit is Some <==> self.exit is Some || seen
                is ShutdownRequested || seen is SourceClosed,
            self.exit is Some ==> self.advance(seen) == self && self.delivers(seen)
                == Set::<Notification<S>>::empty(),
    {
        match seen {
            Observed::Signal(event) => {
                self.waiter.law_invariants_kept(event);
            },
            _ => {
                self.waiter.law_invariants_kept(Event::Other);
            },
        }
    }

    /// A handoff keeps a task well-formed, and a task that has ended takes
    /// none.
    pub proof fn law_offer_keeps_invariants(self, tx: S)
        requires
            self.wf(),
        ensures
            self.offer(tx).wf(),
            self.exit is Some ==> self.offer(tx) == self,
    {
        self.waiter.law_offer_keeps_invariants(tx);
    }
}

/// The decisions of the loop that feeds a tracker from an event source. The
/// host waits on the source, for at most [`POLL_TIMEOUT_MS`] at a time, and
/// reads the shutdown flag; the task decides what each observation means for
/// the tracker and which messages are due.
pub struct MainBackgroundTask<S> {
    waiter: Waiter<S>,
    exit: Option<Result<(), TaskError>>,
}

impl<S> View for MainBackgroundTask<S> {
    type V = TaskView<S>;

    closed spec fn view(&self) -> TaskView<S> {
        TaskView { waiter: self.waiter@, exit: self.exit }
    }
}

impl<S> MainBackgroundTask<S> {
    /// A running task around an empty tracker.
    pub fn new() -> (task: Self)
        ensures
            task@ == TaskView::<S>::fresh(),
            task@.wf(),
    {
        MainBackgroundTask { waiter: Waiter::new(), exit: None }
    }

    /// `None` while the task runs, then how it ended.
    pub fn exit(&self) -> (exit: Option<Result<(), TaskError>>)
        ensures
            exit == self@.exit,
    {
        self.exit
    }

    /// The tracker that the task drives.
    pub fn waiter(&self) -> (waiter: &Waiter<S>)
        ensures
            waiter@ == self@.waiter,
    {
        &self.waiter
    }

    /// Whether the host should take a handoff from the registration intake
    /// before it reports `seen`: the task runs, `seen` starts an invocation
    /// and no handoff is held yet.
    pub fn wants_handoff(&self, seen: &Observed) -> (wanted: bool)
        ensures
            wanted == self@.wants_handoff(*seen),
    {
        if self.exit.is_some() {
            return false;
        }
        match seen {
            Observed::Signal(event) => self.waiter.wants_handoff(event),
            _ => false,
        }
    }

    /// Offers `tx` as the handoff for the next invocation start. It comes
    /// back in `Err` while a handoff is held, and once the task has ended.
    pub fn register(&mut self, tx: S) -> (taken: Result<(), S>)
        ensures
            final(self)@ == old(self)@.offer(tx),
            taken is Ok <==> old(self)@.exit is None && old(self)@.waiter.intake is None,
            taken matches Err(back) ==> back == tx,
            old(self)@.wf() ==> final(self)@.wf(),
    {
        proof {
            if old(self)@.wf() {
                old(self)@.law_offer_keeps_invariants(tx);
            }
        }
        if self.exit.is_some() {
            Err(tx)
        } else {
            self.waiter.register(tx)
        }
    }

    /// Takes in what the host saw in one cycle. Returns the messages to
    /// deliver, in no particular order; after the cycle that ends the task
    /// there are none.
    pub fn step(&mut self, seen: Observed) -> (out: Vec<Notification<S>>)
        ensures
            final(self)@ == old(self)@.advance(seen),
            out@.no_duplicates(),
            out@.to_set() == old(self)@.delivers(seen),
            old(self)@.wf() ==> final(self)@.wf(),
    {
        proof {
            if old(self)@.wf() {
                old(self)@.law_invariants_kept(seen);
            }
        }
        if self.exit.is_some() {
            return Vec::new();
        }
        match seen {
            Observed::Signal(event) => self.waiter.process_signal(event),
            Observed::TimedOut => Vec::new(),
            Observed::ShutdownRequested => {
                self.exit = Some(Ok(()));
                self.waiter.shutdown()
            },
            Observed::SourceClosed => {
                self.exit = Some(Err(TaskError::SourceClosed));
                self.waiter.shutdown()
            },
        }
    }
}

} // verus!
