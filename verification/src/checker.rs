use crate::condition::Condition;
use crate::event::Event;
use vstd::prelude::*;

verus! {

/// What a waiting consumer is told, once, about the invocation it waits for.
#[derive(Clone, Copy, Debug, PartialEq, Eq, Structural)]
pub enum ControlMsg {
    /// Every condition tracked for the invocation has been met.
    Completed,
    /// The tracker shut down while conditions were still pending.
    ForcedCompletion,
}

/// Why a consumer's wait ended without a message.
#[derive(Clone, Copy, Debug, PartialEq, Eq, Structural)]
pub enum WaitError {
    /// The tracker's side went away before it told the consumer anything.
    TrackerGone,
}

impl ControlMsg {
    /// What a consumer's wait comes to, given what its receiving end
    /// yielded: the message, or nothing because the sending end is gone.
    /// Either message ends the wait; a wait that ends without one has failed.
    pub fn settle(arrived: Option<ControlMsg>) -> (outcome: Result<ControlMsg, WaitError>)
        ensures
            arrived matches Some(msg) ==> outcome == Ok::<ControlMsg, WaitError>(msg),
            arrived is None ==> outcome == Err::<ControlMsg, WaitError>(WaitError::TrackerGone),
    {
        match arrived {
            Some(msg) => Ok(msg),
            None => Err(WaitError::TrackerGone),
        }
    }
}

/// The conditions that `event` leaves pending: a filter for `Seq::filter`.
pub open spec fn still_pending(event: Event) -> spec_fn(Condition) -> bool {
    |c: Condition| !c.satisfied_by(event)
}

/// The mathematical content of a [`CallFxChecker`].
pub struct CheckerView<S> {
    /// The handle on which the consumer is reached.
    pub tx: S,
    /// The conditions still pending, oldest first.
    pub conditions: Seq<Condition>,
}

impl<S> CheckerView<S> {
    /// A checker around `tx` that tracks nothing yet.
    pub open spec fn fresh(tx: S) -> Self {
        CheckerView { tx, conditions: Seq::empty() }
    }

    /// This checker with `condition` appended.
    pub open spec fn with(self, condition: Condition) -> Self {
        CheckerView { tx: self.tx, conditions: self.conditions.push(condition) }
    }

    /// This checker once `event` was tested against every pending condition:
    /// those that it settles are gone, the others keep their order.
    pub open spec fn after(self, event: Event) -> Self {
        CheckerView { tx: self.tx, conditions: self.conditions.filter(still_pending(event)) }
    }

    /// Whether `event` settles the last pending conditions, which is the
    /// moment the consumer is told.
    pub open spec fn finishes(self, event: Event) -> bool {
        self.conditions.len() > 0 && self.after(event).conditions.len() == 0
    }

    /// This checker with nothing left pending.
    pub open spec fn cleared(self) -> Self {
        CheckerView { tx: self.tx, conditions: Seq::empty() }
    }

    /// Whether `event` settles every pending condition.
    pub open spec fn all_met_by(self, event: Event) -> bool {
        forall|i: int| 0 <= i < self.conditions.len() ==> self.conditions[i].satisfied_by(event)
    }

    /// A checker finishes on the event that settles all that is pending, and
    /// on no other: not while a condition is unmet, and not when it has none.
    pub proof fn law_finishes_when_all_met(self, event: Event)
        ensures
            self.finishes(event) <==> self.conditions.len() > 0 && self.all_met_by(event),
    {
        let keep = still_pending(event);
        let left = self.conditions.filter(keep);
        if self.all_met_by(event) {
            assert(self.conditions.all(|c: Condition| !keep(c)));
            self.conditions.lemma_all_neg_filter_empty(keep);
        } else {
            let i = choose|i: int|
                0 <= i < self.conditions.len() && !self.conditions[i].satisfied_by(event);
            self.conditions.lemma_filter_contains(keep, i);
            assert(left.len() > 0);
        }
    }

    /// A condition that `event` does not settle is still pending afterwards,
    /// so the checker does not finish on `event`.
    pub proof fn law_unmet_condition_stays(self, event: Event, pending: Condition)
        requires
            self.conditions.contains(pending),
            !pending.satisfied_by(event),
        ensures
            self.after(event).conditions.contains(pending),
            !self.finishes(event),
    {
        let i = choose|i: int| 0 <= i < self.conditions.len() && self.conditions[i] == pending;
        self.conditions.lemma_filter_contains(still_pending(event), i);
    }

    /// Testing an event never adds a condition: what is pending afterwards
    /// was pending before.
    pub proof fn law_after_only_drops(self, event: Event, pending: Condition)
        requires
            self.after(event).conditions.contains(pending),
        ensures
            self.conditions.contains(pending),
            !pending.satisfied_by(event),
    {
        let keep = still_pending(event);
        self.conditions.lemma_filter_contains_rev(keep, pending);
        let i = choose|i: int|
            0 <= i < self.conditions.filter(keep).len() && self.conditions.filter(keep)[i]
                == pending;
        self.conditions.lemma_filter_pred(keep, i);
    }
}

/// The pending conditions of one invocation together with the handle `tx` on
/// which its consumer is reached. The checker decides when the consumer is
/// to be told and what; delivering the message on `tx` is left to the owner.
pub struct CallFxChecker<S> {
    tx: S,
    conditions: Vec<Condition>,
}

impl<S> View for CallFxChecker<S> {
    type V = CheckerView<S>;

    closed spec fn view(&self) -> CheckerView<S> {
        CheckerView { tx: self.tx, conditions: self.conditions@ }
    }
}

/// Filtering one element more either appends that element or changes nothing.
proof fn lemma_filter_take_next(s: Seq<Condition>, event: Event, i: int)
    requires
        0 <= i < s.len(),
    ensures
        s[i].satisfied_by(event) ==> s.take(i + 1).filter(still_pending(event)) == s.take(
            i,
        ).filter(still_pending(event)),
        !s[i].satisfied_by(event) ==> s.take(i + 1).filter(still_pending(event)) == s.take(
            i,
        ).filter(still_pending(event)).push(s[i]),
{
    reveal(Seq::filter);
    assert(s.take(i + 1).drop_last() =~= s.take(i));
}

impl<S> CallFxChecker<S> {
    /// A checker around `tx` with no condition.
    pub fn new(tx: S) -> (checker: Self)
        ensures
            checker@ == CheckerView::fresh(tx),
    {
        CallFxChecker { tx, conditions: Vec::new() }
    }

    /// Appends `condition`. Nothing is deduplicated: two writes of one record
    /// await two conditions, and one acknowledgment settles both.
    pub fn add(&mut self, condition: Condition)
        ensures
            final(self)@ == old(self)@.with(condition),
    {
        self.conditions.push(condition);
    }

    /// Tests `event` against every pending condition and drops those it
    /// settles. Returns the message for the consumer when this emptied a
    /// checker that had conditions, and `None` while something is pending.
    pub fn run_checks(&mut self, event: &Event) -> (fired: Option<ControlMsg>)
        ensures
            final(self)@ == old(self)@.after(*event),
            old(self)@.finishes(*event) ==> fired == Some(ControlMsg::Completed),
            !old(self)@.finishes(*event) ==> fired is None,
    {
        let ghost before = self.conditions@;
        let size: usize = self.conditions.len();
        let mut kept: Vec<Condition> = Vec::new();
        let mut i: usize = 0;
        while i < size
            invariant
                self.conditions@ == before,
                size == before.len(),
                i <= size,
                kept@ == before.take(i as int).filter(still_pending(*event)),
            decreases size - i,
        {
            let condition = self.conditions[i];
            proof {
                lemma_filter_take_next(before, *event, i as int);
            }
            if !condition.is_satisfied_by(event) {
                kept.push(condition);
            }
            i += 1;
        }
        assert(before.take(size as int) =~= before);
        let emptied = kept.len() == 0 && size != 0;
        self.conditions = kept;
        if emptied {
            Some(ControlMsg::Completed)
        } else {
            None
        }
    }

    /// Drops every pending condition and returns the message that tells the
    /// consumer so. The owner calls this once, when the tracker shuts down.
    pub fn shutdown(&mut self) -> (fired: ControlMsg)
        ensures
            final(self)@ == old(self)@.cleared(),
            fired == ControlMsg::ForcedCompletion,
    {
        self.conditions.clear();
        ControlMsg::ForcedCompletion
    }

    /// The pending conditions, oldest first.
    pub fn conditions(&self) -> (pending: &Vec<Condition>)
        ensures
            pending@ == self@.conditions,
    {
        &self.conditions
    }

    /// The handle of the consumer.
    pub fn sender(&self) -> (tx: &S)
        ensures
            *tx == self@.tx,
    {
        &self.tx
    }

    /// Gives up the checker for the handle of its consumer.
    pub fn into_sender(self) -> (tx: S)
        ensures
            tx == self@.tx,
    {
        self.tx
    }
}

} // verus!
