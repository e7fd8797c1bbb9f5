//! What holds of every run of a tracker.
//!
//! A run is a sequence of inputs, each a handoff that a consumer offers or an
//! event of the stream. The laws are stated over the views of the tracker,
//! the same that the contracts of [`Waiter`](crate::waiter::Waiter) speak of,
//! so each of them holds of every sequence of calls of `register` and
//! `process_signal`, and of the `shutdown` that ends it.

use crate::checker::ControlMsg;
use crate::condition::Condition;
use crate::event::{Event, InvocationId, MessageId, PeerMessageKind};
use crate::waiter::{Notification, WaiterView};
use vstd::prelude::*;

verus! {

/// One thing that happens to a tracker: a consumer offers a handoff, or the
/// event stream delivers an event.
pub enum Input<S> {
    /// A consumer offers the handle `S` for the next invocation start.
    Register(S),
    /// The next event of the stream.
    Signal(Event),
}

/// Whether `input` is an event that settles `condition`.
pub open spec fn settles<S>(input: Input<S>, condition: Condition) -> bool {
    input matches Input::Signal(event) && condition.satisfied_by(event)
}

/// Whether `input` is the event that starts the invocation `id`.
pub open spec fn starts<S>(input: Input<S>, id: InvocationId) -> bool {
    input == Input::<S>::Signal(Event::InvocationStarted { id })
}

impl<S> WaiterView<S> {
    /// The tracker after `input`.
    pub open spec fn apply(self, input: Input<S>) -> Self {
        match input {
            Input::Register(tx) => self.offer(tx),
            Input::Signal(event) => self.step(event),
        }
    }

    /// The messages that `input` produces.
    pub open spec fn emits(self, input: Input<S>) -> Set<Notification<S>> {
        match input {
            Input::Register(_) => Set::empty(),
            Input::Signal(event) => self.notified(event),
        }
    }

    /// The tracker after all of `inputs`, taken in order.
    pub open spec fn run(self, inputs: Seq<Input<S>>) -> Self
        decreases inputs.len(),
    {
        if inputs.len() == 0 {
            self
        } else {
            self.run(inputs.drop_last()).apply(inputs.last())
        }
    }

    /// Whether `input` produces a message for the invocation `id`.
    pub open spec fn tells(self, input: Input<S>, id: InvocationId) -> bool {
        exists|n: Notification<S>| #[trigger] self.emits(input).contains(n) && n.id == id
    }

    /// Whether `input` starts the tracking of `id`: it is the start of `id`,
    /// and a handoff is there to be consumed.
    pub open spec fn accepts(self, input: Input<S>, id: InvocationId) -> bool {
        starts(input, id) && self.intake is Some
    }

    /// 1 if `id` is tracked, else 0.
    pub open spec fn live_count(self, id: InvocationId) -> nat {
        if self.is_live(id) {
            1
        } else {
            0
        }
    }

    /// How many of `inputs` produce a message for `id`.
    pub open spec fn answered(self, inputs: Seq<Input<S>>, id: InvocationId) -> nat
        decreases inputs.len(),
    {
        if inputs.len() == 0 {
            0
        } else {
            let before = inputs.drop_last();
            self.answered(before, id) + if self.run(before).tells(inputs.last(), id) {
                1nat
            } else {
                0nat
            }
        }
    }

    /// How many of `inputs` start the tracking of `id`.
    pub open spec fn accepted(self, inputs: Seq<Input<S>>, id: InvocationId) -> nat
        decreases inputs.len(),
    {
        if inputs.len() == 0 {
            0
        } else {
            let before = inputs.drop_last();
            self.accepted(before, id) + if self.run(before).accepts(inputs.last(), id) {
                1nat
            } else {
                0nat
            }
        }
    }

    /// Whether one of `inputs` starts the tracking of `id` while `id` is
    /// tracked already, which replaces the older tracking without a message.
    pub open spec fn restarted(self, inputs: Seq<Input<S>>, id: InvocationId) -> bool
        decreases inputs.len(),
    {
        if inputs.len() == 0 {
            false
        } else {
            let before = inputs.drop_last();
            self.restarted(before, id) || (self.run(before).is_live(id) && self.run(
                before,
            ).accepts(inputs.last(), id))
        }
    }

    /// Whether one of `inputs` starts the tracking of any invocation.
    pub open spec fn any_accepted(self, inputs: Seq<Input<S>>) -> bool
        decreases inputs.len(),
    {
        if inputs.len() == 0 {
            false
        } else {
            let before = inputs.drop_last();
            self.any_accepted(before) || (inputs.last() matches Input::Signal(event)
                && event is InvocationStarted && self.run(before).intake is Some)
        }
    }

    /// Whether two trackers hold the same about `id`: both track it or
    /// neither does, with the same handle and conditions; it is the
    /// attribution target of both or of neither; and the same handoff waits
    /// in both.
    pub open spec fn agrees_on(self, other: Self, id: InvocationId) -> bool {
        &&& self.is_live(id) == other.is_live(id)
        &&& self.is_live(id) ==> self.checkers[id] == other.checkers[id]
        &&& (self.current == Some(id)) == (other.current == Some(id))
        &&& self.intake == other.intake
    }

    // Invariants

    /// Over a run, a well-formed tracker stays well-formed: an invocation is
    /// tracked only while something is pending for it, and the attribution
    /// target is a tracked invocation or absent.
    pub proof fn law_invariants_hold(self, inputs: Seq<Input<S>>)
        requires
            self.wf(),
        ensures
            self.run(inputs).wf(),
            self.run(inputs).shut_down().wf(),
        decreases inputs.len(),
    {
        if inputs.len() > 0 {
            let before = self.run(inputs.drop_last());
            self.law_invariants_hold(inputs.drop_last());
            match inputs.last() {
                Input::Register(tx) => {
                    before.law_offer_keeps_invariants(tx);
                },
                Input::Signal(event) => {
                    before.law_invariants_kept(event);
                },
            }
        }
        self.run(inputs).law_invariants_kept(Event::Other);
    }

    // Single notification

    /// A message for `id` goes out when the event finishes `id`, and then it
    /// is the only one for `id`: a `Completed` on the handle of `id`.
    pub proof fn law_told_when_finished(self, event: Event, id: InvocationId)
        ensures
            self.tells(Input::Signal(event), id) <==> self.attribute(event).finishes(id, event),
            forall|n: Notification<S>| #[trigger]
                self.notified(event).contains(n) && n.id == id ==> n == (Notification {
                    id,
                    tx: self.attribute(event).checkers[id].tx,
                    msg: ControlMsg::Completed,
                }),
    {
        let mid = self.attribute(event);
        if mid.finishes(id, event) {
            let n = Notification { id, tx: mid.checkers[id].tx, msg: ControlMsg::Completed };
            assert(self.emits(Input::Signal(event)).contains(n));
        }
    }

    /// On each input the tracking of `id` changes by what the input starts
    /// and what it tells: unless it restarts a tracked `id`, an invocation
    /// leaves the tracker only together with its message.
    pub proof fn law_step_accounts(self, input: Input<S>, id: InvocationId)
        requires
            !(self.is_live(id) && self.accepts(input, id)),
        ensures
            self.live_count(id) + (if self.accepts(input, id) {
                1nat
            } else {
                0nat
            }) == self.apply(input).live_count(id) + (if self.tells(input, id) {
                1nat
            } else {
                0nat
            }),
    {
        match input {
            Input::Register(tx) => {
                assert(!self.tells(input, id));
            },
            Input::Signal(event) => {
                self.law_told_when_finished(event, id);
            },
        }
    }

    /// Single notification. Over any run in which `id` is never restarted
    /// while tracked, every start of its tracking is answered by exactly one
    /// message or is still tracked at the end; and a shutdown at the end
    /// tells exactly those still tracked, once, and leaves none.
    pub proof fn law_single_notification(self, inputs: Seq<Input<S>>, id: InvocationId)
        requires
            !self.restarted(inputs, id),
        ensures
            self.live_count(id) + self.accepted(inputs, id) == self.answered(inputs, id)
                + self.run(inputs).live_count(id),
            self.run(inputs).shut_down().live_count(id) == 0,
            forall|n: Notification<S>| #[trigger]
                self.run(inputs).forced().contains(n) && n.id == id ==> self.run(inputs).is_live(id)
                    && n == (Notification {
                    id,
                    tx: self.run(inputs).checkers[id].tx,
                    msg: ControlMsg::ForcedCompletion,
                }),
            self.run(inputs).is_live(id) ==> self.run(inputs).forced().contains(
                (Notification {
                    id,
                    tx: self.run(inputs).checkers[id].tx,
                    msg: ControlMsg::ForcedCompletion,
                }),
            ),
        decreases inputs.len(),
    {
        if inputs.len() > 0 {
            let before = inputs.drop_last();
            self.law_single_notification(before, id);
            self.run(before).law_step_accounts(inputs.last(), id);
        }
    }

    /// While nothing starts the tracking of an untracked `id`, nothing is
    /// told for it and it stays untracked.
    pub proof fn law_unstarted_stays_silent(self, inputs: Seq<Input<S>>, id: InvocationId)
        requires
            !self.is_live(id),
            self.accepted(inputs, id) == 0,
        ensures
            !self.restarted(inputs, id),
            self.answered(inputs, id) == 0,
            !self.run(inputs).is_live(id),
        decreases inputs.len(),
    {
        if inputs.len() > 0 {
            let before = inputs.drop_last();
            self.law_unstarted_stays_silent(before, id);
            self.run(before).law_step_accounts(inputs.last(), id);
        }
    }

    /// Single notification, for the usual case. An untracked invocation
    /// whose tracking is started once in a run is told exactly once: either
    /// by one message during the run, after which it is no longer tracked,
    /// or, being still tracked at the end, by the shutdown that follows.
    pub proof fn law_one_start_one_answer(self, inputs: Seq<Input<S>>, id: InvocationId)
        requires
            !self.is_live(id),
            self.accepted(inputs, id) == 1,
        ensures
            !self.restarted(inputs, id),
            self.answered(inputs, id) + self.run(inputs).live_count(id) == 1,
        decreases inputs.len(),
    {
        let before = inputs.drop_last();
        if self.run(before).accepts(inputs.last(), id) {
            self.law_unstarted_stays_silent(before, id);
        } else {
            self.law_one_start_one_answer(before, id);
        }
        self.law_single_notification(inputs, id);
    }

    // The handle of the consumer

    /// The start of a tracking makes the waiting handoff the handle of the
    /// invocation, makes the invocation the attribution target, and leaves
    /// the return of the invocation as its one pending condition.
    pub proof fn law_start_takes_handoff(self, id: InvocationId, tx: S)
        requires
            self.intake == Some(tx),
        ensures
            self.step(Event::InvocationStarted { id }).is_live(id),
            self.step(Event::InvocationStarted { id }).checkers[id].tx == tx,
            self.step(Event::InvocationStarted { id }).checkers[id].conditions == seq![
                Condition::AwaitReturn { id },
            ],
            self.step(Event::InvocationStarted { id }).current == Some(id),
            self.step(Event::InvocationStarted { id }).intake is None,
    {
        let event = Event::InvocationStarted { id };
        let fresh = self.attribute(event).checkers[id];
        assert(fresh.conditions =~= seq![Condition::AwaitReturn { id }]);
        assert(fresh.conditions[0] == Condition::AwaitReturn { id });
        fresh.law_unmet_condition_stays(event, Condition::AwaitReturn { id });
        assert(fresh.after(event).conditions =~= fresh.conditions) by {
            reveal_with_fuel(Seq::filter, 2);
        }
    }

    /// A tracked invocation keeps the handle that its start consumed, and a
    /// message for it goes out on that handle, unless the input starts its
    /// tracking anew.
    pub proof fn law_step_keeps_handle(self, input: Input<S>, id: InvocationId)
        requires
            self.is_live(id),
            !self.accepts(input, id),
        ensures
            self.apply(input).is_live(id) ==> self.apply(input).checkers[id].tx
                == self.checkers[id].tx,
            forall|n: Notification<S>| #[trigger]
                self.emits(input).contains(n) && n.id == id ==> n.tx == self.checkers[id].tx,
    {
        match input {
            Input::Register(tx) => {},
            Input::Signal(event) => {
                let mid = self.attribute(event);
                assert(mid.is_live(id) && mid.checkers[id].tx == self.checkers[id].tx);
            },
        }
    }

    /// The message reaches the consumer that registered. Over a run that
    /// does not start the tracking of `id` anew, every message for a tracked
    /// `id` goes out on the handle that `id` has at the beginning, and so
    /// does the forced one that a shutdown at the end would produce.
    pub proof fn law_told_on_own_handle(self, inputs: Seq<Input<S>>, id: InvocationId)
        requires
            self.is_live(id),
            self.accepted(inputs, id) == 0,
        ensures
            forall|k: int, n: Notification<S>|
                0 <= k < inputs.len() && (#[trigger] self.run(inputs.take(k)).emits(
                    inputs[k],
                ).contains(n)) && n.id == id ==> n.tx == self.checkers[id].tx,
            forall|n: Notification<S>| #[trigger]
                self.run(inputs).forced().contains(n) && n.id == id ==> n.tx
                    == self.checkers[id].tx,
            self.answered(inputs, id) + self.run(inputs).live_count(id) == 1,
        decreases inputs.len(),
    {
        if inputs.len() > 0 {
            let before = inputs.drop_last();
            let last = self.run(before);
            self.law_told_on_own_handle(before, id);
            if last.is_live(id) {
                let n = Notification {
                    id,
                    tx: last.checkers[id].tx,
                    msg: ControlMsg::ForcedCompletion,
                };
                assert(last.forced().contains(n));
                last.law_step_keeps_handle(inputs.last(), id);
                last.law_step_accounts(inputs.last(), id);
            } else {
                last.law_step_accounts(inputs.last(), id);
                assert(!last.tells(inputs.last(), id));
            }
            assert forall|k: int, n: Notification<S>|
                0 <= k < inputs.len() && (#[trigger] self.run(inputs.take(k)).emits(
                    inputs[k],
                ).contains(n)) && n.id == id implies n.tx == self.checkers[id].tx by {
                if k < inputs.len() - 1 {
                    assert(inputs.take(k) =~= before.take(k));
                    assert(inputs[k] == before[k]);
                    assert(self.run(before.take(k)).emits(before[k]).contains(n));
                } else {
                    assert(inputs.take(k) =~= before);
                }
            }
        }
    }

    // No premature completion

    /// One input leaves a pending condition of `id` pending, and `id`
    /// untold, unless the input settles the condition or starts the tracking
    /// of `id` anew.
    pub proof fn law_step_keeps_pending(
        self,
        input: Input<S>,
        id: InvocationId,
        pending: Condition,
    )
        requires
            self.is_live(id),
            self.checkers[id].conditions.contains(pending),
            !settles(input, pending),
            !self.accepts(input, id),
        ensures
            !self.tells(input, id),
            self.apply(input).is_live(id),
            self.apply(input).checkers[id].conditions.contains(pending),
    {
        match input {
            Input::Register(tx) => {
                assert(!self.tells(input, id));
            },
            Input::Signal(event) => {
                let mid = self.attribute(event);
                let i = choose|i: int|
                    0 <= i < self.checkers[id].conditions.len() && self.checkers[id].conditions[i]
                        == pending;
                assert(mid.is_live(id) && mid.checkers[id].conditions.len() > i
                    && mid.checkers[id].conditions[i] == pending);
                mid.checkers[id].law_unmet_condition_stays(event, pending);
                self.law_told_when_finished(event, id);
            },
        }
    }

    /// No premature completion. While a condition of `id` is pending and no
    /// input settles it, no message goes out for `id`: after every input
    /// `id` is still tracked and the condition still pending. This holds of
    /// each write that awaits its acknowledgment, of each peer message that
    /// awaits its outcome, and of the return.
    pub proof fn law_no_premature_completion(
        self,
        inputs: Seq<Input<S>>,
        id: InvocationId,
        pending: Condition,
    )
        requires
            self.is_live(id),
            self.checkers[id].conditions.contains(pending),
            forall|k: int| 0 <= k < inputs.len() ==> !settles(#[trigger] inputs[k], pending),
            !self.restarted(inputs, id),
        ensures
            forall|k: int|
                0 <= k < inputs.len() ==> !(#[trigger] self.run(inputs.take(k))).tells(
                    inputs[k],
                    id,
                ),
            self.answered(inputs, id) == 0,
            self.run(inputs).is_live(id),
            self.run(inputs).checkers[id].conditions.contains(pending),
        decreases inputs.len(),
    {
        if inputs.len() > 0 {
            let before = inputs.drop_last();
            self.law_no_premature_completion(before, id, pending);
            self.run(before).law_step_keeps_pending(inputs.last(), id, pending);
            assert forall|k: int| 0 <= k < inputs.len() implies !(#[trigger] self.run(
                inputs.take(k),
            )).tells(inputs[k], id) by {
                if k < inputs.len() - 1 {
                    assert(inputs.take(k) =~= before.take(k));
                    assert(inputs[k] == before[k]);
                } else {
                    assert(inputs.take(k) =~= before);
                }
            }
        }
    }

    // Peer round trip

    /// Peer round trip. A message that needs a round trip, sent while `id`
    /// is the attribution target, leaves `id` waiting for the outcome of
    /// that message: until a resolution or a timeout with the same message
    /// identifier arrives, no message goes out for `id`. A message of the
    /// other kind is attributed to nobody.
    pub proof fn law_peer_round_trip(
        self,
        id: InvocationId,
        msg_id: MessageId,
        inputs: Seq<Input<S>>,
    )
        requires
            self.current == Some(id),
            self.is_live(id),
            forall|k: int|
                0 <= k < inputs.len() ==> #[trigger] inputs[k] != Input::<S>::Signal(
                    Event::PeerMessageResolved { msg_id },
                ) && inputs[k] != Input::<S>::Signal(Event::PeerMessageTimedOut { msg_id }),
            !self.step(
                Event::PeerMessageSent { msg_id, kind: PeerMessageKind::RoundTrip },
            ).restarted(inputs, id),
        ensures
            ({
                let sent = Input::<S>::Signal(
                    Event::PeerMessageSent { msg_id, kind: PeerMessageKind::RoundTrip },
                );
                let next = self.apply(sent);
                &&& !self.tells(sent, id)
                &&& next.is_live(id)
                &&& next.checkers[id].conditions.contains(Condition::AwaitPeerOutcome { msg_id })
                &&& forall|k: int|
                    0 <= k < inputs.len() ==> !(#[trigger] next.run(inputs.take(k))).tells(
                        inputs[k],
                        id,
                    )
                &&& next.run(inputs).is_live(id)
            }),
            self.attribute(Event::PeerMessageSent { msg_id, kind: PeerMessageKind::OneWay })
                == self,
    {
        let awaited = Condition::AwaitPeerOutcome { msg_id };
        let event = Event::PeerMessageSent { msg_id, kind: PeerMessageKind::RoundTrip };
        let sent = Input::<S>::Signal(event);
        let mid = self.attribute(event);
        let grown = self.checkers[id].with(awaited).conditions;
        assert(grown[grown.len() - 1] == awaited);
        assert(mid.checkers[id].conditions.contains(awaited));
        mid.checkers[id].law_unmet_condition_stays(event, awaited);
        self.law_told_when_finished(event, id);
        assert forall|k: int| 0 <= k < inputs.len() implies !settles(
            #[trigger] inputs[k],
            awaited,
        ) by {
            if inputs[k] is Signal {
                let arrived = inputs[k]->Signal_0;
                assert(inputs[k] == Input::<S>::Signal(arrived));
            }
        }
        self.apply(sent).law_no_premature_completion(inputs, id, awaited);
    }

    // Untracked invocation isolation

    /// With no attribution target, a run that starts no tracking keeps the
    /// target absent and attributes nothing.
    proof fn lemma_quiet_run(self, inputs: Seq<Input<S>>)
        requires
            self.current is None,
            !self.any_accepted(inputs),
        ensures
            self.run(inputs).current is None,
            forall|k: int|
                0 <= k < inputs.len() ==> (#[trigger] self.run(inputs.take(k))).current is None,
            forall|k: int, event: Event|
                0 <= k < inputs.len() && inputs[k] == Input::<S>::Signal(event)
                    ==> #[trigger] self.run(inputs.take(k)).attribute(event) == self.run(
                    inputs.take(k),
                ),
        decreases inputs.len(),
    {
        if inputs.len() > 0 {
            let before = inputs.drop_last();
            self.lemma_quiet_run(before);
            let last = self.run(before);
            match inputs.last() {
                Input::Register(tx) => {},
                Input::Signal(event) => {
                    assert(last.attribute(event) =~= last);
                },
            }
            assert forall|k: int| 0 <= k < inputs.len() implies (#[trigger] self.run(
                inputs.take(k),
            )).current is None by {
                if k < inputs.len() - 1 {
                    assert(inputs.take(k) =~= before.take(k));
                } else {
                    assert(inputs.take(k) =~= before);
                }
            }
            assert forall|k: int, event: Event|
                0 <= k < inputs.len() && inputs[k] == Input::<S>::Signal(
                    event,
                ) implies #[trigger] self.run(inputs.take(k)).attribute(event) == self.run(
                inputs.take(k),
            ) by {
                if k < inputs.len() - 1 {
                    assert(inputs.take(k) =~= before.take(k));
                    assert(inputs[k] == before[k]);
                } else {
                    assert(inputs.take(k) =~= before);
                }
            }
        }
    }

    /// Untracked invocation isolation. The start of an invocation for which
    /// no handoff waits clears the attribution target and starts no
    /// tracking. From then on, until the tracking of some invocation
    /// starts, the target stays absent and no event is attributed to
    /// anybody, so no tracked invocation receives a condition. And as long
    /// as its own tracking is not started, the invocation is never told and
    /// never tracked.
    pub proof fn law_untracked_isolation(self, id: InvocationId, inputs: Seq<Input<S>>)
        requires
            self.intake is None,
        ensures
            ({
                let start = Event::InvocationStarted { id };
                let next = self.step(start);
                &&& next.current is None
                &&& next == (WaiterView { current: None, ..self }).evaluate(start)
                &&& !next.any_accepted(inputs) ==> {
                    &&& forall|k: int|
                        0 <= k < inputs.len() ==> (#[trigger] next.run(
                            inputs.take(k),
                        )).current is None
                    &&& forall|k: int, event: Event|
                        0 <= k < inputs.len() && inputs[k] == Input::<S>::Signal(event)
                            ==> #[trigger] next.run(inputs.take(k)).attribute(event) == next.run(
                            inputs.take(k),
                        )
                }
                &&& !self.is_live(id) && next.accepted(inputs, id) == 0 ==> {
                    &&& !self.tells(Input::Signal(start), id)
                    &&& next.answered(inputs, id) == 0
                    &&& !next.run(inputs).is_live(id)
                }
            }),
    {
        let start = Event::InvocationStarted { id };
        let next = self.step(start);
        if !next.any_accepted(inputs) {
            next.lemma_quiet_run(inputs);
        }
        if !self.is_live(id) && next.accepted(inputs, id) == 0 {
            self.law_told_when_finished(start, id);
            next.law_unstarted_stays_silent(inputs, id);
        }
    }

    // Concurrent independence

    /// One input keeps two trackers in agreement on `id`, and tells `id` in
    /// both or in neither.
    pub proof fn law_step_is_independent(self, other: Self, input: Input<S>, id: InvocationId)
        requires
            self.agrees_on(other, id),
        ensures
            self.apply(input).agrees_on(other.apply(input), id),
            self.tells(input, id) == other.tells(input, id),
    {
        match input {
            Input::Register(tx) => {
                assert(!self.tells(input, id));
                assert(!other.tells(input, id));
            },
            Input::Signal(event) => {
                assert(self.attribute(event).agrees_on(other.attribute(event), id));
                self.law_told_when_finished(event, id);
                other.law_told_when_finished(event, id);
            },
        }
    }

    /// Concurrent independence. What happens to an invocation depends on
    /// its own conditions and on the inputs, not on what else is tracked:
    /// two trackers that agree on `id` tell `id` at the same inputs and
    /// agree on it afterwards, whatever other invocations each of them
    /// tracks and however far those have come.
    pub proof fn law_concurrent_independence(
        self,
        other: Self,
        inputs: Seq<Input<S>>,
        id: InvocationId,
    )
        requires
            self.agrees_on(other, id),
        ensures
            self.run(inputs).agrees_on(other.run(inputs), id),
            self.answered(inputs, id) == other.answered(inputs, id),
            forall|k: int|
                0 <= k < inputs.len() ==> (#[trigger] self.run(inputs.take(k))).tells(inputs[k], id)
                    == other.run(inputs.take(k)).tells(inputs[k], id),
        decreases inputs.len(),
    {
        if inputs.len() > 0 {
            let before = inputs.drop_last();
            self.law_concurrent_independence(other, before, id);
            self.run(before).law_step_is_independent(other.run(before), inputs.last(), id);
            assert forall|k: int| 0 <= k < inputs.len() implies (#[trigger] self.run(
                inputs.take(k),
            )).tells(inputs[k], id) == other.run(inputs.take(k)).tells(inputs[k], id) by {
                if k < inputs.len() - 1 {
                    assert(inputs.take(k) =~= before.take(k));
                    assert(inputs[k] == before[k]);
                } else {
                    assert(inputs.take(k) =~= before);
                }
            }
        }
    }
}

} // verus!
