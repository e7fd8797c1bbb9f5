use crate::checker::{CallFxChecker, CheckerView, ControlMsg};
use crate::condition::Condition;
use crate::event::{Event, InvocationId, PeerMessageKind};
use std::collections::HashMap;
use vstd::prelude::*;
use vstd::std_specs::iter::IteratorSpec;

verus! {

broadcast use vstd::std_specs::hash::group_hash_axioms;

/// One message to deliver: `msg` goes out on `tx`, the handle that was handed
/// in for the invocation `id`.
#[derive(Debug, PartialEq, Eq)]
pub struct Notification<S> {
    /// The invocation whose tracking ended.
    pub id: InvocationId,
    /// The handle of the consumer that waits for it.
    pub tx: S,
    /// What the consumer is told.
    pub msg: ControlMsg,
}

/// The mathematical content of a [`Waiter`].
#[verifier::ext_equal]
pub struct WaiterView<S> {
    /// The tracked invocations, each with its pending conditions.
    pub checkers: Map<InvocationId, CheckerView<S>>,
    /// The invocation to which writes and peer messages are attributed.
    pub current: Option<InvocationId>,
    /// The handoff that the next invocation start will consume.
    pub intake: Option<S>,
}

impl<S> WaiterView<S> {
    /// A tracker that tracks nothing and holds no handoff.
    pub open spec fn empty() -> Self {
        WaiterView { checkers: Map::empty(), current: None, intake: None }
    }

    /// Whether the invocation `id` is tracked.
    pub open spec fn is_live(self, id: InvocationId) -> bool {
        self.checkers.contains_key(id)
    }

    /// What every reachable tracker satisfies: an invocation is tracked only
    /// while something is pending for it, and the attribution target, if
    /// there is one, is tracked.
    pub open spec fn wf(self) -> bool {
        &&& forall|id: InvocationId| #[trigger]
            self.is_live(id) ==> self.checkers[id].conditions.len() > 0
        &&& self.current matches Some(id) ==> self.is_live(id)
    }

    /// The tracker once `tx` was offered as a handoff: it is taken if the
    /// intake is free, and otherwise nothing changes.
    pub open spec fn offer(self, tx: S) -> Self {
        if self.intake is None {
            WaiterView { intake: Some(tx), ..self }
        } else {
            self
        }
    }

    /// The tracker with `condition` added to the attribution target, if
    /// there is a tracked one.
    pub open spec fn attach(self, condition: Condition) -> Self {
        match self.current {
            Some(id) if self.is_live(id) => WaiterView {
                checkers: self.checkers.insert(id, self.checkers[id].with(condition)),
                ..self
            },
            _ => self,
        }
    }

    /// The first phase of a step: what `event` changes before any condition
    /// is tested.
    pub open spec fn attribute(self, event: Event) -> Self {
        match event {
            Event::InvocationStarted { id } => match self.intake {
                Some(tx) => WaiterView {
                    checkers: self.checkers.insert(
                        id,
                        CheckerView::fresh(tx).with(Condition::AwaitReturn { id }),
                    ),
                    current: Some(id),
                    intake: None,
                },
                None => WaiterView { current: None, ..self },
            },
            Event::RecordWritten { record } => self.attach(Condition::AwaitDurable { record }),
            Event::PeerMessageSent { msg_id, kind } => match kind {
                PeerMessageKind::RoundTrip => self.attach(Condition::AwaitPeerOutcome { msg_id }),
                PeerMessageKind::OneWay => self,
            },
            _ => self,
        }
    }

    /// Whether testing `event` ends the tracking of `id`.
    pub open spec fn finishes(self, id: InvocationId, event: Event) -> bool {
        self.is_live(id) && self.checkers[id].finishes(event)
    }

    /// The messages that testing `event` against every tracked invocation
    /// produces: one `Completed` for each invocation that it finishes.
    pub open spec fn completions(self, event: Event) -> Set<Notification<S>> {
        Set::new(
            |n: Notification<S>|
                self.finishes(n.id, event) && n.tx == self.checkers[n.id].tx && n.msg
                    == ControlMsg::Completed,
        )
    }

    /// The second phase of a step: `event` is tested against every tracked
    /// invocation, not only the attribution target, and those that it
    /// finishes are no longer tracked.
    pub open spec fn evaluate(self, event: Event) -> Self {
        let checkers = Map::new(
            |id: InvocationId| self.is_live(id) && !self.finishes(id, event),
            |id: InvocationId| self.checkers[id].after(event),
        );
        WaiterView {
            checkers,
            current: match self.current {
                Some(id) if checkers.contains_key(id) => Some(id),
                _ => None,
            },
            intake: self.intake,
        }
    }

    /// The tracker after `event`.
    pub open spec fn step(self, event: Event) -> Self {
        self.attribute(event).evaluate(event)
    }

    /// The messages that `event` produces.
    pub open spec fn notified(self, event: Event) -> Set<Notification<S>> {
        self.attribute(event).completions(event)
    }

    /// The messages that a shutdown produces: one `ForcedCompletion` for
    /// each tracked invocation.
    pub open spec fn forced(self) -> Set<Notification<S>> {
        Set::new(
            |n: Notification<S>|
                self.is_live(n.id) && n.tx == self.checkers[n.id].tx && n.msg
                    == ControlMsg::ForcedCompletion,
        )
    }

    /// The tracker after a shutdown: nothing is tracked any more.
    pub open spec fn shut_down(self) -> Self {
        WaiterView { checkers: Map::empty(), current: None, intake: self.intake }
    }

    /// An event keeps a tracker well-formed, and so does a shutdown: an
    /// invocation whose last condition is met leaves at once, and the
    /// attribution target never outlives its tracking.
    pub proof fn law_invariants_kept(self, event: Event)
        requires
            self.wf(),
        ensures
            self.step(event).wf(),
            self.shut_down().wf(),
    {
        let mid = self.attribute(event);
        assert forall|id: InvocationId| #[trigger] mid.is_live(id) implies mid.checkers[id]
            .conditions.len() > 0 by {
            if self.is_live(id) {
            }
        }
        let next = mid.evaluate(event);
        assert forall|id: InvocationId| #[trigger] next.is_live(id) implies next.checkers[id]
            .conditions.len() > 0 by {
            assert(mid.is_live(id));
        }
    }

    /// A handoff keeps a tracker well-formed.
    pub proof fn law_offer_keeps_invariants(self, tx: S)
        requires
            self.wf(),
        ensures
            self.offer(tx).wf(),
    {
        let offered = self.offer(tx);
        assert forall|id: InvocationId| #[trigger] offered.is_live(id) implies offered.checkers[id]
            .conditions.len() > 0 by {
            assert(self.is_live(id));
        }
    }
}

/// Appending `x` adds `x` to what a sequence contains, and nothing else.
proof fn lemma_push_contains(s: Seq<InvocationId>, x: InvocationId)
    ensures
        forall|y: InvocationId| #[trigger] s.push(x).contains(y) <==> s.contains(y) || y == x,
{
    assert forall|y: InvocationId| #[trigger] s.push(x).contains(y) <==> s.contains(y) || y
        == x by {
        if s.push(x).contains(y) {
            let j = choose|j: int| 0 <= j < s.push(x).len() && s.push(x)[j] == y;
            if j < s.len() {
                assert(s[j] == y);
            }
        }
        if s.contains(y) {
            let j = choose|j: int| 0 <= j < s.len() && s[j] == y;
            assert(s.push(x)[j] == y);
        }
        if y == x {
            assert(s.push(x)[s.len() as int] == x);
        }
    }
}

/// Whether `out` holds exactly the messages of `due` that are for the
/// invocations in `seen`, and no two for one invocation.
spec fn collects<S>(
    out: Seq<Notification<S>>,
    seen: Seq<InvocationId>,
    due: Set<Notification<S>>,
) -> bool {
    &&& forall|n: Notification<S>| #[trigger]
        out.contains(n) <==> seen.contains(n.id) && due.contains(n)
    &&& forall|a: int, b: int| 0 <= a < b < out.len() ==> out[a].id != out[b].id
}

/// Going on to the invocation `id`, for which nothing is due, collects
/// nothing more.
proof fn lemma_collects_none<S>(
    out: Seq<Notification<S>>,
    seen: Seq<InvocationId>,
    due: Set<Notification<S>>,
    id: InvocationId,
)
    requires
        collects(out, seen, due),
        forall|n: Notification<S>| due.contains(n) ==> n.id != id,
    ensures
        collects(out, seen.push(id), due),
{
    lemma_push_contains(seen, id);
}

/// Going on to the invocation of `note`, the one message due for it,
/// collects `note`.
proof fn lemma_collects_one<S>(
    out: Seq<Notification<S>>,
    seen: Seq<InvocationId>,
    due: Set<Notification<S>>,
    note: Notification<S>,
)
    requires
        collects(out, seen, due),
        !seen.contains(note.id),
        due.contains(note),
        forall|n: Notification<S>| due.contains(n) && n.id == note.id ==> n == note,
    ensures
        collects(out.push(note), seen.push(note.id), due),
{
    lemma_push_contains(seen, note.id);
    let grown = out.push(note);
    assert forall|n: Notification<S>| #[trigger]
        grown.contains(n) <==> seen.push(note.id).contains(n.id) && due.contains(n) by {
        if grown.contains(n) {
            let k = choose|k: int| 0 <= k < grown.len() && grown[k] == n;
            if k < out.len() {
                assert(out[k] == n);
                assert(out.contains(n));
            }
        }
        if seen.push(note.id).contains(n.id) && due.contains(n) {
            if n.id == note.id {
                assert(grown[out.len() as int] == n);
            } else {
                assert(out.contains(n));
                let k = choose|k: int| 0 <= k < out.len() && out[k] == n;
                assert(grown[k] == n);
            }
        }
    }
    assert forall|a: int, b: int| 0 <= a < b < grown.len() implies grown[a].id != grown[b].id by {
        assert(grown[a] == out[a]);
        assert(out.contains(out[a]));
        if b < out.len() {
            assert(grown[b] == out[b]);
        }
    }
}

/// Once every invocation with a message due is seen, everything due is
/// collected, each message once.
proof fn lemma_collects_all<S>(
    out: Seq<Notification<S>>,
    seen: Seq<InvocationId>,
    due: Set<Notification<S>>,
)
    requires
        collects(out, seen, due),
        forall|n: Notification<S>| due.contains(n) ==> seen.contains(n.id),
    ensures
        out.no_duplicates(),
        out.to_set() == due,
{
    assert(out.to_set() =~= due);
}

/// Tracks, for each registered invocation, the side effects that are still
/// pending, and decides from the event stream when its consumer is told.
///
/// A consumer registers by handing in a handle `S` before its invocation
/// starts. The tracker never uses a handle: it returns it with the message to
/// deliver, and the caller delivers.
pub struct Waiter<S> {
    checkers: HashMap<InvocationId, CallFxChecker<S>>,
    current: Option<InvocationId>,
    intake: Option<S>,
}

impl<S> View for Waiter<S> {
    type V = WaiterView<S>;

    closed spec fn view(&self) -> WaiterView<S> {
        WaiterView {
            checkers: self.checkers@.map_values(|checker: CallFxChecker<S>| checker@),
            current: self.current,
            intake: self.intake,
        }
    }
}

impl<S> Waiter<S> {
    /// A tracker that tracks nothing and holds no handoff.
    pub fn new() -> (waiter: Self)
        ensures
            waiter@ == WaiterView::<S>::empty(),
            waiter@.wf(),
    {
        let waiter = Waiter { checkers: HashMap::new(), current: None, intake: None };
        assert(waiter@ =~= WaiterView::<S>::empty());
        waiter
    }

    /// Offers `tx` as the handoff for the next invocation start. The intake
    /// holds one handoff: while it is taken, `tx` comes back in `Err` and
    /// nothing changes.
    pub fn register(&mut self, tx: S) -> (taken: Result<(), S>)
        ensures
            final(self)@ == old(self)@.offer(tx),
            taken is Ok <==> old(self)@.intake is None,
            taken matches Err(back) ==> back == tx,
            old(self)@.wf() ==> final(self)@.wf(),
    {
        proof {
            if old(self)@.wf() {
                old(self)@.law_offer_keeps_invariants(tx);
            }
        }
        if self.intake.is_some() {
            Err(tx)
        } else {
            self.intake = Some(tx);
            Ok(())
        }
    }

    /// How many invocations are tracked.
    pub fn len(&self) -> (n: usize)
        ensures
            n == self@.checkers.dom().len(),
    {
        assert(self@.checkers.dom() =~= self.checkers@.dom());
        self.checkers.len()
    }

    /// Whether the invocation `id` is tracked.
    pub fn is_live(&self, id: InvocationId) -> (live: bool)
        ensures
            live == self@.is_live(id),
    {
        self.checkers.contains_key(&id)
    }

    /// The checker of the invocation `id`, if it is tracked.
    pub fn checker(&self, id: InvocationId) -> (found: Option<&CallFxChecker<S>>)
        ensures
            found matches Some(checker) ==> self@.is_live(id) && checker@ == self@.checkers[id],
            found is None ==> !self@.is_live(id),
    {
        self.checkers.get(&id)
    }

    /// The invocation to which writes and peer messages are attributed.
    pub fn current(&self) -> (current: Option<InvocationId>)
        ensures
            current == self@.current,
    {
        self.current
    }

    /// Whether a handoff should be offered before `sig` is processed: `sig`
    /// starts an invocation and the intake is free.
    pub fn wants_handoff(&self, sig: &Event) -> (wanted: bool)
        ensures
            wanted == (*sig is InvocationStarted && self@.intake is None),
    {
        match sig {
            Event::InvocationStarted { .. } => self.intake.is_none(),
            _ => false,
        }
    }

    /// Processes one event of the stream: first attributes it, then tests it
    /// against every tracked invocation. Returns one message for each
    /// invocation that the event finishes, in no particular order.
    pub fn process_signal(&mut self, sig: Event) -> (out: Vec<Notification<S>>)
        ensures
            final(self)@ == old(self)@.step(sig),
            out@.no_duplicates(),
            out@.to_set() == old(self)@.notified(sig),
            old(self)@.wf() ==> final(self)@.wf(),
    {
        proof {
            if old(self)@.wf() {
                old(self)@.law_invariants_kept(sig);
            }
        }
        match sig {
            Event::InvocationStarted { id } => {
                match self.intake.take() {
                    Some(tx) => {
                        self.add_call(id, tx);
                    },
                    None => {
                        self.deactivate_current();
                    },
                }
            },
            Event::RecordWritten { record } => {
                self.add_to_current(Condition::AwaitDurable { record });
            },
            Event::PeerMessageSent { msg_id, kind } => {
                match kind {
                    PeerMessageKind::RoundTrip => {
                        self.add_to_current(Condition::AwaitPeerOutcome { msg_id });
                    },
                    PeerMessageKind::OneWay => {},
                }
            },
            _ => {},
        }
        self.run_checks(&sig)
    }

    /// Ends the tracking of every invocation. Returns one forced message for
    /// each, in no particular order.
    pub fn shutdown(&mut self) -> (out: Vec<Notification<S>>)
        ensures
            final(self)@ == old(self)@.shut_down(),
            out@.no_duplicates(),
            out@.to_set() == old(self)@.forced(),
            final(self)@.wf(),
    {
        let ghost pre = self@;
        let ids = self.live_ids();
        let mut out: Vec<Notification<S>> = Vec::new();
        let mut i: usize = 0;
        while i < ids.len()
            invariant
                ids@.no_duplicates(),
                ids@.to_set() == pre.checkers.dom(),
                i <= ids.len(),
                self.intake == pre.intake,
                forall|id: InvocationId|
                    #![trigger self.checkers@.contains_key(id)]
                    #![trigger pre.is_live(id)]
                    self.checkers@.contains_key(id) <==> pre.is_live(id) && !ids@.take(
                        i as int,
                    ).contains(id),
                forall|id: InvocationId| #[trigger]
                    self.checkers@.contains_key(id) ==> self.checkers@[id]@ == pre.checkers[id],
                collects(out@, ids@.take(i as int), pre.forced()),
            decreases ids.len() - i,
        {
            let id = ids[i];
            let ghost seen = ids@.take(i as int);
            proof {
                assert(ids@.take(i + 1) =~= seen.push(id));
                assert(ids@.to_set().contains(ids@[i as int]));
                lemma_push_contains(seen, id);
            }
            match self.checkers.remove(&id) {
                Some(mut checker) => {
                    let msg = checker.shutdown();
                    let tx = checker.into_sender();
                    let note = Notification { id, tx, msg };
                    proof {
                        lemma_collects_one(out@, seen, pre.forced(), note);
                    }
                    out.push(note);
                },
                None => {},
            }
            i += 1;
        }
        self.current = None;
        proof {
            assert(ids@.take(ids.len() as int) =~= ids@);
            assert forall|id: InvocationId| pre.is_live(id) implies ids@.contains(id) by {
                assert(ids@.to_set().contains(id));
            }
            assert(self@.checkers =~= Map::<InvocationId, CheckerView<S>>::empty());
            lemma_collects_all(out@, ids@, pre.forced());
        }
        out
    }

    /// The identifiers of the tracked invocations, each once.
    fn live_ids(&self) -> (ids: Vec<InvocationId>)
        ensures
            ids@.no_duplicates(),
            ids@.to_set() == self@.checkers.dom(),
    {
        let mut ids: Vec<InvocationId> = Vec::new();
        let ghost all = IteratorSpec::remaining(
            &vstd::std_specs::hash::spec_keys_iter(&self.checkers),
        ).unref();
        for key in it: self.checkers.keys()
            invariant
                it.seq().unref() == all,
                ids@ == all.take(it.index()),
        {
            ids.push(*key);
        }
        assert(ids@ =~= all);
        assert(self@.checkers.dom() =~= self.checkers@.dom());
        ids
    }

    /// Starts tracking `id` for the consumer behind `tx` and makes it the
    /// attribution target. A tracked invocation of the same `id` is replaced.
    fn add_call(&mut self, id: InvocationId, tx: S)
        ensures
            final(self)@ == (WaiterView {
                checkers: old(self)@.checkers.insert(
                    id,
                    CheckerView::fresh(tx).with(Condition::AwaitReturn { id }),
                ),
                current: Some(id),
                intake: old(self)@.intake,
            }),
    {
        let mut checker = CallFxChecker::new(tx);
        checker.add(Condition::AwaitReturn { id });
        self.checkers.insert(id, checker);
        self.current = Some(id);
        assert(self@.checkers =~= old(self)@.checkers.insert(
            id,
            CheckerView::fresh(tx).with(Condition::AwaitReturn { id }),
        ));
    }

    /// Leaves writes and peer messages unattributed until the next tracked
    /// invocation starts.
    fn deactivate_current(&mut self)
        ensures
            final(self)@ == (WaiterView { current: None, ..old(self)@ }),
    {
        self.current = None;
    }

    /// Adds `condition` to the attribution target, if it is tracked.
    fn add_to_current(&mut self, condition: Condition)
        ensures
            final(self)@ == old(self)@.attach(condition),
    {
        match self.current {
            Some(id) => {
                match self.checkers.remove(&id) {
                    Some(mut checker) => {
                        checker.add(condition);
                        self.checkers.insert(id, checker);
                        assert(self@.checkers =~= old(self)@.attach(condition).checkers);
                    },
                    None => {
                        assert(self@.checkers =~= old(self)@.checkers);
                    },
                }
            },
            None => {},
        }
    }

    /// Tests `event` against every tracked invocation and stops tracking
    /// those that it finishes.
    fn run_checks(&mut self, event: &Event) -> (out: Vec<Notification<S>>)
        ensures
            final(self)@ == old(self)@.evaluate(*event),
            out@.no_duplicates(),
            out@.to_set() == old(self)@.completions(*event),
    {
        let ghost pre = self@;
        let ids = self.live_ids();
        let mut out: Vec<Notification<S>> = Vec::new();
        let mut i: usize = 0;
        while i < ids.len()
            invariant
                ids@.no_duplicates(),
                ids@.to_set() == pre.checkers.dom(),
                i <= ids.len(),
                self.current == pre.current,
                self.intake == pre.intake,
                forall|id: InvocationId|
                    #![trigger self.checkers@.contains_key(id)]
                    #![trigger pre.is_live(id)]
                    self.checkers@.contains_key(id) <==> pre.is_live(id) && !(ids@.take(
                        i as int,
                    ).contains(id) && pre.finishes(id, *event)),
                forall|id: InvocationId| #[trigger]
                    self.checkers@.contains_key(id) ==> self.checkers@[id]@ == if ids@.take(
                        i as int,
                    ).contains(id) {
                        pre.checkers[id].after(*event)
                    } else {
                        pre.checkers[id]
                    },
                collects(out@, ids@.take(i as int), pre.completions(*event)),
            decreases ids.len() - i,
        {
            let id = ids[i];
            let ghost seen = ids@.take(i as int);
            proof {
                assert(ids@.take(i + 1) =~= seen.push(id));
                assert(ids@.to_set().contains(ids@[i as int]));
                lemma_push_contains(seen, id);
            }
            match self.checkers.remove(&id) {
                Some(mut checker) => {
                    match checker.run_checks(event) {
                        Some(msg) => {
                            let tx = checker.into_sender();
                            let note = Notification { id, tx, msg };
                            proof {
                                lemma_collects_one(out@, seen, pre.completions(*event), note);
                            }
                            out.push(note);
                        },
                        None => {
                            proof {
                                lemma_collects_none(out@, seen, pre.completions(*event), id);
                            }
                            self.checkers.insert(id, checker);
                        },
                    }
                },
                None => {},
            }
            i += 1;
        }
        match self.current {
            Some(id) => {
                if !self.checkers.contains_key(&id) {
                    self.current = None;
                }
            },
            None => {},
        }
        proof {
            assert(ids@.take(ids.len() as int) =~= ids@);
            assert forall|id: InvocationId| pre.is_live(id) implies ids@.contains(id) by {
                assert(ids@.to_set().contains(id));
            }
            assert(self@.checkers =~= pre.evaluate(*event).checkers);
            lemma_collects_all(out@, ids@, pre.completions(*event));
        }
        out
    }
}

} // verus!
