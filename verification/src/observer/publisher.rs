//! Publishers: priority-ordered collections of subscribers.

use super::marks::{guard_marks, marked_ids, marks_mut};
use super::priority::Priority;
use super::subscriber::{Subscriber, Subscription};
use parking_lot::Mutex;
use std::collections::HashSet;
use vstd::prelude::*;

verus! {

/// One subscriber as a publisher holds it: with the id it was given and the
/// priority it had when it subscribed.
pub struct Registration<S> {
    pub subscriber: S,
    pub id: u64,
    pub priority: Priority,
}

/// `a` is notified before `b`: its priority precedes, or the priorities are
/// equal and `a` subscribed first.
pub open spec fn notified_before<S>(a: Registration<S>, b: Registration<S>) -> bool {
    a.priority.precedes(b.priority) || (a.priority == b.priority && a.id < b.id)
}

/// Each registration is notified before all that follow it.
pub open spec fn in_dispatch_order<S>(regs: Seq<Registration<S>>) -> bool {
    forall|i: int, j: int| 0 <= i < j < regs.len() ==> notified_before(regs[i], regs[j])
}

/// No id occurs twice.
pub open spec fn distinct_ids<S>(regs: Seq<Registration<S>>) -> bool {
    forall|i: int, j: int|
        0 <= i < regs.len() && 0 <= j < regs.len() && i != j ==> regs[i].id != regs[j].id
}

/// Some registration has this id.
pub open spec fn has_id<S>(regs: Seq<Registration<S>>, id: u64) -> bool {
    exists|i: int| 0 <= i < regs.len() && regs[i].id == id
}

/// What holds of the registrations of every publisher whose next id is
/// `next_id`: they stand in dispatch order, their ids are distinct, and each
/// id is at least 1 and was issued already.
pub open spec fn well_formed<S>(regs: Seq<Registration<S>>, next_id: u64) -> bool {
    &&& 1 <= next_id
    &&& in_dispatch_order(regs)
    &&& distinct_ids(regs)
    &&& forall|i: int| 0 <= i < regs.len() ==> 1 <= #[trigger] regs[i].id < next_id
}

/// The place of a new registration of priority `p`: behind every registration
/// whose priority `p` does not precede, that is at the tail of its own bucket.
pub open spec fn slot<S>(regs: Seq<Registration<S>>, p: Priority) -> int
    decreases regs.len(),
{
    if regs.len() == 0 || p.precedes(regs[0].priority) {
        0
    } else {
        1 + slot(regs.drop_first(), p)
    }
}

/// The registrations with `reg` put in at its place.
pub open spec fn inserted<S>(regs: Seq<Registration<S>>, reg: Registration<S>) -> Seq<
    Registration<S>,
> {
    regs.insert(slot(regs, reg.priority), reg)
}

/// The registrations whose id is not in `ids`, in their order.
pub open spec fn without<S>(regs: Seq<Registration<S>>, ids: Set<u64>) -> Seq<Registration<S>>
    decreases regs.len(),
{
    if regs.len() == 0 {
        regs
    } else if ids.contains(regs.last().id) {
        without(regs.drop_last(), ids)
    } else {
        without(regs.drop_last(), ids).push(regs.last())
    }
}

/// The registrations of priority `p`, in their order: the bucket of `p`.
pub open spec fn bucket<S>(regs: Seq<Registration<S>>, p: Priority) -> Seq<Registration<S>>
    decreases regs.len(),
{
    if regs.len() == 0 {
        regs
    } else if regs.last().priority == p {
        bucket(regs.drop_last(), p).push(regs.last())
    } else {
        bucket(regs.drop_last(), p)
    }
}

/// How one pass over a registration changes the set of dead ids from `before`
/// to `after`. A dead registration is passed over and stays dead. A live one
/// is handed `data`, and is dead afterwards exactly if it answered
/// `Unsubscribe`.
pub open spec fn answered<S: Subscriber>(
    reg: Registration<S>,
    data: &S::Data,
    before: Set<u64>,
    after: Set<u64>,
) -> bool {
    if before.contains(reg.id) {
        after.contains(reg.id)
    } else {
        exists|answer: Subscription| #[trigger]
            call_ensures(S::handle_event, (&reg.subscriber, data), answer) && (after.contains(
                reg.id,
            ) <==> answer == Subscription::Unsubscribe)
    }
}

/// How one notification pass over `regs` changes the set of dead ids: every
/// registration was `answered`, and no other id was touched.
pub open spec fn notified<S: Subscriber>(
    regs: Seq<Registration<S>>,
    data: &S::Data,
    before: Set<u64>,
    after: Set<u64>,
) -> bool {
    &&& forall|i: int| 0 <= i < regs.len() ==> answered(#[trigger] regs[i], data, before, after)
    &&& forall|id: u64| !has_id(regs, id) ==> (after.contains(id) <==> before.contains(id))
}

/// A publisher notifies its subscribers of events, by priority and, within a
/// priority, in the order in which they subscribed.
pub struct Publisher<S: Subscriber> {
    /// The subscribers, in dispatch order.
    registered: Vec<Registration<S>>,
    /// Ids that are marked dead and not yet removed. The set has a lock of
    /// its own; an operation that holds the publisher exclusively reaches it
    /// without locking.
    dead_subscribers: Mutex<HashSet<u64>>,
    /// The id that the next subscriber gets.
    next_id: u64,
}

impl<S: Subscriber> Publisher<S> {
    /// The registrations, in dispatch order. Those marked dead are among them
    /// until `maintain` removes them.
    pub closed spec fn registrations(&self) -> Seq<Registration<S>> {
        self.registered@
    }

    /// The ids that are marked dead.
    pub closed spec fn dead(&self) -> Set<u64> {
        marked_ids(self.dead_subscribers)
    }

    /// The id that the next subscriber gets.
    pub closed spec fn next_id(&self) -> u64 {
        self.next_id
    }

    /// The registrations that are not marked dead, in dispatch order. A
    /// notification pass goes through them by `next_live`.
    pub open spec fn live(&self) -> Seq<Registration<S>> {
        without(self.registrations(), self.dead())
    }

    /// The publisher's registrations are well formed, and only ids that were
    /// issued are marked dead. This holds of a new publisher, and every
    /// operation keeps it.
    pub open spec fn wf(&self) -> bool {
        &&& well_formed(self.registrations(), self.next_id())
        &&& forall|id: u64| #[trigger] self.dead().contains(id) ==> 1 <= id < self.next_id()
    }

    /// The number of registrations.
    pub open spec fn spec_len(&self) -> usize {
        self.registrations().len() as usize
    }

    /// `after` is this publisher with `listener` subscribed at `priority`:
    /// the listener has the next id and stands at the tail of its bucket.
    pub open spec fn subscribed(&self, listener: S, priority: Priority, after: Self) -> bool {
        &&& after.registrations() == inserted(
            self.registrations(),
            Registration { subscriber: listener, id: self.next_id(), priority },
        )
        &&& after.dead() == self.dead()
        &&& after.next_id() == self.next_id() + 1
    }

    /// Creates a publisher without subscribers. Its first id is 1.
    #[inline]
    pub fn new() -> (publisher: Self)
        ensures
            publisher.wf(),
            publisher.registrations() == Seq::<Registration<S>>::empty(),
            publisher.dead() == Set::<u64>::empty(),
            publisher.next_id() == 1,
    {
        Self { registered: Vec::new(), dead_subscribers: guard_marks(HashSet::new()), next_id: 1 }
    }

    /// The id that the next subscriber gets. While it is below `u64::MAX`
    /// there is an id left to give.
    #[inline]
    pub fn upcoming_id(&self) -> (id: u64)
        ensures
            id == self.next_id(),
    {
        self.next_id
    }

    /// Subscribes `listener` at the priority it reports, and returns its id.
    ///
    /// The listener is notified after all subscribers of the same priority
    /// that subscribed before it.
    #[inline]
    pub fn subscribe(&mut self, listener: S) -> (id: u64)
        requires
            old(self).wf(),
            old(self).next_id() < u64::MAX,
        ensures
            final(self).wf(),
            id == old(self).next_id(),
            exists|priority: Priority| #[trigger]
                call_ensures(S::priority, (&listener,), priority) && old(self).subscribed(
                    listener,
                    priority,
                    *final(self),
                ),
    {
        let priority = listener.priority();
        self.subscribe_at(listener, priority)
    }

    /// Subscribes `listener` at `priority`, whatever priority it reports
    /// itself, and returns its id.
    pub fn subscribe_at(&mut self, listener: S, priority: Priority) -> (id: u64)
        requires
            old(self).wf(),
            old(self).next_id() < u64::MAX,
        ensures
            final(self).wf(),
            id == old(self).next_id(),
            old(self).subscribed(listener, priority, *final(self)),
    {
        let id = self.next_id;
        let at = self.slot_of(priority);
        proof {
            lemma_inserted_well_formed(
                self.registered@,
                Registration { subscriber: listener, id, priority },
                self.next_id,
            );
        }
        self.next_id = id + 1;
        self.registered.insert(at, Registration { subscriber: listener, id, priority });
        assert(self.dead() == old(self).dead());
        id
    }

    /// Finds the place of a new registration of priority `p`, by bisection.
    fn slot_of(&self, p: Priority) -> (at: usize)
        requires
            in_dispatch_order(self.registered@),
        ensures
            at == slot(self.registered@, p),
            at <= self.registered@.len(),
    {
        proof {
            lemma_slot(self.registered@, p);
        }
        let mut low: usize = 0;
        let mut high: usize = self.registered.len();
        while low < high
            invariant
                low <= slot(self.registered@, p) <= high <= self.registered@.len(),
                forall|i: int|
                    0 <= i < slot(self.registered@, p) ==> !p.precedes(
                        #[trigger] self.registered@[i].priority,
                    ),
                forall|i: int|
                    slot(self.registered@, p) <= i < self.registered@.len() ==> p.precedes(
                        #[trigger] self.registered@[i].priority,
                    ),
            decreases high - low,
        {
            let middle = low + (high - low) / 2;
            if p < self.registered[middle].priority {
                high = middle;
            } else {
                low = middle + 1;
            }
        }
        low
    }

    /// Returns the number of subscribers, those marked dead and not yet
    /// removed among them.
    #[inline]
    #[verifier::when_used_as_spec(spec_len)]
    pub fn len(&self) -> (n: usize)
        ensures
            n == self.registrations().len(),
            n == self.spec_len(),
    {
        self.registered.len()
    }

    /// Returns `true` if there are no subscribers, that is if `len()` is 0.
    #[inline]
    pub fn is_empty(&self) -> (empty: bool)
        ensures
            empty <==> self.len() == 0,
            empty <==> self.registrations().len() == 0,
    {
        self.registered.len() == 0
    }

    /// Removes the subscriber with id `listener_id` at once. Does nothing if
    /// no subscriber has that id. The set of dead ids is left as it is.
    #[inline]
    pub fn unsubscribe(&mut self, listener_id: u64)
        requires
            old(self).wf(),
        ensures
            final(self).wf(),
            final(self).registrations() == without(old(self).registrations(), set![listener_id]),
            final(self).dead() == old(self).dead(),
            final(self).next_id() == old(self).next_id(),
    {
        let ghost before = self.registered@;
        let mut all: Vec<Registration<S>> = Vec::new();
        std::mem::swap(&mut self.registered, &mut all);
        let mut kept: Vec<Registration<S>> = Vec::new();
        for reg in it: all
            invariant
                it.seq() == before,
                kept@ == without(before.take(it.index() as int), set![listener_id]),
        {
            proof {
                let upto = before.take(it.index() + 1);
                assert(upto.drop_last() == before.take(it.index() as int));
                assert(upto.last() == reg);
            }
            if reg.id != listener_id {
                kept.push(reg);
            }
        }
        proof {
            assert(before.take(before.len() as int) == before);
            lemma_without(before, set![listener_id], self.next_id);
        }
        self.registered = kept;
        assert(self.dead() == old(self).dead());
    }

    /// Tells whether a subscriber with this id is registered.
    fn is_registered(&self, id: u64) -> (known: bool)
        ensures
            known == has_id(self.registered@, id),
    {
        let n = self.registered.len();
        let mut i: usize = 0;
        while i < n
            invariant
                n == self.registered@.len(),
                i <= n,
                forall|j: int| 0 <= j < i ==> self.registered@[j].id != id,
            decreases n - i,
        {
            if self.registered[i].id == id {
                return true;
            }
            i += 1;
        }
        false
    }

    /// Marks the subscriber with this id dead: it gets no further events, and
    /// the next `maintain` removes it. Marking twice is marking once. An id
    /// that no subscriber has is ignored: nothing is recorded for it, so a
    /// subscriber is never dead when it subscribes.
    pub fn mark_for_unsubscribe(&mut self, id: u64)
        requires
            old(self).wf(),
        ensures
            final(self).wf(),
            final(self).dead() == if has_id(old(self).registrations(), id) {
                old(self).dead().insert(id)
            } else {
                old(self).dead()
            },
            final(self).registrations() == old(self).registrations(),
            final(self).next_id() == old(self).next_id(),
    {
        if self.is_registered(id) {
            proof {
                let i = choose|i: int| 0 <= i < self.registered@.len() && self.registered@[i].id == id;
                assert(1 <= self.registered@[i].id < self.next_id);
            }
            marks_mut(&mut self.dead_subscribers).insert(id);
            assert forall|other: u64| #[trigger] self.dead().contains(other) implies 1 <= other
                < self.next_id() by {
                if other != id {
                    assert(old(self).dead().contains(other));
                }
            }
        }
    }

    /// Acts on the answer that the subscriber with this id gave to an event:
    /// marks it dead if the answer is `Unsubscribe`, and does nothing if it
    /// is `Keep`. An id that no subscriber has is ignored.
    pub fn heed(&mut self, id: u64, answer: Subscription)
        requires
            old(self).wf(),
        ensures
            final(self).wf(),
            final(self).dead() == if answer == Subscription::Unsubscribe && has_id(
                old(self).registrations(),
                id,
            ) {
                old(self).dead().insert(id)
            } else {
                old(self).dead()
            },
            final(self).registrations() == old(self).registrations(),
            final(self).next_id() == old(self).next_id(),
    {
        if answer == Subscription::Unsubscribe {
            self.mark_for_unsubscribe(id);
        }
    }

    /// Finds the subscriber that a notification pass hands the event to next:
    /// the first at or behind position `from` that is not marked dead.
    /// Returns its position, or `None` where all from `from` on are dead.
    pub fn next_live(&mut self, from: usize) -> (at: Option<usize>)
        requires
            from <= old(self).registrations().len(),
        ensures
            final(self).registrations() == old(self).registrations(),
            final(self).dead() == old(self).dead(),
            final(self).next_id() == old(self).next_id(),
            at matches Some(k) ==> from <= k < old(self).registrations().len() && !old(
                self,
            ).dead().contains(old(self).registrations()[k as int].id) && forall|j: int|
                from <= j < k ==> old(self).dead().contains(
                    #[trigger] old(self).registrations()[j].id,
                ),
            at is None ==> forall|j: int|
                from <= j < old(self).registrations().len() ==> old(self).dead().contains(
                    #[trigger] old(self).registrations()[j].id,
                ),
    {
        let n = self.registered.len();
        let mut k: usize = from;
        while k < n
            invariant
                from <= k <= n,
                n == self.registered@.len(),
                self.registered@ == old(self).registered@,
                self.next_id == old(self).next_id,
                self.dead() == old(self).dead(),
                forall|j: int|
                    from <= j < k ==> self.dead().contains(#[trigger] self.registered@[j].id),
            decreases n - k,
        {
            let id = self.registered[k].id;
            if !marks_mut(&mut self.dead_subscribers).contains(&id) {
                return Some(k);
            }
            k += 1;
        }
        None
    }

    /// Removes every subscriber whose id is marked dead, and then forgets all
    /// marks.
    pub fn maintain(&mut self)
        requires
            old(self).wf(),
        ensures
            final(self).wf(),
            final(self).registrations() == old(self).live(),
            final(self).dead() == Set::<u64>::empty(),
            final(self).next_id() == old(self).next_id(),
    {
        let ghost before = self.registered@;
        let ghost dead = self.dead();
        let mut all: Vec<Registration<S>> = Vec::new();
        std::mem::swap(&mut self.registered, &mut all);
        let mut kept: Vec<Registration<S>> = Vec::new();
        for reg in it: all
            invariant
                it.seq() == before,
                self.next_id == old(self).next_id,
                dead == marked_ids(self.dead_subscribers),
                kept@ == without(before.take(it.index() as int), dead),
        {
            proof {
                let upto = before.take(it.index() + 1);
                assert(upto.drop_last() == before.take(it.index() as int));
                assert(upto.last() == reg);
            }
            if !marks_mut(&mut self.dead_subscribers).contains(&reg.id) {
                kept.push(reg);
            }
        }
        proof {
            assert(before.take(before.len() as int) == before);
            lemma_without(before, dead, self.next_id);
        }
        self.registered = kept;
        marks_mut(&mut self.dead_subscribers).clear();
    }

    /// Hands `data` to every subscriber that is not marked dead, going from
    /// one to the next by `next_live`: by priority, and within a priority in
    /// the order of subscription. A subscriber that answers `Unsubscribe` is
    /// marked dead; none is removed.
    pub fn notify(&mut self, data: &S::Data)
        requires
            old(self).wf(),
        ensures
            final(self).wf(),
            final(self).registrations() == old(self).registrations(),
            final(self).next_id() == old(self).next_id(),
            notified(old(self).registrations(), data, old(self).dead(), final(self).dead()),
    {
        let ghost regs = self.registered@;
        let ghost before = self.dead();
        let ghost mut from: int = 0;
        let n = self.registered.len();
        let mut next = self.next_live(0);
        while next.is_some()
            invariant
                self.wf(),
                n == regs.len(),
                0 <= from <= regs.len(),
                self.registered@ == regs,
                self.next_id == old(self).next_id,
                distinct_ids(regs),
                forall|j: int|
                    0 <= j < from ==> answered(#[trigger] regs[j], data, before, self.dead()),
                forall|j: int|
                    from <= j < regs.len() ==> (self.dead().contains(#[trigger] regs[j].id)
                        <==> before.contains(regs[j].id)),
                forall|id: u64|
                    !has_id(regs, id) ==> (self.dead().contains(id) <==> before.contains(id)),
                next matches Some(k) ==> from <= k < regs.len() && !self.dead().contains(
                    regs[k as int].id,
                ) && forall|j: int|
                    from <= j < k ==> self.dead().contains(#[trigger] regs[j].id),
                next is None ==> forall|j: int|
                    from <= j < regs.len() ==> self.dead().contains(#[trigger] regs[j].id),
            decreases regs.len() - from,
        {
            let at = next.unwrap();
            let id = self.registered[at].id;
            let ghost earlier = self.dead();
            let answer = self.registered[at].subscriber.handle_event(data);
            self.heed(id, answer);
            proof {
                let now = self.dead();
                assert(has_id(regs, id));
                assert(answered(regs[at as int], data, before, now));
                assert forall|j: int| 0 <= j < at implies answered(
                    #[trigger] regs[j],
                    data,
                    before,
                    now,
                ) by {
                    assert(regs[j].id != id);
                    assert(now.contains(regs[j].id) <==> earlier.contains(regs[j].id));
                    if j < from {
                        assert(answered(regs[j], data, before, earlier));
                    }
                }
                from = at + 1;
            }
            next = self.next_live(at + 1);
        }
        proof {
            assert forall|j: int| 0 <= j < regs.len() implies answered(
                #[trigger] regs[j],
                data,
                before,
                self.dead(),
            ) by {
            }
        }
    }

    /// Notifies the subscribers as `notify` does and then removes the dead as
    /// `maintain` does.
    #[inline]
    pub fn notify_mut(&mut self, data: &S::Data)
        requires
            old(self).wf(),
        ensures
            final(self).wf(),
            final(self).next_id() == old(self).next_id(),
            final(self).dead() == Set::<u64>::empty(),
            exists|dead: Set<u64>|
                #![trigger notified(old(self).registrations(), data, old(self).dead(), dead)]
                notified(old(self).registrations(), data, old(self).dead(), dead)
                    && final(self).registrations() == without(old(self).registrations(), dead),
    {
        self.notify(data);
        self.maintain();
    }
}

/// Putting in a registration with a fresh id keeps the registrations well
/// formed.
pub proof fn lemma_inserted_well_formed<S>(
    regs: Seq<Registration<S>>,
    reg: Registration<S>,
    next_id: u64,
)
    requires
        well_formed(regs, next_id),
        reg.id == next_id,
        next_id < u64::MAX,
    ensures
        0 <= slot(regs, reg.priority) <= regs.len(),
        well_formed(inserted(regs, reg), (next_id + 1) as u64),
{
    let k = slot(regs, reg.priority);
    lemma_slot(regs, reg.priority);
    let after = inserted(regs, reg);
    assert forall|i: int, j: int| 0 <= i < j < after.len() implies notified_before(
        after[i],
        after[j],
    ) by {
        if j < k {
        } else if j == k {
            assert(after[i] == regs[i]);
            reg.priority.lemma_tier_rank(regs[i].priority);
            Priority::lemma_strict_total_order(reg.priority, regs[i].priority, reg.priority);
        } else if i < k {
            assert(after[j] == regs[j - 1]);
        } else if i == k {
            assert(after[j] == regs[j - 1]);
        } else {
            assert(after[i] == regs[i - 1]);
            assert(after[j] == regs[j - 1]);
        }
    }
}

/// The slot of `p` lies behind exactly the registrations that `p` does not
/// precede.
pub proof fn lemma_slot<S>(regs: Seq<Registration<S>>, p: Priority)
    requires
        in_dispatch_order(regs),
    ensures
        0 <= slot(regs, p) <= regs.len(),
        forall|i: int| 0 <= i < slot(regs, p) ==> !p.precedes(#[trigger] regs[i].priority),
        forall|i: int| slot(regs, p) <= i < regs.len() ==> p.precedes(#[trigger] regs[i].priority),
    decreases regs.len(),
{
    if regs.len() == 0 {
    } else if p.precedes(regs[0].priority) {
        assert forall|i: int| 0 <= i < regs.len() implies p.precedes(
            #[trigger] regs[i].priority,
        ) by {
            if i > 0 {
                assert(notified_before(regs[0], regs[i]));
                Priority::lemma_strict_total_order(p, regs[0].priority, regs[i].priority);
            }
        }
    } else {
        let rest = regs.drop_first();
        assert forall|i: int, j: int| 0 <= i < j < rest.len() implies notified_before(
            rest[i],
            rest[j],
        ) by {
            assert(notified_before(regs[i + 1], regs[j + 1]));
        }
        lemma_slot(rest, p);
        assert forall|i: int| 0 <= i < slot(regs, p) implies !p.precedes(
            #[trigger] regs[i].priority,
        ) by {
            if i > 0 {
                assert(regs[i] == rest[i - 1]);
            }
        }
        assert forall|i: int| slot(regs, p) <= i < regs.len() implies p.precedes(
            #[trigger] regs[i].priority,
        ) by {
            assert(regs[i] == rest[i - 1]);
        }
    }
}

/// Leaving out the registrations with certain ids keeps the others well
/// formed, and keeps exactly the others.
pub proof fn lemma_without<S>(regs: Seq<Registration<S>>, ids: Set<u64>, next_id: u64)
    requires
        well_formed(regs, next_id),
    ensures
        well_formed(without(regs, ids), next_id),
        without(regs, ids).len() <= regs.len(),
        forall|r: Registration<S>|
            #![trigger without(regs, ids).contains(r)]
            #![trigger regs.contains(r)]
            without(regs, ids).contains(r) <==> regs.contains(r) && !ids.contains(r.id),
    decreases regs.len(),
{
    if regs.len() == 0 {
    } else {
        let front = regs.drop_last();
        let last = regs.last();
        assert(well_formed(front, next_id)) by {
            assert forall|i: int, j: int| 0 <= i < j < front.len() implies notified_before(
                front[i],
                front[j],
            ) by {
                assert(notified_before(regs[i], regs[j]));
            }
        }
        lemma_without(front, ids, next_id);
        let kept = without(front, ids);
        let all = without(regs, ids);
        assert forall|r: Registration<S>| regs.contains(r) <==> front.contains(r) || r == last by {
            if regs.contains(r) {
                let i = choose|i: int| 0 <= i < regs.len() && regs[i] == r;
                if i < front.len() {
                    assert(front[i] == r);
                }
            }
            if front.contains(r) {
                let i = choose|i: int| 0 <= i < front.len() && front[i] == r;
                assert(regs[i] == r);
            }
            assert(regs[regs.len() - 1] == last);
        }
        if ids.contains(last.id) {
            assert forall|r: Registration<S>| front.contains(r) implies r.id != last.id || !all.contains(r) by {
            }
        } else {
            assert(all == kept.push(last));
            assert forall|r: Registration<S>| all.contains(r) <==> kept.contains(r) || r == last by {
                if all.contains(r) {
                    let i = choose|i: int| 0 <= i < all.len() && all[i] == r;
                    if i < kept.len() {
                        assert(kept[i] == r);
                    }
                }
                if kept.contains(r) {
                    let i = choose|i: int| 0 <= i < kept.len() && kept[i] == r;
                    assert(all[i] == r);
                }
                assert(all[all.len() - 1] == last);
            }
            assert forall|i: int| 0 <= i < kept.len() implies notified_before(
                #[trigger] kept[i],
                last,
            ) && kept[i].id != last.id by {
                assert(kept.contains(kept[i]));
                assert(front.contains(kept[i]));
                let j = choose|j: int| 0 <= j < front.len() && front[j] == kept[i];
                assert(notified_before(regs[j], regs[regs.len() - 1]));
            }
            assert forall|i: int, j: int| 0 <= i < j < all.len() implies notified_before(
                all[i],
                all[j],
            ) by {
                if j < kept.len() {
                    assert(notified_before(kept[i], kept[j]));
                }
            }
            assert forall|i: int| 0 <= i < all.len() implies 1 <= #[trigger] all[i].id < next_id by {
                if i < kept.len() {
                    assert(all[i] == kept[i]);
                }
            }
        }
    }
}

} // verus!
