//! What holds of publishers in general, proved from the contracts of their
//! operations.

use super::priority::Priority;
use super::publisher::{
    answered, bucket, has_id, in_dispatch_order, inserted, lemma_inserted_well_formed, lemma_slot,
    lemma_without, notified, notified_before, slot, well_formed, without, Publisher, Registration,
};
use super::subscriber::{Subscriber, Subscription};
use std::cmp::Ordering;
use vstd::prelude::*;
use vstd::std_specs::cmp::PartialOrdSpec;

verus! {

/// Comparison of priorities is precedence: `a < b` holds exactly if `a`
/// precedes `b`, `a > b` exactly if `b` precedes `a`, and neither exactly if
/// the two are equal. So all early priorities are less than all normal ones,
/// those less than all late ones, and within a tier the ranks decide.
pub proof fn lemma_comparison_is_precedence(a: Priority, b: Priority)
    ensures
        a.partial_cmp_spec(&b) == Some(Ordering::Less) <==> a.precedes(b),
        a.partial_cmp_spec(&b) == Some(Ordering::Greater) <==> b.precedes(a),
        a.partial_cmp_spec(&b) == Some(Ordering::Equal) <==> a == b,
        a.tier() < b.tier() ==> a.partial_cmp_spec(&b) == Some(Ordering::Less),
        a.tier() == b.tier() ==> (a.partial_cmp_spec(&b) == Some(Ordering::Less) <==> a.rank()
            < b.rank()),
{
    a.lemma_tier_rank(b);
}

/// The live subscribers stand by priority, and within a priority in the order
/// of subscription: of two of them, the one of the preceding priority comes
/// first, and of two of equal priority the one that subscribed first, which
/// is the one with the lower id. A notification pass takes them one after
/// the other by `next_live`, which `lemma_next_live_heads_live` relates to
/// this sequence.
pub proof fn lemma_notification_order<S: Subscriber>(publisher: Publisher<S>, i: int, j: int)
    requires
        publisher.wf(),
        0 <= i < j < publisher.live().len(),
    ensures
        in_dispatch_order(publisher.live()),
        publisher.live()[i].priority != publisher.live()[j].priority ==> publisher.live()[i].priority.precedes(
            publisher.live()[j].priority,
        ),
        publisher.live()[i].priority == publisher.live()[j].priority ==> publisher.live()[i].id
            < publisher.live()[j].id,
{
    lemma_without(publisher.registrations(), publisher.dead(), publisher.next_id());
    let live = publisher.live();
    assert(notified_before(live[i], live[j]));
    Priority::lemma_strict_total_order(live[i].priority, live[j].priority, live[i].priority);
}

/// The live subscribers are exactly those that are registered and not marked
/// dead.
pub proof fn lemma_live_members<S: Subscriber>(publisher: Publisher<S>, reg: Registration<S>)
    requires
        publisher.wf(),
    ensures
        publisher.live().contains(reg) <==> publisher.registrations().contains(reg)
            && !publisher.dead().contains(reg.id),
{
    lemma_without(publisher.registrations(), publisher.dead(), publisher.next_id());
}

/// Ids are issued in strictly increasing order and none is issued twice:
/// the id that a subscriber gets is above the id of every subscriber that is
/// registered, and the next one will be above it.
pub proof fn lemma_ids_increase<S: Subscriber>(
    before: Publisher<S>,
    listener: S,
    priority: Priority,
    after: Publisher<S>,
)
    requires
        before.wf(),
        before.next_id() < u64::MAX,
        before.subscribed(listener, priority, after),
    ensures
        1 <= before.next_id() < after.next_id(),
        !has_id(before.registrations(), before.next_id()),
        forall|i: int|
            0 <= i < before.registrations().len() ==> (#[trigger] before.registrations()[i]).id
                < before.next_id(),
        has_id(after.registrations(), before.next_id()),
{
    let regs = before.registrations();
    let reg = Registration { subscriber: listener, id: before.next_id(), priority };
    lemma_slot(regs, priority);
    assert(after.registrations()[slot(regs, priority)] == reg);
}

/// A subscriber is put at the tail of the bucket of its priority, and the
/// other buckets stay as they are.
pub proof fn lemma_inserted_bucket<S>(
    regs: Seq<Registration<S>>,
    reg: Registration<S>,
    p: Priority,
)
    requires
        in_dispatch_order(regs),
    ensures
        bucket(inserted(regs, reg), p) == if p == reg.priority {
            bucket(regs, p).push(reg)
        } else {
            bucket(regs, p)
        },
{
    let k = slot(regs, reg.priority);
    lemma_slot(regs, reg.priority);
    let head = regs.take(k);
    let tail = regs.skip(k);
    assert(inserted(regs, reg) == head.push(reg) + tail);
    assert(regs == head + tail);
    lemma_bucket_concat(head.push(reg), tail, p);
    lemma_bucket_concat(head, tail, p);
    assert(head.push(reg).drop_last() == head);
    if p == reg.priority {
        assert forall|i: int| 0 <= i < tail.len() implies (#[trigger] tail[i]).priority != p by {
            assert(tail[i] == regs[k + i]);
            Priority::lemma_strict_total_order(p, p, p);
        }
        lemma_bucket_none(tail, p);
    }
}

/// A bucket holds the registrations of its priority and no others, so every
/// registration is in the bucket of its priority and in no other bucket.
pub proof fn lemma_bucket_members<S>(regs: Seq<Registration<S>>, p: Priority)
    ensures
        bucket(regs, p).len() <= regs.len(),
        forall|r: Registration<S>|
            #![trigger bucket(regs, p).contains(r)]
            bucket(regs, p).contains(r) <==> regs.contains(r) && r.priority == p,
    decreases regs.len(),
{
    if regs.len() > 0 {
        let front = regs.drop_last();
        let last = regs.last();
        lemma_bucket_members(front, p);
        let all = bucket(regs, p);
        let kept = bucket(front, p);
        assert forall|r: Registration<S>| #![trigger bucket(regs, p).contains(r)]
            all.contains(r) <==> regs.contains(r) && r.priority == p by {
            assert(regs.contains(r) <==> front.contains(r) || r == last) by {
                if regs.contains(r) {
                    let i = choose|i: int| 0 <= i < regs.len() && regs[i] == r;
                    if i < front.len() {
                        assert(front[i] == r);
                    }
                }
                if front.contains(r) {
                    let i = choose|i: int| 0 <= i < front.len() && front[i] == r;
                    assert(regs[i] == r);
                }
                assert(regs[regs.len() - 1] == last);
            }
            assert(kept.contains(r) <==> front.contains(r) && r.priority == p);
            if last.priority == p {
                assert(all == kept.push(last));
                if all.contains(r) {
                    let i = choose|i: int| 0 <= i < all.len() && all[i] == r;
                    if i < kept.len() {
                        assert(kept[i] == r);
                    }
                }
                if kept.contains(r) {
                    let i = choose|i: int| 0 <= i < kept.len() && kept[i] == r;
                    assert(all[i] == r);
                }
                assert(all[all.len() - 1] == last);
            }
        }
    }
}

/// A bucket is in subscription order: ids increase along it.
pub proof fn lemma_bucket_in_subscription_order<S>(
    regs: Seq<Registration<S>>,
    p: Priority,
    i: int,
    j: int,
)
    requires
        in_dispatch_order(regs),
        0 <= i < j < bucket(regs, p).len(),
    ensures
        bucket(regs, p)[i].priority == p,
        bucket(regs, p)[j].priority == p,
        bucket(regs, p)[i].id < bucket(regs, p)[j].id,
    decreases regs.len(),
{
    lemma_bucket_members(regs, p);
    let all = bucket(regs, p);
    assert(all.contains(all[i]));
    assert(all.contains(all[j]));
    let front = regs.drop_last();
    let last = regs.last();
    assert forall|a: int, b: int| 0 <= a < b < front.len() implies notified_before(
        front[a],
        front[b],
    ) by {
        assert(notified_before(regs[a], regs[b]));
    }
    if last.priority == p && j == all.len() - 1 {
        let kept = bucket(front, p);
        lemma_bucket_members(front, p);
        assert(all == kept.push(last));
        assert(kept.contains(kept[i]));
        let k = choose|k: int| 0 <= k < front.len() && front[k] == kept[i];
        assert(notified_before(regs[k], regs[regs.len() - 1]));
        Priority::lemma_strict_total_order(p, p, p);
    } else {
        if last.priority == p {
            assert(all == bucket(front, p).push(last));
        }
        assert(all[i] == bucket(front, p)[i]);
        assert(all[j] == bucket(front, p)[j]);
        lemma_bucket_in_subscription_order(front, p, i, j);
    }
}

/// Every id that is registered stands in exactly one bucket, the one of its
/// registration's priority, and stands there exactly once.
pub proof fn lemma_one_bucket<S>(
    regs: Seq<Registration<S>>,
    next_id: u64,
    i: int,
    q: Priority,
    k: int,
)
    requires
        well_formed(regs, next_id),
        0 <= i < regs.len(),
        0 <= k < bucket(regs, q).len(),
        bucket(regs, q)[k].id == regs[i].id,
    ensures
        bucket(regs, regs[i].priority).contains(regs[i]),
        q == regs[i].priority,
        bucket(regs, q)[k] == regs[i],
        forall|other: int|
            0 <= other < bucket(regs, q).len() && (#[trigger] bucket(regs, q)[other]).id
                == regs[i].id ==> other == k,
{
    lemma_bucket_members(regs, q);
    lemma_bucket_members(regs, regs[i].priority);
    assert(regs.contains(regs[i]));
    let found = bucket(regs, q)[k];
    assert(bucket(regs, q).contains(found));
    let j = choose|j: int| 0 <= j < regs.len() && regs[j] == found;
    assert(j == i);
    assert forall|other: int|
        0 <= other < bucket(regs, q).len() && (#[trigger] bucket(regs, q)[other]).id
            == regs[i].id implies other == k by {
        if other < k {
            lemma_bucket_in_subscription_order(regs, q, other, k);
        } else if k < other {
            lemma_bucket_in_subscription_order(regs, q, k, other);
        }
    }
}

/// The bucket of a concatenation is the concatenation of the buckets.
proof fn lemma_bucket_concat<S>(a: Seq<Registration<S>>, b: Seq<Registration<S>>, p: Priority)
    ensures
        bucket(a + b, p) == bucket(a, p) + bucket(b, p),
    decreases b.len(),
{
    if b.len() == 0 {
        assert(a + b == a);
    } else {
        assert((a + b).drop_last() == a + b.drop_last());
        assert((a + b).last() == b.last());
        lemma_bucket_concat(a, b.drop_last(), p);
    }
}

/// Where no registration has priority `p`, the bucket of `p` is empty.
proof fn lemma_bucket_none<S>(regs: Seq<Registration<S>>, p: Priority)
    requires
        forall|i: int| 0 <= i < regs.len() ==> (#[trigger] regs[i]).priority != p,
    ensures
        bucket(regs, p) == Seq::<Registration<S>>::empty(),
    decreases regs.len(),
{
    if regs.len() > 0 {
        assert(regs.last() == regs[regs.len() - 1]);
        assert forall|i: int| 0 <= i < regs.drop_last().len() implies (
        #[trigger] regs.drop_last()[i]).priority != p by {
            assert(regs.drop_last()[i] == regs[i]);
        }
        lemma_bucket_none(regs.drop_last(), p);
    }
}

/// Leaving out ids distributes over concatenation.
proof fn lemma_without_concat<S>(a: Seq<Registration<S>>, b: Seq<Registration<S>>, ids: Set<u64>)
    ensures
        without(a + b, ids) == without(a, ids) + without(b, ids),
    decreases b.len(),
{
    if b.len() == 0 {
        assert(a + b == a);
    } else {
        assert((a + b).drop_last() == a + b.drop_last());
        assert((a + b).last() == b.last());
        lemma_without_concat(a, b.drop_last(), ids);
    }
}

/// Leaving out ids that no registration has leaves out nothing.
proof fn lemma_without_none<S>(regs: Seq<Registration<S>>, ids: Set<u64>)
    requires
        forall|i: int| 0 <= i < regs.len() ==> !ids.contains((#[trigger] regs[i]).id),
    ensures
        without(regs, ids) == regs,
    decreases regs.len(),
{
    if regs.len() > 0 {
        assert(regs.last() == regs[regs.len() - 1]);
        assert forall|i: int| 0 <= i < regs.drop_last().len() implies !ids.contains(
            (#[trigger] regs.drop_last()[i]).id,
        ) by {
            assert(regs.drop_last()[i] == regs[i]);
        }
        lemma_without_none(regs.drop_last(), ids);
        assert(regs.drop_last().push(regs.last()) == regs);
    }
}

/// Subscribing and then unsubscribing the id that was returned leaves the
/// registrations as they were before: the length is what it was, and a
/// notification pass reaches whom it reached before.
pub proof fn lemma_subscribe_unsubscribe<S>(
    regs: Seq<Registration<S>>,
    reg: Registration<S>,
    next_id: u64,
)
    requires
        well_formed(regs, next_id),
        reg.id == next_id,
    ensures
        without(inserted(regs, reg), set![reg.id]) == regs,
        without(inserted(regs, reg), set![reg.id]).len() == regs.len(),
{
    let k = slot(regs, reg.priority);
    lemma_slot(regs, reg.priority);
    let ids = set![reg.id];
    let head = regs.take(k);
    let tail = regs.skip(k);
    assert(inserted(regs, reg) == head.push(reg) + tail);
    assert(regs == head + tail);
    lemma_without_concat(head.push(reg), tail, ids);
    assert(head.push(reg).drop_last() == head);
    assert forall|i: int| 0 <= i < head.len() implies !ids.contains((#[trigger] head[i]).id) by {
        assert(head[i] == regs[i]);
    }
    assert forall|i: int| 0 <= i < tail.len() implies !ids.contains((#[trigger] tail[i]).id) by {
        assert(tail[i] == regs[k + i]);
    }
    lemma_without_none(head, ids);
    lemma_without_none(tail, ids);
}

/// A subscriber that is not dead and can only answer `Unsubscribe` is dead
/// after one notification pass. So the pass in which it answers is the last
/// that reaches it: no later pass does, and `maintain` removes it.
pub proof fn lemma_unsubscribe_is_final<S: Subscriber>(
    regs: Seq<Registration<S>>,
    next_id: u64,
    data: &S::Data,
    before: Set<u64>,
    after: Set<u64>,
    i: int,
)
    requires
        well_formed(regs, next_id),
        notified(regs, data, before, after),
        0 <= i < regs.len(),
        !before.contains(regs[i].id),
        forall|answer: Subscription| #[trigger]
            call_ensures(S::handle_event, (&regs[i].subscriber, data), answer) ==> answer
                == Subscription::Unsubscribe,
    ensures
        after.contains(regs[i].id),
        !without(regs, after).contains(regs[i]),
{
    assert(answered(regs[i], data, before, after));
    lemma_without(regs, after, next_id);
}

/// A subscriber that is not dead and can only answer `Keep` is not dead
/// after a notification pass, and the next pass reaches it again.
pub proof fn lemma_keep_stays<S: Subscriber>(
    regs: Seq<Registration<S>>,
    next_id: u64,
    data: &S::Data,
    before: Set<u64>,
    after: Set<u64>,
    i: int,
)
    requires
        well_formed(regs, next_id),
        notified(regs, data, before, after),
        0 <= i < regs.len(),
        !before.contains(regs[i].id),
        forall|answer: Subscription| #[trigger]
            call_ensures(S::handle_event, (&regs[i].subscriber, data), answer) ==> answer
                == Subscription::Keep,
    ensures
        !after.contains(regs[i].id),
        without(regs, after).contains(regs[i]),
{
    assert(answered(regs[i], data, before, after));
    lemma_without(regs, after, next_id);
    assert(regs.contains(regs[i]));
}

/// Whatever the subscribers answer, a notification pass only adds to the
/// dead, and only ids of subscribers that it reached.
pub proof fn lemma_notified_grows<S: Subscriber>(
    regs: Seq<Registration<S>>,
    data: &S::Data,
    before: Set<u64>,
    after: Set<u64>,
    id: u64,
)
    requires
        notified(regs, data, before, after),
    ensures
        before.contains(id) ==> after.contains(id),
        after.contains(id) && !before.contains(id) ==> has_id(regs, id),
{
    if has_id(regs, id) {
        let i = choose|i: int| 0 <= i < regs.len() && regs[i].id == id;
        assert(answered(regs[i], data, before, after));
    }
}

/// Leaving out the ids of all registrations leaves nothing.
proof fn lemma_without_all<S>(regs: Seq<Registration<S>>, ids: Set<u64>)
    requires
        forall|i: int| 0 <= i < regs.len() ==> ids.contains((#[trigger] regs[i]).id),
    ensures
        without(regs, ids) == Seq::<Registration<S>>::empty(),
    decreases regs.len(),
{
    if regs.len() > 0 {
        assert(regs.last() == regs[regs.len() - 1]);
        assert forall|i: int| 0 <= i < regs.drop_last().len() implies ids.contains(
            (#[trigger] regs.drop_last()[i]).id,
        ) by {
            assert(regs.drop_last()[i] == regs[i]);
        }
        lemma_without_all(regs.drop_last(), ids);
    }
}

/// What `next_live` finds is the head of what is live from `from` on: the
/// live registrations from `from` on are the one at the position found and
/// then the live ones behind it. Where nothing is found, none is live from
/// `from` on. With `from` at 0 this is the head of `live()`.
pub proof fn lemma_next_live_heads_live<S>(
    regs: Seq<Registration<S>>,
    dead: Set<u64>,
    from: int,
    found: Option<int>,
)
    requires
        0 <= from <= regs.len(),
        found matches Some(k) ==> from <= k < regs.len() && !dead.contains(regs[k].id)
            && forall|j: int| from <= j < k ==> dead.contains(#[trigger] regs[j].id),
        found is None ==> forall|j: int|
            from <= j < regs.len() ==> dead.contains(#[trigger] regs[j].id),
    ensures
        regs.skip(0) == regs,
        found matches Some(k) ==> without(regs.skip(from), dead) == seq![regs[k]] + without(
            regs.skip(k + 1),
            dead,
        ),
        found is None ==> without(regs.skip(from), dead) == Seq::<Registration<S>>::empty(),
{
    match found {
        Some(k) => {
            let passed = regs.subrange(from, k);
            let one = seq![regs[k]];
            let rest = regs.skip(k + 1);
            assert(regs.skip(from) == passed + one + rest);
            lemma_without_concat(passed + one, rest, dead);
            lemma_without_concat(passed, one, dead);
            assert forall|i: int| 0 <= i < passed.len() implies dead.contains(
                (#[trigger] passed[i]).id,
            ) by {
                assert(passed[i] == regs[from + i]);
            }
            lemma_without_all(passed, dead);
            assert forall|i: int| 0 <= i < one.len() implies !dead.contains(
                (#[trigger] one[i]).id,
            ) by {
            }
            lemma_without_none(one, dead);
        },
        None => {
            let rest = regs.skip(from);
            assert forall|i: int| 0 <= i < rest.len() implies dead.contains(
                (#[trigger] rest[i]).id,
            ) by {
                assert(rest[i] == regs[from + i]);
            }
            lemma_without_all(rest, dead);
        },
    }
}

/// A subscriber is live when it has subscribed: no mark stands against the
/// id it gets, whatever was marked before.
pub proof fn lemma_newcomer_is_live<S: Subscriber>(
    before: Publisher<S>,
    listener: S,
    priority: Priority,
    after: Publisher<S>,
)
    requires
        before.wf(),
        before.next_id() < u64::MAX,
        before.subscribed(listener, priority, after),
    ensures
        !after.dead().contains(before.next_id()),
        after.live().contains(
            Registration { subscriber: listener, id: before.next_id(), priority },
        ),
{
    let regs = before.registrations();
    let reg = Registration { subscriber: listener, id: before.next_id(), priority };
    lemma_slot(regs, priority);
    lemma_inserted_well_formed(regs, reg, before.next_id());
    assert(after.registrations()[slot(regs, priority)] == reg);
    assert(after.registrations().contains(reg));
    lemma_without(after.registrations(), after.dead(), after.next_id());
}

/// No publisher returns an id twice: the counter of ids never goes back, as
/// the contract of every operation says, so a subscriber that comes later,
/// whatever was done in between, gets an id above that of every subscriber
/// before it.
pub proof fn lemma_later_id_is_greater<S: Subscriber>(
    first: Publisher<S>,
    listener: S,
    priority: Priority,
    then: Publisher<S>,
    later: Publisher<S>,
)
    requires
        first.next_id() < u64::MAX,
        first.subscribed(listener, priority, then),
        then.next_id() <= later.next_id(),
    ensures
        first.next_id() < later.next_id(),
{
}

/// Unsubscribing the id that `subscribe` has just returned undoes the
/// subscription: registrations, dead ids, length and live subscribers are
/// what they were, so a notification pass does what it would have done, and
/// the id is not registered.
pub proof fn lemma_unsubscribe_undoes_subscribe<S: Subscriber>(
    before: Publisher<S>,
    listener: S,
    priority: Priority,
    between: Publisher<S>,
    after: Publisher<S>,
)
    requires
        before.wf(),
        before.next_id() < u64::MAX,
        before.subscribed(listener, priority, between),
        after.registrations() == without(between.registrations(), set![before.next_id()]),
        after.dead() == between.dead(),
    ensures
        after.registrations() == before.registrations(),
        after.dead() == before.dead(),
        after.spec_len() == before.spec_len(),
        after.live() == before.live(),
        !has_id(after.registrations(), before.next_id()),
{
    let reg = Registration { subscriber: listener, id: before.next_id(), priority };
    lemma_subscribe_unsubscribe(before.registrations(), reg, before.next_id());
}

} // verus!
