//! Three-tier priorities that order event handlers.

use std::cmp::Ordering;
use vstd::prelude::*;
use vstd::std_specs::cmp::PartialOrdSpecImpl;

verus! {

/// The three tiers. Every early priority precedes every normal one, and every
/// normal priority precedes every late one.
#[derive(Debug, Clone, Copy, PartialEq, Eq, Ord, Structural)]
enum InnerPriority {
    /// Runs before all normal priorities.
    EarlyPriority(i32),
    /// The default tier.
    Priority(i32),
    /// Runs after all normal priorities.
    LatePriority(i32),
}

/// An ordering key for subscribers: a tier (early, normal or late) and a rank
/// within the tier. Lower ranks come first within a tier.
#[derive(Debug, Clone, Copy, PartialEq, Eq, Ord, Structural)]
pub struct Priority(InnerPriority);

impl InnerPriority {
    pub closed spec fn tier(self) -> nat {
        match self {
            InnerPriority::EarlyPriority(_) => 0,
            InnerPriority::Priority(_) => 1,
            InnerPriority::LatePriority(_) => 2,
        }
    }

    pub closed spec fn rank(self) -> int {
        match self {
            InnerPriority::EarlyPriority(v) => v as int,
            InnerPriority::Priority(v) => v as int,
            InnerPriority::LatePriority(v) => v as int,
        }
    }
}

impl Priority {
    /// The tier of this priority: 0 for early, 1 for normal, 2 for late.
    pub closed spec fn tier(self) -> nat {
        self.0.tier()
    }

    /// The rank of this priority within its tier.
    pub closed spec fn rank(self) -> int {
        self.0.rank()
    }

    /// `self` is dispatched strictly before `other`.
    pub open spec fn precedes(self, other: Priority) -> bool {
        self.tier() < other.tier() || (self.tier() == other.tier() && self.rank() < other.rank())
    }

    /// Creates a normal priority with the given rank.
    #[inline]
    pub fn new(value: i32) -> (p: Self)
        ensures
            p.tier() == 1,
            p.rank() == value,
    {
        Self(InnerPriority::Priority(value))
    }

    /// Creates an early priority with the given rank.
    #[inline]
    pub fn early(value: i32) -> (p: Self)
        ensures
            p.tier() == 0,
            p.rank() == value,
    {
        Self(InnerPriority::EarlyPriority(value))
    }

    /// Creates a late priority with the given rank.
    #[inline]
    pub fn late(value: i32) -> (p: Self)
        ensures
            p.tier() == 2,
            p.rank() == value,
    {
        Self(InnerPriority::LatePriority(value))
    }

    /// A priority is one of three tiers with a 32-bit rank, and tier and rank
    /// determine it.
    pub proof fn lemma_tier_rank(self, other: Priority)
        ensures
            self.tier() <= 2,
            i32::MIN <= self.rank() <= i32::MAX,
            self == other <==> self.tier() == other.tier() && self.rank() == other.rank(),
    {
    }

    /// Early priorities precede normal and late ones, normal priorities
    /// precede late ones, and within a tier the lower rank precedes.
    pub proof fn lemma_tiers_ordered(self, other: Priority)
        ensures
            self.tier() == 0 && other.tier() >= 1 ==> self.precedes(other),
            self.tier() == 1 && other.tier() == 2 ==> self.precedes(other),
            self.tier() == other.tier() ==> (self.precedes(other) <==> self.rank() < other.rank()),
    {
    }

    /// Precedence is a strict total order: irreflexive, transitive, and any
    /// two distinct priorities are ordered one way or the other.
    pub proof fn lemma_strict_total_order(a: Priority, b: Priority, c: Priority)
        ensures
            !a.precedes(a),
            a.precedes(b) && b.precedes(c) ==> a.precedes(c),
            a.precedes(b) ==> !b.precedes(a),
            a == b || a.precedes(b) || b.precedes(a),
    {
    }
}

impl PartialOrdSpecImpl for InnerPriority {
    open spec fn obeys_partial_cmp_spec() -> bool {
        true
    }

    open spec fn partial_cmp_spec(&self, other: &InnerPriority) -> Option<Ordering> {
        if self.tier() < other.tier() {
            Some(Ordering::Less)
        } else if self.tier() > other.tier() {
            Some(Ordering::Greater)
        } else if self.rank() < other.rank() {
            Some(Ordering::Less)
        } else if self.rank() > other.rank() {
            Some(Ordering::Greater)
        } else {
            Some(Ordering::Equal)
        }
    }
}

impl PartialOrd for InnerPriority {
    fn partial_cmp(&self, other: &InnerPriority) -> (r: Option<Ordering>) {
        let (t1, r1): (u8, i32) = match *self {
            InnerPriority::EarlyPriority(v) => (0, v),
            InnerPriority::Priority(v) => (1, v),
            InnerPriority::LatePriority(v) => (2, v),
        };
        let (t2, r2): (u8, i32) = match *other {
            InnerPriority::EarlyPriority(v) => (0, v),
            InnerPriority::Priority(v) => (1, v),
            InnerPriority::LatePriority(v) => (2, v),
        };
        if t1 < t2 {
            Some(Ordering::Less)
        } else if t1 > t2 {
            Some(Ordering::Greater)
        } else if r1 < r2 {
            Some(Ordering::Less)
        } else if r1 > r2 {
            Some(Ordering::Greater)
        } else {
            Some(Ordering::Equal)
        }
    }
}

impl PartialOrdSpecImpl for Priority {
    open spec fn obeys_partial_cmp_spec() -> bool {
        true
    }

    open spec fn partial_cmp_spec(&self, other: &Priority) -> Option<Ordering> {
        if self.precedes(*other) {
            Some(Ordering::Less)
        } else if other.precedes(*self) {
            Some(Ordering::Greater)
        } else {
            Some(Ordering::Equal)
        }
    }
}

impl PartialOrd for Priority {
    fn partial_cmp(&self, other: &Priority) -> (r: Option<Ordering>) {
        self.0.partial_cmp(&other.0)
    }
}

} // verus!
