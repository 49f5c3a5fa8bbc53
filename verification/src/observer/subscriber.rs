//! Subscribers: handlers of one kind of event data.

use super::priority::Priority;
use std::marker::PhantomData;
use vstd::prelude::*;

verus! {

/// What a subscriber asks of its publisher after handling an event.
#[derive(Debug, Copy, Clone, PartialEq, Eq, Structural)]
pub enum Subscription {
    /// Stay subscribed.
    Keep,
    /// Do not deliver further events to this subscriber.
    Unsubscribe,
}

impl Default for Subscription {
    fn default() -> (s: Self)
        ensures
            s == Subscription::Keep,
    {
        Subscription::Keep
    }
}

/// A handler of events that carry `Data`.
///
/// A publisher asks for the priority once, when the subscriber is
/// registered. A handler asks to be removed only through the value it
/// returns.
pub trait Subscriber: Send {
    type Data;

    /// The priority at which the subscriber wants to be notified.
    /// Unless an implementation says otherwise it is the normal tier, rank 0.
    fn priority(&self) -> (p: Priority)
        default_ensures
            p.tier() == 1,
            p.rank() == 0,
    {
        Priority::new(0)
    }

    /// Handles one event.
    fn handle_event(&self, data: &Self::Data) -> Subscription;
}

/// A subscriber made of a function or closure and a priority.
pub struct FnSubscriber<T: Send, F: Fn(&T) -> Subscription + Send> {
    f: F,
    priority: Priority,
    _data: PhantomData<T>,
}

impl<T: Send + 'static, F: Fn(&T) -> Subscription + Send + 'static> FnSubscriber<T, F> {
    /// The function accepts every event.
    #[verifier::type_invariant]
    spec fn accepts_all(self) -> bool {
        forall|data: &T| call_requires(self.f, (data,))
    }

    /// The function that handles the events.
    pub closed spec fn handler(self) -> F {
        self.f
    }

    /// The priority given by `new` or by `with_priority`.
    pub closed spec fn spec_priority(self) -> Priority {
        self.priority
    }

    /// Creates a subscriber of the normal tier, rank 0, that handles events with `f`.
    pub fn new(f: F) -> (s: Self)
        requires
            forall|data: &T| call_requires(f, (data,)),
        ensures
            s.handler() == f,
            s.spec_priority().tier() == 1,
            s.spec_priority().rank() == 0,
    {
        Self { f, priority: Priority::new(0), _data: PhantomData }
    }

    /// Replaces the priority and keeps the function.
    pub fn with_priority(self, priority: Priority) -> (s: Self)
        ensures
            s.handler() == self.handler(),
            s.spec_priority() == priority,
    {
        proof {
            use_type_invariant(&self);
        }
        Self { f: self.f, priority, _data: PhantomData }
    }
}

impl<T: Send, F: Fn(&T) -> Subscription + Send> Subscriber for FnSubscriber<T, F> {
    type Data = T;

    fn priority(&self) -> (p: Priority)
        ensures
            p == self.spec_priority(),
    {
        self.priority
    }

    /// Calls the function on `data` and hands its answer on.
    fn handle_event(&self, data: &T) -> (answer: Subscription)
        ensures
            call_ensures(self.handler(), (data,), answer),
    {
        proof {
            use_type_invariant(self);
        }
        (self.f)(data)
    }
}

} // verus!
