//! Observer pattern with priority-ordered dispatch.
//!
//! A [`Publisher`] owns subscribers ordered by [`Priority`] and notifies them
//! in that order; subscribers of equal priority are notified in the order in
//! which they subscribed.

pub mod laws;
pub mod marks;
pub mod priority;
pub mod publisher;
mod subscriber;

pub use priority::Priority;
pub use publisher::Publisher;
pub use publisher::Registration;
pub use subscriber::FnSubscriber;
pub use subscriber::Subscriber;
pub use subscriber::Subscription;
