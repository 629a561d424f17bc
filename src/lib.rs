//! A small publish/subscribe registry: callbacks are registered under an
//! event tag and invoked, in registration order, when that tag is notified.

pub mod event;
pub mod publisher;

pub use event::Event;
pub use publisher::Publisher;
