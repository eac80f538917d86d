//! A framework-agnostic container for application state.
//!
//! The state lives in a [`Universe`] and changes only when a message is
//! handed to the reducer of its core. A [`Registry`] keeps the subscribers in
//! registration order, each under an identity that no other subscription of
//! that registry has; the token for a subscription also carries the mark of
//! its registry, and no other registry accepts it. An [`AppUniverse`] joins
//! the two: every message is reduced first and then announced to every
//! subscriber.

pub mod app_universe;
pub mod laws;
pub mod registry;
pub mod registry_model;
pub mod store_model;
pub mod universe;
pub mod world_with_message_buffer;

pub use crate::app_universe::AppUniverse;
pub use crate::registry::Registry;
pub use crate::registry::Removal;
pub use crate::registry::Subscription;
pub use crate::registry::UniverseSubscription;
pub use crate::universe::AppUniverseCore;
pub use crate::universe::Universe;
pub use crate::world_with_message_buffer::WorldWithMessageBuffer;
