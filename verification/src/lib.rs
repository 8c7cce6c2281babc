//! The core of a desktop notification server: the markup parser for
//! notification bodies, the store of live notifications with its identity
//! allocator and expiry sweep, and the relay of closure and action signals.

mod clock;
pub mod dbus;
pub mod freedesktop;
pub mod markup;
pub mod notification;
pub mod order;
pub mod registry;
pub mod state;
pub mod store;
pub mod text;
