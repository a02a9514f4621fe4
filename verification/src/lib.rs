//! Lifecycle-scoped registrar for desktop-integration artifacts.
//!
//! Client processes register application launcher descriptors ("entries") and
//! icon images, each tagged with a [`lifetime::Lifetime`] that decides when the
//! artifact is reclaimed.  The manager validates every payload, refuses to
//! overwrite an existing artifact, records which files it owns, and tears a
//! whole lifetime down on request.  A reconciler removes process-scoped
//! artifacts once the owning process has exited.
//!
//! The manager works on an in-memory record of the files it governs
//! ([`store::FileStore`]); the embedding program mirrors each mutation onto
//! the real filesystem and owns the transport that exposes the operations.

pub mod assoc;
pub mod cache;
pub mod errors;
pub mod imaging;
pub mod laws;
pub mod lifetime;
pub mod manager;
pub mod numfmt;
pub mod reconciler;
pub mod store;
pub mod textutil;
pub mod validate;

pub use lifetime::Lifetime;
