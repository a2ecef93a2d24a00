//! Deterministic core of a federation observer: decoding of module
//! transactions, ordered prefetch windows, session and block-time
//! synchronizers, the federation registry and the in-memory projection of
//! everything that has been committed.

pub mod assets;
pub mod blocktime;
pub mod decoder;
pub mod observer;
pub mod query;
pub mod registry;
pub mod session;
pub mod sync;
pub mod telemetry;
pub mod text;
pub mod window;
