//! A permission broker: per-session endpoints accept approval requests from a
//! bridge process, suspend each caller on a single-use decision slot, notify a
//! UI layer, and deliver the UI's decision (or a synthesized denial on
//! timeout or shutdown) back to the suspended request. A process-wide
//! registry creates, stops, re-keys and resolves against these endpoints.

pub mod ext;
pub mod laws;
pub mod messages;
pub mod pending;
pub mod registry;
