//! Realtime collaboration hub: access policies and the HTTP access decision,
//! per-object groups with their broadcast, the registry with its reaper, and
//! the persisted encoding of a replica.
pub mod access;
pub mod broadcast;
pub mod cache;
pub mod codec;
pub mod group;
pub mod logging;
pub mod middleware;
