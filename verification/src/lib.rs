//! Session and state coordination for a real-time chat service.
//!
//! The crate tracks which ephemeral connections belong to which rooms,
//! keeps a bounded recent-message cache per room, decides how private
//! messages are relayed, and binds durable user identities to short-lived
//! per-connection display names.  All transport and durable-store traffic
//! is left to the surrounding program; the coordinator works on plain
//! values and states its behaviour in contracts.

pub mod assoc;
pub mod cache;
pub mod clock;
pub mod db_model;
pub mod errors;
pub mod identity;
pub mod model;
pub mod namegen;
pub mod pagination;
pub mod registry;
pub mod rooms;
pub mod socket_state;
