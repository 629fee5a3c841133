//! Room sessions for a multiplayer party-game server: rooms with one host and
//! any number of players, the registry that owns them, and the per-connection
//! session state machine that attaches, relays and detaches.
//!
//! The library decides; it never sends or receives. Every operation takes the
//! time as a plain timestamp and returns the deliveries that the caller has
//! to carry out.

pub mod codes;
pub mod error;
pub mod ids;
pub mod message;
pub mod registry;
pub mod registry_model;
pub mod room;
pub mod room_model;
pub mod session;

pub use crate::codes::{JoinToken, RoomCode};
pub use crate::error::Error;
pub use crate::ids::ParticipantIds;
pub use crate::message::{Delivery, Message, ParticipantId, Role};
pub use crate::registry::RoomRegistry;
pub use crate::registry_model::Config;
pub use crate::room::{Attached, Room, Routing};
pub use crate::room_model::ReconnectPolicy;
pub use crate::session::{Action, Event, Phase, Session};
