//! A single-room chat broadcaster: participants join under a nickname,
//! exchange text messages and are told who joins and who leaves.
//!
//! [`Registry`] is the membership table together with the rules that decide,
//! for every join, leave and message, who is told what: each operation
//! returns its decisions as a list of [`Delivery`] values. [`Chatroom`]
//! shares one registry between threads behind a mutex and hands each
//! delivery to the channel of the participant it is addressed to.
//!
//! The rules are stated over [`model::RegistryView`], the room as a
//! mathematical value; [`laws`] holds what follows from them.

pub mod chatroom;
pub mod delivery;
pub mod error;
pub mod laws;
mod lock;
pub mod message;
pub mod model;
pub mod nickname;
pub mod registry;
mod sink;
mod walk;

pub use chatroom::{Chatroom, Session};
pub use delivery::{Delivery, SessionId};
pub use error::JoinError;
pub use message::Message;
pub use nickname::is_valid_nickname;
pub use registry::Registry;
