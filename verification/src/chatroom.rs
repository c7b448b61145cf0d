//! One room shared between threads.

use crate::delivery::SessionId;
use crate::error::JoinError;
use crate::lock::{acquire, room_of};
use crate::message::Message;
use crate::nickname::valid_nickname;
use crate::registry::Registry;
use parking_lot::Mutex;
use std::sync::mpsc::Sender;
use std::sync::Arc;
use vstd::prelude::*;

verus! {

/// A handle on the room. Its copies stand for the same room; each operation
/// locks the room from its first look at the table to its last delivery, so
/// that every participant sees joins, leaves and messages in one order.
/// [`Chatroom::default`] is a new, empty room.
#[derive(Default, Clone)]
pub struct Chatroom {
    inner: Arc<Mutex<Registry>>,
}

/// One participant's place in the room, from a successful
/// [`Chatroom::join`] until [`Session::leave`].
pub struct Session {
    id: SessionId,
    chatroom_impl: Arc<Mutex<Registry>>,
}

impl Chatroom {
    /// Joins the room as `nickname`, to be told of events through
    /// `message_sender`.
    ///
    /// A nickname that is not acceptable is always turned away as
    /// [`JoinError::InvalidNickname`], and no other nickname ever is; whether
    /// an acceptable one is taken depends on who is in the room when the
    /// call gets hold of it, as [`Registry::join`] says.
    pub fn join(&self, nickname: String, message_sender: Sender<Message>) -> (result: Result<
        Session,
        JoinError,
    >)
        ensures
            result matches Err(JoinError::InvalidNickname) <==> !valid_nickname(nickname@),
    {
        let mut held = acquire(&self.inner);
        let room = room_of(&mut held);
        match room.join(nickname, message_sender) {
            Ok((id, outbox)) => {
                room.dispatch(outbox);
                Ok(Session { id, chatroom_impl: self.inner.clone() })
            },
            Err(e) => Err(e),
        }
    }
}

impl Session {
    /// Says `text` to everybody else in the room. Nothing happens if this
    /// session has left.
    pub fn send_message(&self, text: String) {
        let mut held = acquire(&self.chatroom_impl);
        let room = room_of(&mut held);
        let outbox = room.send_message(self.id, text);
        room.dispatch(outbox);
    }

    /// Leaves the room and tells everybody who stays. Nothing happens if
    /// this session has left already.
    pub fn leave(&self) {
        let mut held = acquire(&self.chatroom_impl);
        let room = room_of(&mut held);
        let outbox = room.leave(self.id);
        room.dispatch(outbox);
    }
}

} // verus!
