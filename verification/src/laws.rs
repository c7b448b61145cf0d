//! What follows from the rules of the room, whatever its state.
//!
//! Each statement is about the functions of [`RegistryView`] in which
//! [`Registry::join`](crate::registry::Registry::join),
//! [`Registry::leave`](crate::registry::Registry::leave) and
//! [`Registry::send_message`](crate::registry::Registry::send_message) state
//! what they do.

use crate::delivery::SessionId;
use crate::message::MessageView;
use crate::model::{lemma_prefix_bound, RegistryView};
use crate::nickname::valid_nickname;
use vstd::prelude::*;

verus! {

/// When somebody joins, the newcomer is told exactly one thing, the roster,
/// and everybody who was in the room before is told exactly one thing, that
/// the newcomer joined. Nobody else is told anything.
pub proof fn law_join_tells_each_once(
    room: RegistryView,
    nickname: Seq<char>,
    roster: Seq<Seq<char>>,
    recipient: SessionId,
)
    requires
        room.wf(),
    ensures
        recipient == room.fresh_id() ==> room.join_inbox(nickname, roster, recipient)
            == seq![MessageView::ConnectedUsers(roster)],
        room.members.contains_key(recipient) ==> room.join_inbox(nickname, roster, recipient)
            == seq![MessageView::Joined(nickname)],
        !room.joined(nickname).members.contains_key(recipient) ==> room.join_inbox(
            nickname,
            roster,
            recipient,
        ) == Seq::<MessageView>::empty(),
{
    law_fresh_id_is_free(room);
}

/// A roster of the room holds, as a set, exactly the nicknames of those who
/// are in it, whatever its order.
pub proof fn law_roster_is_the_set_of_nicknames(room: RegistryView, roster: Seq<Seq<char>>)
    requires
        room.wf(),
        room.is_roster(roster),
    ensures
        roster.to_set() == room.members.values(),
{
    assert forall|nickname: Seq<char>|
        roster.to_set().contains(nickname) == room.members.values().contains(nickname) by {
        assert(roster.contains(nickname) == room.has_nickname(nickname));
        if room.has_nickname(nickname) {
            let s = choose|s: SessionId| #[trigger]
                room.members.contains_key(s) && room.members[s] == nickname;
            assert(room.members.contains_key(s) && room.members[s] == nickname);
        }
    }
    assert(roster.to_set() =~= room.members.values());
}

/// When a participant leaves, everybody who stays is told exactly one
/// thing: that the participant left, by the nickname it had.
pub proof fn law_leave_tells_the_rest_once(
    room: RegistryView,
    session: SessionId,
    recipient: SessionId,
)
    requires
        room.wf(),
        room.members.contains_key(session),
    ensures
        room.left(session).members.contains_key(recipient) ==> room.leave_inbox(session, recipient)
            == seq![MessageView::Left(room.members[session])],
        !room.left(session).members.contains_key(recipient) ==> room.leave_inbox(
            session,
            recipient,
        ) == Seq::<MessageView>::empty(),
{
}

/// A session that has left says nothing any more: whatever it sends,
/// nobody is told.
pub proof fn law_silent_after_leave(
    room: RegistryView,
    session: SessionId,
    text: Seq<char>,
    recipient: SessionId,
)
    ensures
        room.left(session).chat_inbox(session, text, recipient) == Seq::<MessageView>::empty(),
{
}

/// A message never comes back to the one who sent it, and reaches everybody
/// else in the room once, under the sender's nickname and with its text
/// unchanged.
pub proof fn law_message_reaches_the_others(
    room: RegistryView,
    session: SessionId,
    text: Seq<char>,
    recipient: SessionId,
)
    requires
        room.members.contains_key(session),
    ensures
        room.chat_inbox(session, text, session) == Seq::<MessageView>::empty(),
        room.members.contains_key(recipient) && recipient != session ==> room.chat_inbox(
            session,
            text,
            recipient,
        ) == seq![MessageView::Chat { from: room.members[session], text }],
        !room.members.contains_key(recipient) ==> room.chat_inbox(session, text, recipient)
            == Seq::<MessageView>::empty(),
{
}

/// Leaving twice is leaving once: the second time the room stays as it is
/// and nobody is told anything.
pub proof fn law_leave_is_idempotent(room: RegistryView, session: SessionId, recipient: SessionId)
    ensures
        room.left(session).left(session) == room.left(session),
        room.left(session).leave_inbox(session, recipient) == Seq::<MessageView>::empty(),
{
    assert(room.left(session).left(session).members =~= room.left(session).members);
}

/// A room stays well-formed when somebody leaves it.
pub proof fn law_leave_keeps_the_room_well_formed(room: RegistryView, session: SessionId)
    requires
        room.wf(),
    ensures
        room.left(session).wf(),
{
}

/// The smallest identity from `from` on that nobody in `room` holds.
proof fn least_free_from(room: RegistryView, from: SessionId) -> (least: SessionId)
    requires
        room.wf(),
        forall|s: SessionId| s < from ==> #[trigger] room.members.contains_key(s),
    ensures
        room.is_least_free(least),
    decreases usize::MAX - from,
{
    if !room.members.contains_key(from) {
        from
    } else {
        assert forall|s: SessionId| s <= from implies #[trigger] room.members.dom().contains(s) by {
            assert(room.members.contains_key(s));
        }
        if from == usize::MAX {
            lemma_prefix_bound(room.members.dom().remove(from), from);
            from
        } else {
            least_free_from(room, (from + 1) as usize)
        }
    }
}

/// The identity that the next participant gets is held by nobody.
pub proof fn law_fresh_id_is_free(room: RegistryView)
    requires
        room.wf(),
    ensures
        !room.members.contains_key(room.fresh_id()),
{
    if room.session_count == usize::MAX {
        let least = least_free_from(room, 0);
        assert(room.is_least_free(least));
    }
}

/// A room with space left stays well-formed when somebody joins it under
/// an acceptable nickname that nobody in it goes by, and the newcomer is
/// then in it under that nickname.
pub proof fn law_join_keeps_the_room_well_formed(room: RegistryView, nickname: Seq<char>)
    requires
        room.wf(),
        room.members.len() < usize::MAX,
        valid_nickname(nickname),
        !room.has_nickname(nickname),
    ensures
        room.joined(nickname).wf(),
        room.joined(nickname).has_nickname(nickname),
        room.joined(nickname).members.len() == room.members.len() + 1,
{
    law_fresh_id_is_free(room);
    let id = room.fresh_id();
    let after = room.joined(nickname);
    assert(after.members.contains_key(id) && after.members[id] == nickname);
    assert forall|a: SessionId, b: SessionId|
        #![trigger after.members[a], after.members[b]]
        after.members.contains_key(a) && after.members.contains_key(b) && a != b
            implies after.members[a] != after.members[b] by {
        if a == id {
            assert(room.members.contains_key(b));
        } else if b == id {
            assert(room.members.contains_key(a));
        }
    }
}

/// As long as identities are handed out by counting, a join brings nobody
/// back: a session that is not in the room is not in it afterwards either,
/// unless it is the newcomer's.
pub proof fn law_join_brings_nobody_back(
    room: RegistryView,
    nickname: Seq<char>,
    session: SessionId,
)
    requires
        room.wf(),
        room.session_count < usize::MAX,
        !room.members.contains_key(session),
        session <= room.session_count,
    ensures
        !room.joined(nickname).members.contains_key(session),
        room.fresh_id() > room.session_count,
{
}

} // verus!
