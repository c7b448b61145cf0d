//! The room as a mathematical value, and what each operation makes of it.

use crate::delivery::{DeliveryView, SessionId};
use crate::message::MessageView;
use crate::nickname::valid_nickname;
use vstd::prelude::*;

verus! {

/// The state of the room: who is registered under which nickname, and how
/// many identities were handed out by counting.
pub struct RegistryView {
    pub members: Map<SessionId, Seq<char>>,
    pub session_count: usize,
}

impl RegistryView {
    /// What holds of every room: its participants can be counted, no
    /// identity beyond the count is in use, every nickname is acceptable,
    /// and no two participants share one.
    pub open spec fn wf(self) -> bool {
        &&& self.members.dom().finite()
        &&& self.members.len() <= usize::MAX
        &&& forall|s: SessionId| #[trigger]
            self.members.contains_key(s) ==> s <= self.session_count && valid_nickname(
                self.members[s],
            )
        &&& forall|a: SessionId, b: SessionId|
            #![trigger self.members[a], self.members[b]]
            self.members.contains_key(a) && self.members.contains_key(b) && a != b
                ==> self.members[a] != self.members[b]
    }

    /// Whether somebody in the room goes by `nickname`.
    pub open spec fn has_nickname(self, nickname: Seq<char>) -> bool {
        exists|s: SessionId| #[trigger] self.members.contains_key(s) && self.members[s] == nickname
    }

    /// Whether `roster` names everybody in the room exactly once, in whatever
    /// order.
    pub open spec fn is_roster(self, roster: Seq<Seq<char>>) -> bool {
        &&& roster.no_duplicates()
        &&& roster.len() == self.members.len()
        &&& forall|nickname: Seq<char>|
            roster.contains(nickname) <==> self.has_nickname(nickname)
    }

    /// Whether every delivery of `outbox` is addressed to somebody in the
    /// room.
    pub open spec fn reaches(self, outbox: Seq<DeliveryView>) -> bool {
        forall|i: int|
            0 <= i < outbox.len() ==> self.members.contains_key((#[trigger] outbox[i]).to)
    }

    /// The identity that the next participant gets: the count goes up by one
    /// as long as it can, and after that the smallest identity that nobody
    /// holds is used again.
    pub open spec fn fresh_id(self) -> SessionId {
        if self.session_count < usize::MAX {
            (self.session_count + 1) as usize
        } else {
            choose|id: SessionId| self.is_least_free(id)
        }
    }

    /// Whether nobody holds `id` while every smaller identity is held.
    pub open spec fn is_least_free(self, id: SessionId) -> bool {
        &&& !self.members.contains_key(id)
        &&& forall|s: SessionId| s < id ==> #[trigger] self.members.contains_key(s)
    }

    /// The room after somebody joined as `nickname`.
    pub open spec fn joined(self, nickname: Seq<char>) -> RegistryView {
        RegistryView {
            members: self.members.insert(self.fresh_id(), nickname),
            session_count: if self.session_count < usize::MAX {
                (self.session_count + 1) as usize
            } else {
                self.session_count
            },
        }
    }

    /// The room after `session` left; the same room if it was not there.
    pub open spec fn left(self, session: SessionId) -> RegistryView {
        RegistryView { members: self.members.remove(session), session_count: self.session_count }
    }

    /// What `recipient` is told when somebody joins as `nickname` and is
    /// welcomed with `roster`: the newcomer gets the roster, everybody who
    /// was there before gets the news, nobody gets anything else.
    pub open spec fn join_inbox(
        self,
        nickname: Seq<char>,
        roster: Seq<Seq<char>>,
        recipient: SessionId,
    ) -> Seq<MessageView> {
        if recipient == self.fresh_id() {
            seq![MessageView::ConnectedUsers(roster)]
        } else if self.members.contains_key(recipient) {
            seq![MessageView::Joined(nickname)]
        } else {
            Seq::empty()
        }
    }

    /// What `recipient` is told when `session` leaves: if `session` was in
    /// the room, everybody who stays gets the news once.
    pub open spec fn leave_inbox(self, session: SessionId, recipient: SessionId) -> Seq<
        MessageView,
    > {
        if self.members.contains_key(session) && self.members.contains_key(recipient) && recipient
            != session {
            seq![MessageView::Left(self.members[session])]
        } else {
            Seq::empty()
        }
    }

    /// What `recipient` is told when `session` says `text`: if `session` is
    /// in the room, everybody else gets the text once, under the speaker's
    /// nickname.
    pub open spec fn chat_inbox(
        self,
        session: SessionId,
        text: Seq<char>,
        recipient: SessionId,
    ) -> Seq<MessageView> {
        if self.members.contains_key(session) && self.members.contains_key(recipient) && recipient
            != session {
            seq![MessageView::Chat { from: self.members[session], text }]
        } else {
            Seq::empty()
        }
    }
}

/// A finite set that holds every identity below `bound` has at least `bound`
/// elements.
pub proof fn lemma_prefix_bound(held: Set<SessionId>, bound: SessionId)
    requires
        held.finite(),
        forall|s: SessionId| s < bound ==> #[trigger] held.contains(s),
    ensures
        bound <= held.len(),
    decreases bound,
{
    if bound > 0 {
        let last: SessionId = (bound - 1) as usize;
        assert(held.contains(last));
        lemma_prefix_bound(held.remove(last), last);
    }
}

} // verus!
