//! The membership table and the rules of the room: who is registered, and
//! who is told what when somebody joins, leaves or speaks.

use crate::delivery::{
    inbox, lemma_addressed, lemma_inbox_concat, lemma_inbox_push, Delivery, DeliveryView,
    SessionId,
};
use crate::error::JoinError;
use crate::message::{Message, MessageView};
use crate::model::{lemma_prefix_bound, RegistryView};
use crate::nickname::{is_valid_nickname, valid_nickname};
use crate::sink::deliver;
use crate::walk::{lemma_met_all, lemma_met_step, lemma_walks, met, walks};
use std::collections::HashMap;
use std::sync::mpsc::Sender;
use vstd::prelude::*;
use vstd::std_specs::hash::*;
use vstd::std_specs::iter::IteratorSpec;

verus! {

broadcast use vstd::std_specs::hash::group_hash_axioms;

/// What the registry keeps of one participant.
struct Participant {
    nickname: String,
    sink: Sender<Message>,
}

/// The membership table of the room.
pub struct Registry {
    users: HashMap<SessionId, Participant>,
    session_count: usize,
}

impl View for Registry {
    type V = RegistryView;

    closed spec fn view(&self) -> RegistryView {
        RegistryView {
            members: self.users@.map_values(|p: Participant| p.nickname@),
            session_count: self.session_count,
        }
    }
}

/// How many participants of `room` hear of something that everybody but
/// `skip` is told.
spec fn audience(room: RegistryView, skip: Option<SessionId>) -> nat {
    match skip {
        Some(s) if room.members.contains_key(s) => (room.members.len() - 1) as nat,
        _ => room.members.len(),
    }
}

/// How many of the first `upto` entries of `order` belong to `skip`: one if
/// it is among them, none otherwise.
spec fn skipped(order: Seq<(&SessionId, &Participant)>, upto: int, skip: Option<SessionId>) -> int {
    match skip {
        Some(s) if met(order, upto, s) => 1,
        _ => 0,
    }
}

/// What an announcement of `message` to everybody but `skip` has put into
/// `outbox` once the walk `order` has met its first `upto` entries: one
/// delivery for each of them but `skip`.
spec fn announced(
    outbox: Seq<DeliveryView>,
    order: Seq<(&SessionId, &Participant)>,
    upto: int,
    message: MessageView,
    skip: Option<SessionId>,
) -> bool {
    &&& outbox.len() == upto - skipped(order, upto, skip)
    &&& forall|r: SessionId|
        #![trigger inbox(outbox, r)]
        inbox(outbox, r) == if met(order, upto, r) && skip != Some(r) {
            seq![message]
        } else {
            Seq::empty()
        }
}

/// Nothing is announced before the walk begins.
proof fn lemma_announced_nothing(
    order: Seq<(&SessionId, &Participant)>,
    message: MessageView,
    skip: Option<SessionId>,
)
    ensures
        announced(Seq::empty(), order, 0, message, skip),
{
    assert forall|r: SessionId| inbox(Seq::<DeliveryView>::empty(), r) == Seq::<
        MessageView,
    >::empty() by {
        assert(inbox(Seq::<DeliveryView>::empty(), r) =~= Seq::empty());
    }
}

/// One step of an announcement: the entry on which the walk stands gets its
/// delivery unless it is the one to skip.
proof fn lemma_announced_step(
    outbox: Seq<DeliveryView>,
    order: Seq<(&SessionId, &Participant)>,
    users: Map<SessionId, Participant>,
    at: int,
    message: MessageView,
    skip: Option<SessionId>,
)
    requires
        walks(order, users),
        0 <= at < order.len(),
        announced(outbox, order, at, message, skip),
    ensures
        skip == Some(*order[at].0) ==> announced(outbox, order, at + 1, message, skip),
        skip != Some(*order[at].0) ==> announced(
            outbox.push(DeliveryView { to: *order[at].0, message }),
            order,
            at + 1,
            message,
            skip,
        ),
{
    let session = *order[at].0;
    let sent = DeliveryView { to: session, message };
    lemma_met_step(order, users, at);
    if skip == Some(session) {
        assert(met(order, at + 1, session));
    } else {
        if let Some(s) = skip {
            assert(met(order, at + 1, s) == met(order, at, s));
        }
        assert forall|r: SessionId|
            #![trigger inbox(outbox.push(sent), r)]
            inbox(outbox.push(sent), r) == if met(order, at + 1, r) && skip != Some(r) {
                seq![message]
            } else {
                Seq::empty()
            } by {
            lemma_inbox_push(outbox, sent, r);
            if r == session {
                assert(inbox(outbox, r) == Seq::<MessageView>::empty());
                assert(Seq::<MessageView>::empty().push(message) =~= seq![message]);
            } else {
                assert(inbox(outbox, r) == if met(order, at, r) && skip != Some(r) {
                    seq![message]
                } else {
                    Seq::empty()
                });
            }
        }
    }
}

/// At the end of the walk everybody in the table but `skip` has their
/// delivery, and nobody else has one.
proof fn lemma_announced_all(
    outbox: Seq<DeliveryView>,
    order: Seq<(&SessionId, &Participant)>,
    users: Map<SessionId, Participant>,
    message: MessageView,
    skip: Option<SessionId>,
)
    requires
        walks(order, users),
        announced(outbox, order, order.len() as int, message, skip),
    ensures
        outbox.len() == match skip {
            Some(s) if users.contains_key(s) => users.len() - 1,
            _ => users.len() as int,
        },
        forall|r: SessionId|
            #![trigger inbox(outbox, r)]
            inbox(outbox, r) == if users.contains_key(r) && skip != Some(r) {
                seq![message]
            } else {
                Seq::empty()
            },
{
    lemma_met_all(order, users);
    assert forall|r: SessionId|
        #![trigger inbox(outbox, r)]
        inbox(outbox, r) == if users.contains_key(r) && skip != Some(r) {
            seq![message]
        } else {
            Seq::empty()
        } by {
        assert(met(order, order.len() as int, r) == users.contains_key(r));
    }
}

impl Registry {
    #[verifier::type_invariant]
    spec fn inv(&self) -> bool {
        self@.wf()
    }

    /// The channel of each participant.
    pub closed spec fn sinks(&self) -> Map<SessionId, Sender<Message>> {
        self.users@.map_values(|p: Participant| p.sink)
    }

    /// An empty room.
    pub fn new() -> (registry: Registry)
        ensures
            registry@.members == Map::<SessionId, Seq<char>>::empty(),
            registry@.session_count == 0,
            registry.sinks() == Map::<SessionId, Sender<Message>>::empty(),
            registry@.wf(),
    {
        let users: HashMap<SessionId, Participant> = HashMap::new();
        assert(users@.map_values(|p: Participant| p.nickname@) =~= Map::<
            SessionId,
            Seq<char>,
        >::empty());
        assert(users@.map_values(|p: Participant| p.sink) =~= Map::<
            SessionId,
            Sender<Message>,
        >::empty());
        Registry { users, session_count: 0 }
    }

    /// One delivery of `message` for every participant but `skip`.
    fn announce(&self, message: &Message, skip: Option<SessionId>) -> (outbox: Vec<Delivery>)
        ensures
            outbox.len() == audience(self@, skip),
            forall|r: SessionId|
                #![trigger inbox(outbox.deep_view(), r)]
                inbox(outbox.deep_view(), r) == if self@.members.contains_key(r) && skip != Some(
                    r,
                ) {
                    seq![message@]
                } else {
                    Seq::empty()
                },
            self@.reaches(outbox.deep_view()),
    {
        let mut outbox: Vec<Delivery> = Vec::new();
        let entries = self.users.iter();
        proof {
            lemma_walks(&self.users);
            lemma_announced_nothing(entries.remaining(), message@, skip);
            assert(outbox.deep_view() =~= Seq::empty());
        }
        for entry in it: entries
            invariant
                walks(it.seq(), self.users@),
                announced(outbox.deep_view(), it.seq(), it.index(), message@, skip),
        {
            let session: SessionId = *entry.0;
            let told: bool = match skip {
                Some(s) => s != session,
                None => true,
            };
            let ghost before = outbox.deep_view();
            proof {
                lemma_announced_step(before, it.seq(), self.users@, it.index(), message@, skip);
            }
            if told {
                outbox.push(Delivery { to: session, message: message.clone() });
                assert(outbox.deep_view() =~= before.push(
                    DeliveryView { to: session, message: message@ },
                ));
            }
        }
        proof {
            lemma_announced_all(
                outbox.deep_view(),
                entries.remaining(),
                self.users@,
                message@,
                skip,
            );
            assert(self@.members.dom() =~= self.users@.dom());
            assert forall|i: int| 0 <= i < outbox.len() implies self@.members.contains_key(
                (#[trigger] outbox.deep_view()[i]).to,
            ) by {
                lemma_addressed(outbox.deep_view(), i);
            }
        }
        outbox
    }

    /// Whether somebody in the room goes by `nickname`.
    pub fn is_taken(&self, nickname: &String) -> (taken: bool)
        ensures
            taken == self@.has_nickname(nickname@),
    {
        let entries = self.users.iter();
        proof {
            lemma_walks(&self.users);
        }
        for entry in it: entries
            invariant
                walks(it.seq(), self.users@),
                forall|j: int| 0 <= j < it.index() ==> (#[trigger] it.seq()[j]).1.nickname@
                    != nickname@,
        {
            if entry.1.nickname == *nickname {
                proof {
                    let s = *entry.0;
                    assert(self.users@.contains_key(*it.seq()[it.index()].0));
                    assert(self@.members.contains_key(s) && self@.members[s] == nickname@);
                }
                return true;
            }
        }
        proof {
            let order = entries.remaining();
            if self@.has_nickname(nickname@) {
                let s = choose|s: SessionId| #[trigger]
                    self@.members.contains_key(s) && self@.members[s] == nickname@;
                assert(self.users@.contains_key(s));
                let j = choose|j: int| 0 <= j < order.len() && *(#[trigger] order[j]).0 == s;
                assert(order[j].1.nickname@ == nickname@);
            }
        }
        false
    }

    /// The nicknames of everybody in the room, each one once, in no
    /// particular order.
    pub fn roster(&self) -> (names: Vec<String>)
        ensures
            self@.is_roster(names.deep_view()),
    {
        proof {
            use_type_invariant(self);
        }
        let mut names: Vec<String> = Vec::new();
        let entries = self.users.iter();
        proof {
            lemma_walks(&self.users);
        }
        for entry in it: entries
            invariant
                self@.wf(),
                walks(it.seq(), self.users@),
                names.len() == it.index(),
                forall|j: int|
                    0 <= j < it.index() ==> (#[trigger] names[j])@ == it.seq()[j].1.nickname@,
        {
            names.push(entry.1.nickname.clone());
        }
        proof {
            let order = entries.remaining();
            let listed = names.deep_view();
            assert(self@.members.dom() =~= self.users@.dom());
            assert forall|j: int| 0 <= j < listed.len() implies self@.members.contains_key(
                *order[j].0,
            ) && self@.members[*order[j].0] == #[trigger] listed[j] by {
                assert(self.users@.contains_key(*order[j].0));
                assert(names[j]@ == order[j].1.nickname@);
            }
            assert forall|i: int, j: int|
                0 <= i < listed.len() && 0 <= j < listed.len() && i != j implies listed[i]
                != listed[j] by {
                let a = *order[i].0;
                let b = *order[j].0;
                assert(self@.members[a] == listed[i]);
                assert(self@.members[b] == listed[j]);
                if i < j {
                    assert(*order[i].0 != *order[j].0);
                } else {
                    assert(*order[j].0 != *order[i].0);
                }
            }
            assert forall|nickname: Seq<char>|
                listed.contains(nickname) <==> self@.has_nickname(nickname) by {
                if listed.contains(nickname) {
                    let j = choose|j: int| 0 <= j < listed.len() && listed[j] == nickname;
                    assert(self@.members.contains_key(*order[j].0));
                }
                if self@.has_nickname(nickname) {
                    let s = choose|s: SessionId| #[trigger]
                        self@.members.contains_key(s) && self@.members[s] == nickname;
                    assert(self.users@.contains_key(s));
                    let j = choose|j: int| 0 <= j < order.len() && *(#[trigger] order[j]).0 == s;
                    assert(listed[j] == nickname);
                }
            }
        }
        names
    }

    /// Takes the table out of the registry and leaves an empty one in its
    /// place, so that the table can change while the registry stays
    /// well-formed at every step.
    fn take_users(&mut self) -> (users: HashMap<SessionId, Participant>)
        ensures
            users == old(self).users,
            final(self).users@ == Map::<SessionId, Participant>::empty(),
            final(self).session_count == old(self).session_count,
    {
        let mut users: HashMap<SessionId, Participant> = HashMap::new();
        proof {
            assert(users@.map_values(|p: Participant| p.nickname@) =~= Map::<
                SessionId,
                Seq<char>,
            >::empty());
        }
        std::mem::swap(&mut self.users, &mut users);
        users
    }

    /// Picks the identity of the next participant and counts it.
    fn new_session_id(&mut self) -> (id: SessionId)
        ensures
            id == old(self)@.fresh_id(),
            !old(self)@.members.contains_key(id),
            id <= final(self).session_count,
            final(self).users == old(self).users,
            final(self)@ == (RegistryView {
                members: old(self)@.members,
                session_count: old(self)@.joined(Seq::empty()).session_count,
            }),
    {
        proof {
            use_type_invariant(&*self);
        }
        if self.session_count < usize::MAX {
            self.session_count += 1;
            return self.session_count;
        }
        proof {
            assert(self@.members.dom() =~= self.users@.dom());
        }
        let mut candidate: SessionId = 0;
        while self.users.contains_key(&candidate)
            invariant
                self.users@.dom().finite(),
                self.users@.len() <= usize::MAX,
                forall|s: SessionId| s < candidate ==> #[trigger] self.users@.contains_key(s),
            decreases usize::MAX - candidate,
        {
            proof {
                let held = self.users@.dom();
                assert forall|s: SessionId| s <= candidate implies #[trigger] held.contains(s) by {
                    assert(self.users@.contains_key(s));
                }
                if candidate < usize::MAX {
                    lemma_prefix_bound(held, (candidate + 1) as usize);
                } else {
                    lemma_prefix_bound(held.remove(candidate), candidate);
                }
            }
            candidate += 1;
        }
        proof {
            assert(self@.members.dom() =~= self.users@.dom());
            assert(self@.is_least_free(candidate));
            let chosen = choose|id: SessionId| self@.is_least_free(id);
            if chosen < candidate {
                assert(self@.members.contains_key(chosen));
            }
            if candidate < chosen {
                assert(self@.members.contains_key(candidate));
            }
        }
        candidate
    }

    /// Registers a participant under `nickname`, to be reached through
    /// `sink`.
    ///
    /// The nickname is turned away if it is not acceptable, and otherwise if
    /// somebody in the room already goes by it; the room is then as it was.
    /// Otherwise the newcomer gets a fresh identity and is added to the room.
    /// The deliveries that come back welcome the newcomer, first, with the
    /// roster of those who were there before, and tell each of those once
    /// that the newcomer joined.
    pub fn join(&mut self, nickname: String, sink: Sender<Message>) -> (result: Result<
        (SessionId, Vec<Delivery>),
        JoinError,
    >)
        ensures
            final(self)@.wf(),
            result matches Err(JoinError::InvalidNickname) <==> !valid_nickname(nickname@),
            result matches Err(JoinError::DuplicateNickname) <==> valid_nickname(nickname@)
                && old(self)@.has_nickname(nickname@),
            result is Err ==> *final(self) == *old(self),
            result matches Ok((id, outbox)) ==> {
                &&& id == old(self)@.fresh_id()
                &&& !old(self)@.members.contains_key(id)
                &&& final(self)@ == old(self)@.joined(nickname@)
                &&& final(self).sinks() == old(self).sinks().insert(id, sink)
                &&& outbox.len() == old(self)@.members.len() + 1
                &&& outbox[0].to == id
                &&& outbox[0].message@ matches MessageView::ConnectedUsers(roster)
                &&& old(self)@.is_roster(roster)
                &&& forall|r: SessionId|
                    #![trigger inbox(outbox.deep_view(), r)]
                    inbox(outbox.deep_view(), r) == old(self)@.join_inbox(nickname@, roster, r)
                &&& final(self)@.reaches(outbox.deep_view())
            },
    {
        proof {
            use_type_invariant(&*self);
        }
        if !is_valid_nickname(nickname.as_str()) {
            return Err(JoinError::InvalidNickname);
        }
        if self.is_taken(&nickname) {
            return Err(JoinError::DuplicateNickname);
        }
        let names = self.roster();
        let mut news = self.announce(&Message::Joined(nickname.clone()), None);
        let id = self.new_session_id();

        let ghost roster = names.deep_view();
        let ghost told = news.deep_view();
        let mut outbox: Vec<Delivery> = Vec::new();
        outbox.push(Delivery { to: id, message: Message::ConnectedUsers(names) });
        let ghost welcome = outbox.deep_view();
        outbox.append(&mut news);

        let participant = Participant { nickname, sink };
        let mut users = self.take_users();
        users.insert(id, participant);
        proof {
            let before = old(self)@;
            let after = users@;
            assert(after.map_values(|p: Participant| p.nickname@) =~= before.members.insert(
                id,
                nickname@,
            ));
            assert(after.map_values(|p: Participant| p.sink) =~= old(self).sinks().insert(
                id,
                sink,
            ));
            assert forall|a: SessionId, b: SessionId|
                #![trigger before.joined(nickname@).members[a], before.joined(nickname@).members[b]]
                before.joined(nickname@).members.contains_key(a) && before.joined(
                    nickname@,
                ).members.contains_key(b) && a != b implies before.joined(nickname@).members[a]
                != before.joined(nickname@).members[b] by {
                if a == id {
                    assert(before.members.contains_key(b));
                } else if b == id {
                    assert(before.members.contains_key(a));
                }
            }
            assert(after.len() == spec_hash_map_len(&users));
            assert(before.joined(nickname@).members.dom() =~= after.dom());
            assert(before.joined(nickname@).wf());
        }
        self.users = users;
        proof {
            let before = old(self)@;
            assert(outbox.deep_view() =~= welcome + told);
            assert(welcome =~= seq![
                DeliveryView { to: id, message: MessageView::ConnectedUsers(roster) },
            ]);
            assert forall|r: SessionId|
                #![trigger inbox(outbox.deep_view(), r)]
                inbox(outbox.deep_view(), r) == before.join_inbox(nickname@, roster, r) by {
                lemma_inbox_concat(welcome, told, r);
                lemma_inbox_push(Seq::empty(), welcome[0], r);
                assert(Seq::<DeliveryView>::empty().push(welcome[0]) =~= welcome);
                assert(inbox(Seq::empty(), r) =~= Seq::empty());
                if r == id {
                    assert(inbox(welcome, r) =~= seq![MessageView::ConnectedUsers(roster)]);
                    assert(inbox(welcome, r) + inbox(told, r) =~= inbox(welcome, r));
                } else {
                    assert(inbox(welcome, r) + inbox(told, r) =~= inbox(told, r));
                }
            }
        }
        Ok((id, outbox))
    }

    /// Takes `session` out of the room. If it was there, the deliveries that
    /// come back tell everybody who stays, once, that its participant left;
    /// if not, nothing changes and nobody is told anything.
    pub fn leave(&mut self, session: SessionId) -> (outbox: Vec<Delivery>)
        ensures
            final(self)@.wf(),
            final(self)@ == old(self)@.left(session),
            final(self).sinks() == old(self).sinks().remove(session),
            outbox.len() == if old(self)@.members.contains_key(session) {
                old(self)@.members.len() - 1
            } else {
                0
            },
            forall|r: SessionId|
                #![trigger inbox(outbox.deep_view(), r)]
                inbox(outbox.deep_view(), r) == old(self)@.leave_inbox(session, r),
            final(self)@.reaches(outbox.deep_view()),
    {
        proof {
            use_type_invariant(&*self);
        }
        let mut users = self.take_users();
        let removed = users.remove(&session);
        proof {
            let after = users@;
            assert(after.map_values(|p: Participant| p.nickname@) =~= old(self)@.members.remove(
                session,
            ));
            assert(after.map_values(|p: Participant| p.sink) =~= old(self).sinks().remove(session));
            assert(old(self)@.left(session).wf());
        }
        self.users = users;
        match removed {
            Some(gone) => {
                proof {
                    assert(self@.members.dom() =~= old(self)@.members.dom().remove(session));
                }
                self.announce(&Message::Left(gone.nickname), None)
            },
            None => {
                let outbox: Vec<Delivery> = Vec::new();
                proof {
                    assert(old(self)@.members.dom() =~= old(self).users@.dom());
                    assert(outbox.deep_view() =~= Seq::empty());
                }
                outbox
            },
        }
    }

    /// The deliveries by which `session` says `text` to the room: one for
    /// everybody else, under the speaker's nickname and with the text as it
    /// came. Nothing if `session` is not in the room.
    pub fn send_message(&self, session: SessionId, text: String) -> (outbox: Vec<Delivery>)
        ensures
            outbox.len() == if self@.members.contains_key(session) {
                self@.members.len() - 1
            } else {
                0
            },
            forall|r: SessionId|
                #![trigger inbox(outbox.deep_view(), r)]
                inbox(outbox.deep_view(), r) == self@.chat_inbox(session, text@, r),
            self@.reaches(outbox.deep_view()),
    {
        match self.users.get(&session) {
            Some(speaker) => {
                proof {
                    assert(self@.members.dom() =~= self.users@.dom());
                }
                let message = Message::Chat { from: speaker.nickname.clone(), text };
                self.announce(&message, Some(session))
            },
            None => {
                let outbox: Vec<Delivery> = Vec::new();
                proof {
                    assert(self@.members.dom() =~= self.users@.dom());
                    assert(outbox.deep_view() =~= Seq::empty());
                }
                outbox
            },
        }
    }

    /// Hands each delivery of `outbox` to the channel of the participant it
    /// is addressed to, in order. Every delivery finds its channel; one that
    /// the channel does not take is lost, and the others go on.
    pub(crate) fn dispatch(&self, outbox: Vec<Delivery>)
        requires
            self@.reaches(outbox.deep_view()),
    {
        for delivery in it: outbox
            invariant
                self@.reaches(outbox.deep_view()),
                it.seq() == outbox@,
        {
            proof {
                assert(self@.members.dom() =~= self.users@.dom());
                assert(outbox.deep_view()[it.index()].to == delivery.to);
            }
            match self.users.get(&delivery.to) {
                Some(participant) => {
                    let _ = deliver(&participant.sink, delivery.message);
                },
                None => {
                    // Not reached: the delivery is addressed to a participant.
                    proof {
                        assert(false);
                    }
                },
            }
        }
    }
}

impl Default for Registry {
    /// An empty room.
    fn default() -> (registry: Registry)
        ensures
            registry@.members == Map::<SessionId, Seq<char>>::empty(),
            registry@.session_count == 0,
            registry.sinks() == Map::<SessionId, Sender<Message>>::empty(),
            registry@.wf(),
    {
        Registry::new()
    }
}

} // verus!
