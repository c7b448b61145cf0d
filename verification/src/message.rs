//! The events that participants are told of, and the line of text that each
//! one becomes on the wire.

use vstd::prelude::*;
use vstd::string::*;

verus! {

/// An event delivered to a participant.
#[derive(Debug, PartialEq, Eq)]
pub enum Message {
    /// Told to everybody already in the room when somebody joins.
    Joined(String),
    /// Told to everybody still in the room when somebody leaves.
    Left(String),
    /// Told to the newcomer alone: who was in the room before them.
    ConnectedUsers(Vec<String>),
    /// A line of text that `from` wrote, told to everybody else.
    Chat { from: String, text: String },
}

/// What a [`Message`] says, with every string as a sequence of characters.
pub enum MessageView {
    Joined(Seq<char>),
    Left(Seq<char>),
    ConnectedUsers(Seq<Seq<char>>),
    Chat { from: Seq<char>, text: Seq<char> },
}

/// The names of `names` in order, with a comma and a space between
/// neighbours.
pub open spec fn comma_separated(names: Seq<Seq<char>>) -> Seq<char>
    decreases names.len(),
{
    if names.len() == 0 {
        Seq::empty()
    } else if names.len() == 1 {
        names[0]
    } else {
        comma_separated(names.drop_last()) + ", "@ + names.last()
    }
}

impl MessageView {
    /// The line of text that stands for this message.
    pub open spec fn rendered(self) -> Seq<char> {
        match self {
            MessageView::Joined(nickname) => "* "@ + nickname + " joined the room"@,
            MessageView::Left(nickname) => "* "@ + nickname + " left the room"@,
            MessageView::ConnectedUsers(roster) => "* Welcome, the room contains: "@
                + comma_separated(roster),
            MessageView::Chat { from, text } => "["@ + from + "] "@ + text,
        }
    }
}

impl View for Message {
    type V = MessageView;

    open spec fn view(&self) -> MessageView {
        match *self {
            Message::Joined(nickname) => MessageView::Joined(nickname@),
            Message::Left(nickname) => MessageView::Left(nickname@),
            Message::ConnectedUsers(roster) => MessageView::ConnectedUsers(roster.deep_view()),
            Message::Chat { from, text } => MessageView::Chat { from: from@, text: text@ },
        }
    }
}

impl DeepView for Message {
    type V = MessageView;

    open spec fn deep_view(&self) -> MessageView {
        self@
    }
}

impl Clone for Message {
    fn clone(&self) -> (copy: Self)
        ensures
            copy@ == self@,
    {
        match self {
            Message::Joined(nickname) => Message::Joined(nickname.clone()),
            Message::Left(nickname) => Message::Left(nickname.clone()),
            Message::ConnectedUsers(roster) => Message::ConnectedUsers(clone_names(roster)),
            Message::Chat { from, text } => Message::Chat {
                from: from.clone(),
                text: text.clone(),
            },
        }
    }
}

/// A copy of `names`, name by name.
fn clone_names(names: &Vec<String>) -> (copy: Vec<String>)
    ensures
        copy.deep_view() == names.deep_view(),
{
    let mut copy: Vec<String> = Vec::new();
    let mut i: usize = 0;
    while i < names.len()
        invariant
            i <= names.len(),
            copy.len() == i,
            forall|j: int| 0 <= j < i ==> copy[j]@ == names[j]@,
        decreases names.len() - i,
    {
        copy.push(names[i].clone());
        i += 1;
    }
    assert(copy.deep_view() =~= names.deep_view());
    copy
}

/// Writes the names of `names` behind `line`, with a comma and a space
/// between neighbours.
fn append_comma_separated(line: &mut String, names: &Vec<String>)
    ensures
        final(line)@ == old(line)@ + comma_separated(names.deep_view()),
{
    let ghost all = names.deep_view();
    let mut i: usize = 0;
    while i < names.len()
        invariant
            i <= names.len(),
            all == names.deep_view(),
            line@ == old(line)@ + comma_separated(all.take(i as int)),
        decreases names.len() - i,
    {
        let ghost before = all.take(i as int);
        let ghost after = all.take(i + 1);
        proof {
            assert(after.drop_last() =~= before);
            assert(after.last() == names[i as int]@);
        }
        if i > 0 {
            line.append(", ");
            line.append(names[i].as_str());
            assert(line@ =~= old(line)@ + (comma_separated(before) + ", "@ + names[i as int]@));
        } else {
            line.append(names[i].as_str());
            assert(line@ =~= old(line)@ + names[i as int]@);
        }
        i += 1;
    }
    assert(all.take(names.len() as int) =~= all);
}

impl Message {
    /// The line of text that stands for this message.
    pub fn render(&self) -> (line: String)
        ensures
            line@ == self@.rendered(),
    {
        match self {
            Message::Joined(nickname) => {
                let mut line = String::from_str("* ");
                line.append(nickname.as_str());
                line.append(" joined the room");
                line
            },
            Message::Left(nickname) => {
                let mut line = String::from_str("* ");
                line.append(nickname.as_str());
                line.append(" left the room");
                line
            },
            Message::ConnectedUsers(roster) => {
                let mut line = String::from_str("* Welcome, the room contains: ");
                append_comma_separated(&mut line, roster);
                line
            },
            Message::Chat { from, text } => {
                let mut line = String::from_str("[");
                line.append(from.as_str());
                line.append("] ");
                line.append(text.as_str());
                line
            },
        }
    }
}

} // verus!
