use chatroom::{Chatroom, JoinError, Message, Session};
use std::sync::mpsc::{channel, Receiver, TryRecvError};

/// Joins `room` as `nickname` and keeps the receiving end of the channel.
fn enter(room: &Chatroom, nickname: &str) -> (Session, Receiver<Message>) {
    let (sender, receiver) = channel();
    match room.join(nickname.to_string(), sender) {
        Ok(session) => (session, receiver),
        Err(e) => panic!("{} could not join: {:?}", nickname, e),
    }
}

/// Everything that has arrived at `receiver` so far.
fn arrived(receiver: &Receiver<Message>) -> Vec<Message> {
    let mut messages = Vec::new();
    while let Ok(message) = receiver.try_recv() {
        messages.push(message);
    }
    messages
}

fn chat(from: &str, text: &str) -> Message {
    Message::Chat { from: from.to_string(), text: text.to_string() }
}

#[test]
fn two_participants_talk_and_one_leaves() {
    let room = Chatroom::default();

    let (alice, to_alice) = enter(&room, "alice");
    assert_eq!(arrived(&to_alice), vec![Message::ConnectedUsers(vec![])]);

    let (bob, to_bob) = enter(&room, "bob");
    assert_eq!(arrived(&to_bob), vec![Message::ConnectedUsers(vec!["alice".to_string()])]);
    assert_eq!(arrived(&to_alice), vec![Message::Joined("bob".to_string())]);

    alice.send_message("hi".to_string());
    assert_eq!(arrived(&to_bob), vec![chat("alice", "hi")]);
    assert!(arrived(&to_alice).is_empty());

    bob.leave();
    assert_eq!(arrived(&to_alice), vec![Message::Left("bob".to_string())]);
    assert!(arrived(&to_bob).is_empty());

    alice.send_message("yo".to_string());
    assert!(arrived(&to_alice).is_empty());
    assert!(arrived(&to_bob).is_empty());
}

#[test]
fn the_second_to_ask_for_a_nickname_is_turned_away() {
    let room = Chatroom::default();
    let one_connection = room.clone();
    let other_connection = room.clone();
    let (first_sender, first) = channel();
    let (second_sender, second) = channel();

    let won = one_connection.join("sam".to_string(), first_sender);
    let lost = other_connection.join("sam".to_string(), second_sender);

    assert!(won.is_ok());
    assert_eq!(lost.err(), Some(JoinError::DuplicateNickname));
    assert_eq!(arrived(&first), vec![Message::ConnectedUsers(vec![])]);
    assert_eq!(second.try_recv(), Err(TryRecvError::Disconnected));
}

#[test]
fn an_invalid_nickname_is_turned_away_and_nobody_hears_of_it() {
    let room = Chatroom::default();
    let (_alice, to_alice) = enter(&room, "alice");
    arrived(&to_alice);

    for nickname in ["", "bob smith", "bob!", "bób"] {
        let (sender, receiver) = channel();
        let result = room.join(nickname.to_string(), sender);
        assert_eq!(result.err(), Some(JoinError::InvalidNickname), "for {:?}", nickname);
        assert_eq!(receiver.try_recv(), Err(TryRecvError::Disconnected));
    }
    assert!(arrived(&to_alice).is_empty());

    let (_bob, to_bob) = enter(&room, "bob");
    assert_eq!(arrived(&to_bob), vec![Message::ConnectedUsers(vec!["alice".to_string()])]);
}

#[test]
fn a_duplicate_nickname_is_turned_away_and_nobody_hears_of_it() {
    let room = Chatroom::default();
    let (_alice, to_alice) = enter(&room, "alice");
    arrived(&to_alice);

    let (sender, receiver) = channel();
    let result = room.join("alice".to_string(), sender);
    assert_eq!(result.err(), Some(JoinError::DuplicateNickname));
    assert_eq!(receiver.try_recv(), Err(TryRecvError::Disconnected));
    assert!(arrived(&to_alice).is_empty());
}

#[test]
fn an_empty_nickname_is_invalid_even_in_an_empty_room() {
    let room = Chatroom::default();
    let (sender, _receiver) = channel();
    assert_eq!(room.join(String::new(), sender).err(), Some(JoinError::InvalidNickname));
}

#[test]
fn everybody_else_hears_a_message_once() {
    let room = Chatroom::default();
    let (alice, to_alice) = enter(&room, "alice");
    let (_bob, to_bob) = enter(&room, "bob");
    let (_carol, to_carol) = enter(&room, "carol");
    arrived(&to_alice);
    arrived(&to_bob);
    arrived(&to_carol);

    alice.send_message("".to_string());
    alice.send_message("  two  ".to_string());

    assert!(arrived(&to_alice).is_empty());
    assert_eq!(arrived(&to_bob), vec![chat("alice", ""), chat("alice", "  two  ")]);
    assert_eq!(arrived(&to_carol), vec![chat("alice", ""), chat("alice", "  two  ")]);
}

#[test]
fn leaving_twice_is_told_once() {
    let room = Chatroom::default();
    let (_alice, to_alice) = enter(&room, "alice");
    let (bob, to_bob) = enter(&room, "bob");
    arrived(&to_alice);
    arrived(&to_bob);

    bob.leave();
    bob.leave();

    assert_eq!(arrived(&to_alice), vec![Message::Left("bob".to_string())]);
    assert!(arrived(&to_bob).is_empty());
}

#[test]
fn a_session_is_not_heard_after_it_left_the_chatroom() {
    let room = Chatroom::default();
    let (_alice, to_alice) = enter(&room, "alice");
    let (bob, _to_bob) = enter(&room, "bob");
    bob.leave();
    arrived(&to_alice);

    bob.send_message("one more thing".to_string());
    assert!(arrived(&to_alice).is_empty());
}

#[test]
fn a_nickname_can_be_taken_again_after_its_holder_left() {
    let room = Chatroom::default();
    let (alice, _to_alice) = enter(&room, "alice");
    let (_bob, to_bob) = enter(&room, "bob");
    arrived(&to_bob);

    alice.leave();
    let (again, to_again) = enter(&room, "alice");

    assert_eq!(arrived(&to_again), vec![Message::ConnectedUsers(vec!["bob".to_string()])]);
    assert_eq!(
        arrived(&to_bob),
        vec![Message::Left("alice".to_string()), Message::Joined("alice".to_string())]
    );

    // The session that left stays out, whoever holds its nickname now.
    alice.send_message("ghost".to_string());
    assert!(arrived(&to_bob).is_empty());
    again.send_message("back".to_string());
    assert_eq!(arrived(&to_bob), vec![chat("alice", "back")]);
}

#[test]
fn a_closed_channel_does_not_stop_the_others_from_hearing() {
    let room = Chatroom::default();
    let (alice, to_alice) = enter(&room, "alice");
    let (_bob, to_bob) = enter(&room, "bob");
    let (_carol, to_carol) = enter(&room, "carol");
    drop(to_bob);
    arrived(&to_alice);
    arrived(&to_carol);

    alice.send_message("hi".to_string());
    assert_eq!(arrived(&to_carol), vec![chat("alice", "hi")]);

    // Bob counts as present until his session leaves.
    let (sender, _receiver) = channel();
    assert_eq!(room.join("bob".to_string(), sender).err(), Some(JoinError::DuplicateNickname));
}

#[test]
fn joining_with_a_closed_channel_still_registers() {
    let room = Chatroom::default();
    let (sender, receiver) = channel();
    drop(receiver);
    let ghost = room.join("ghost".to_string(), sender);
    assert!(ghost.is_ok());

    let (_alice, to_alice) = enter(&room, "alice");
    assert_eq!(arrived(&to_alice), vec![Message::ConnectedUsers(vec!["ghost".to_string()])]);
}

#[test]
fn copies_of_a_chatroom_are_the_same_room() {
    let room = Chatroom::default();
    let copy = room.clone();
    let (_alice, to_alice) = enter(&room, "alice");
    let (bob, to_bob) = enter(&copy, "bob");

    assert_eq!(arrived(&to_bob), vec![Message::ConnectedUsers(vec!["alice".to_string()])]);
    bob.send_message("hi".to_string());
    assert_eq!(
        arrived(&to_alice),
        vec![
            Message::ConnectedUsers(vec![]),
            Message::Joined("bob".to_string()),
            chat("bob", "hi"),
        ]
    );
}

#[test]
fn two_chatrooms_are_two_rooms() {
    let here = Chatroom::default();
    let there = Chatroom::default();
    let (_alice, to_alice) = enter(&here, "alice");
    let (other, to_other) = enter(&there, "alice");

    assert_eq!(arrived(&to_other), vec![Message::ConnectedUsers(vec![])]);
    other.send_message("hi".to_string());
    other.leave();
    assert_eq!(arrived(&to_alice), vec![Message::ConnectedUsers(vec![])]);
}

#[test]
fn what_arrives_is_rendered_line_by_line() {
    let room = Chatroom::default();
    let (alice, to_alice) = enter(&room, "alice");
    let (bob, to_bob) = enter(&room, "bob");
    alice.send_message("hi".to_string());
    bob.leave();

    let lines_of = |messages: Vec<Message>| -> Vec<String> {
        messages.iter().map(|m| m.render()).collect()
    };
    assert_eq!(
        lines_of(arrived(&to_alice)),
        vec![
            "* Welcome, the room contains: ".to_string(),
            "* bob joined the room".to_string(),
            "* bob left the room".to_string(),
        ]
    );
    assert_eq!(
        lines_of(arrived(&to_bob)),
        vec!["* Welcome, the room contains: alice".to_string(), "[alice] hi".to_string()]
    );
}
