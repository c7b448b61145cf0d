use chatroom::{JoinError, Message};

#[test]
fn joined_is_rendered_with_the_nickname() {
    let line = Message::Joined("alice".to_string()).render();
    assert_eq!(line, "* alice joined the room");
}

#[test]
fn left_is_rendered_with_the_nickname() {
    let line = Message::Left("bob".to_string()).render();
    assert_eq!(line, "* bob left the room");
}

#[test]
fn empty_roster_is_rendered_with_nothing_behind_the_colon() {
    let line = Message::ConnectedUsers(vec![]).render();
    assert_eq!(line, "* Welcome, the room contains: ");
}

#[test]
fn roster_of_one_is_rendered_without_a_comma() {
    let line = Message::ConnectedUsers(vec!["alice".to_string()]).render();
    assert_eq!(line, "* Welcome, the room contains: alice");
}

#[test]
fn roster_is_rendered_in_order_with_comma_and_space() {
    let roster = vec!["alice".to_string(), "bob".to_string(), "carol42".to_string()];
    let line = Message::ConnectedUsers(roster).render();
    assert_eq!(line, "* Welcome, the room contains: alice, bob, carol42");
}

#[test]
fn chat_is_rendered_with_the_sender_in_brackets() {
    let message = Message::Chat { from: "alice".to_string(), text: "hi there".to_string() };
    assert_eq!(message.render(), "[alice] hi there");
}

#[test]
fn chat_with_empty_text_keeps_the_space_behind_the_bracket() {
    let message = Message::Chat { from: "alice".to_string(), text: String::new() };
    assert_eq!(message.render(), "[alice] ");
}

#[test]
fn chat_text_is_rendered_as_it_came() {
    let text = "  * [x] joined, ünï".to_string();
    let message = Message::Chat { from: "bob".to_string(), text };
    assert_eq!(message.render(), "[bob]   * [x] joined, ünï");
}

#[test]
fn rendering_leaves_the_message_as_it_was() {
    let message = Message::Joined("alice".to_string());
    let first = message.render();
    let second = message.render();
    assert_eq!(first, second);
    assert_eq!(message, Message::Joined("alice".to_string()));
}

#[test]
fn a_copy_of_a_message_says_the_same() {
    let messages = vec![
        Message::Joined("alice".to_string()),
        Message::Left("bob".to_string()),
        Message::ConnectedUsers(vec!["alice".to_string(), "bob".to_string()]),
        Message::Chat { from: "alice".to_string(), text: "hi".to_string() },
    ];
    for message in &messages {
        let copy = message.clone();
        assert_eq!(&copy, message);
        assert_eq!(copy.render(), message.render());
    }
}

#[test]
fn duplicate_nickname_is_explained() {
    assert_eq!(JoinError::DuplicateNickname.render(), "Nickname already used.");
}

#[test]
fn invalid_nickname_is_explained() {
    assert_eq!(
        JoinError::InvalidNickname.render(),
        "Nickname can only alphanumerical characters."
    );
}
