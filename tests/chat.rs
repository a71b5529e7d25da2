use protohackers::nick::{valid_message, valid_nick};
use protohackers::protocol::{event_line, nick_prompt, roster_line, trim_line_end};
use protohackers::room::{ChatEvent, JoinError, Room};
use protohackers::session::{Action, Session};

fn s(text: &str) -> String {
    text.to_string()
}

fn join(room: &mut Room, nick: &str) -> (Session, Action) {
    let mut session = Session::new();
    let action = session.on_line(room, &s(&format!("{}\n", nick)));
    (session, action)
}

fn sent(action: Action) -> String {
    match action {
        Action::Send(text) => text,
        _ => panic!("expected a line to send"),
    }
}

#[test]
fn two_users_chat_scenario() {
    let mut room = Room::new();
    assert_eq!(nick_prompt(), "Nick?\n");
    let (mut a, greet_a) = join(&mut room, "A");
    assert_eq!(sent(greet_a), "* The room contains: \n");
    let (mut b, greet_b) = join(&mut room, "B");
    assert_eq!(sent(greet_b), "* The room contains: A\n");

    assert!(matches!(a.on_line(&mut room, &s("hello\n")), Action::Continue));
    assert_eq!(b.drain(&mut room), vec![s("[A]: hello\n")]);
    assert!(a.drain(&mut room).is_empty());

    assert!(matches!(b.on_line(&mut room, &s("hi\n")), Action::Continue));
    assert_eq!(a.drain(&mut room), vec![s("[B]: hi\n")]);

    b.on_disconnect(&mut room);
    assert!(matches!(b, Session::Closed));
    assert!(a.drain(&mut room).is_empty());

    let (c, rejected) = join(&mut room, "A");
    assert!(matches!(rejected, Action::Reject(JoinError::NickTaken)));
    assert!(matches!(c, Session::Closed));
    assert_eq!(room.nicks(), vec![s("A")]);
    a.on_disconnect(&mut room);
    assert_eq!(room.len(), 0);
}

#[test]
fn rosters_list_earlier_joins_in_order() {
    let mut room = Room::new();
    assert_eq!(room.try_join(&s("alice")).unwrap(), Vec::<String>::new());
    assert_eq!(room.try_join(&s("bob")).unwrap(), vec![s("alice")]);
    assert_eq!(room.try_join(&s("carol")).unwrap(), vec![s("alice"), s("bob")]);
    let (_, greet) = join(&mut room, "dave");
    assert_eq!(sent(greet), "* The room contains: alice, bob, carol\n");
    assert_eq!(room.nicks(), vec![s("alice"), s("bob"), s("carol"), s("dave")]);
}

#[test]
fn same_nick_joins_once() {
    let mut room = Room::new();
    assert!(room.try_join(&s("twin")).is_ok());
    assert_eq!(room.try_join(&s("twin")), Err(JoinError::NickTaken));
    assert_eq!(room.nicks(), vec![s("twin")]);
}

#[test]
fn broadcast_skips_sender_and_keeps_order() {
    let mut room = Room::new();
    room.try_join(&s("a")).unwrap();
    room.try_join(&s("b")).unwrap();
    room.try_join(&s("c")).unwrap();
    room.broadcast(&s("a"), &s("one\n"));
    room.broadcast(&s("a"), &s("two\n"));
    room.broadcast(&s("b"), &s("three\n"));
    assert!(room.take_pending(&s("a")).iter().all(|e| e.from != "a"));
    let to_b: Vec<String> = room.take_pending(&s("b")).iter().map(|e| e.text.clone()).collect();
    assert_eq!(to_b, vec![s("one\n"), s("two\n")]);
    let to_c: Vec<(String, String)> =
        room.take_pending(&s("c")).into_iter().map(|e| (e.from, e.text)).collect();
    assert_eq!(
        to_c,
        vec![(s("a"), s("one\n")), (s("a"), s("two\n")), (s("b"), s("three\n"))]
    );
    assert!(room.take_pending(&s("c")).is_empty());
}

#[test]
fn left_nick_is_free_again() {
    let mut room = Room::new();
    room.try_join(&s("x")).unwrap();
    room.try_join(&s("y")).unwrap();
    room.leave(&s("x"));
    room.leave(&s("x"));
    assert!(!room.has_user(&s("x")));
    room.broadcast(&s("y"), &s("anyone?\n"));
    assert!(room.take_pending(&s("x")).is_empty());
    assert_eq!(room.try_join(&s("x")).unwrap(), vec![s("y")]);
    assert!(room.take_pending(&s("x")).is_empty());
}

#[test]
fn invalid_nicks_are_rejected() {
    let mut room = Room::new();
    assert_eq!(room.try_join(&s("")), Err(JoinError::InvalidNick));
    let long = "n".repeat(129);
    assert_eq!(room.try_join(&long), Err(JoinError::InvalidNick));
    assert_eq!(room.try_join(&s("bad nick")), Err(JoinError::InvalidNick));
    assert_eq!(room.len(), 0);
    let (_, empty) = join(&mut room, "");
    assert!(matches!(empty, Action::Reject(JoinError::InvalidNick)));
    let edge = "n".repeat(128);
    assert_eq!(room.try_join(&edge).unwrap(), Vec::<String>::new());
    assert_eq!(room.nicks(), vec![edge]);
}

#[test]
fn nick_validation_rules() {
    assert!(valid_nick(&s("Abc123")));
    assert!(!valid_nick(&s("")));
    assert!(!valid_nick(&s("a-b")));
    assert!(!valid_nick(&s("new\n")));
    assert!(valid_nick(&"z".repeat(128)));
    assert!(!valid_nick(&"z".repeat(129)));
}

#[test]
fn message_length_limit() {
    assert!(valid_message(String::new()));
    assert!(valid_message("m".repeat(1000)));
    assert!(!valid_message("m".repeat(1001)));
    assert!(!valid_message("é".repeat(501)));
}

#[test]
fn overlong_line_closes_session() {
    let mut room = Room::new();
    let (mut a, _) = join(&mut room, "a");
    let (mut b, _) = join(&mut room, "b");
    assert!(matches!(a.on_line(&mut room, &"m".repeat(1001)), Action::Close));
    assert!(matches!(a, Session::Closed));
    assert_eq!(room.nicks(), vec![s("b")]);
    assert!(b.drain(&mut room).is_empty());
    assert!(matches!(a.on_line(&mut room, &s("late\n")), Action::Close));
}

#[test]
fn empty_line_is_not_broadcast() {
    let mut room = Room::new();
    let (mut a, _) = join(&mut room, "a");
    let (mut b, _) = join(&mut room, "b");
    assert!(matches!(a.on_line(&mut room, &String::new()), Action::Continue));
    assert!(matches!(a.on_line(&mut room, &s("\n")), Action::Continue));
    assert!(matches!(a.on_line(&mut room, &s("\r\n")), Action::Continue));
    assert!(b.drain(&mut room).is_empty());
}

#[test]
fn nick_line_terminators_are_trimmed() {
    assert_eq!(trim_line_end(&s("bob\r\n")), "bob");
    assert_eq!(trim_line_end(&s("bob\n")), "bob");
    assert_eq!(trim_line_end(&s("bob")), "bob");
    assert_eq!(trim_line_end(&s("\n")), "");
    let mut room = Room::new();
    let (session, _) = join(&mut room, "bob\r");
    assert!(matches!(session, Session::Joined { ref nick } if nick == "bob"));
}

#[test]
fn line_formats() {
    assert_eq!(roster_line(&vec![]), "* The room contains: \n");
    assert_eq!(roster_line(&vec![s("a"), s("b")]), "* The room contains: a, b\n");
    let e = ChatEvent { from: s("ann"), text: s("hey there\n") };
    assert_eq!(event_line(&e), "[ann]: hey there\n");
}
