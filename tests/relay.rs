use message_relay::directory::{
    resolve_step, ResolveAction, ResolveEvent, ResolvePhase, User,
};
use message_relay::error::RelayError;
use message_relay::message::{IncomingMessage, Message, OutgoingMessage, StoredMessage};
use message_relay::reader::{conversation_rows, find_name, inbox_rows, show};
use message_relay::relay::Relay;
use message_relay::timestamp::Timestamp;

fn s(text: &str) -> String {
    text.to_string()
}

fn msg(author: &str, target: &str, text: &str) -> IncomingMessage {
    IncomingMessage { author: s(author), target: s(target), text: s(text) }
}

fn at(secs: i64) -> Timestamp {
    Timestamp::from_unix(secs, 0).unwrap()
}

fn summary(messages: &[Message]) -> Vec<(String, String, String)> {
    messages
        .iter()
        .map(|m| (m.author.clone(), m.target.clone(), m.text.clone()))
        .collect()
}

#[test]
fn resolving_twice_yields_same_identity() {
    let mut relay = Relay::new();
    let first = relay.get_or_create_user(&s("dave")).unwrap();
    let second = relay.get_or_create_user(&s("dave")).unwrap();
    assert_eq!(first.id, second.id);
    assert_eq!(second.name, "dave");
    assert_eq!(relay.users().len(), 1);
}

#[test]
fn identities_are_numbered_in_order_of_creation() {
    let mut relay = Relay::new();
    assert_eq!(relay.get_or_create_user(&s("a")).unwrap().id, 1);
    assert_eq!(relay.get_or_create_user(&s("b")).unwrap().id, 2);
    assert_eq!(relay.get_or_create_user(&s("a")).unwrap().id, 1);
    assert_eq!(relay.get_or_create_user(&s("c")).unwrap().id, 3);
}

#[test]
fn second_insert_of_a_name_is_a_conflict_and_reread_finds_the_first() {
    let mut relay = Relay::new();
    assert_eq!(relay.get_user(&s("erin")).map(|u| u.id), None);
    let created = relay.create_user(&s("erin")).unwrap();
    assert_eq!(relay.create_user(&s("erin")), Err(RelayError::IdentityConflict));
    assert_eq!(relay.get_user(&s("erin")).unwrap().id, created);
    assert_eq!(relay.get_or_create_user(&s("erin")).unwrap().id, created);
    let rows = relay.users().iter().filter(|u| u.name == "erin").count();
    assert_eq!(rows, 1);
}

#[test]
fn empty_names_are_rejected() {
    let mut relay = Relay::new();
    assert_eq!(relay.create_user(&s("")), Err(RelayError::UserResolutionFailed));
    assert_eq!(
        relay.get_or_create_user(&s("")).map(|u| u.id),
        Err(RelayError::UserResolutionFailed)
    );
    assert_eq!(
        relay.send_message(msg("", "bob", "hi"), at(10)).map(|m| m.id),
        Err(RelayError::UserResolutionFailed)
    );
    assert_eq!(
        relay.get_inbox(&s("")).map(|v| v.len()),
        Err(RelayError::UserResolutionFailed)
    );
    assert_eq!(
        relay.get_messages(&s("alice"), &s("")).map(|v| v.len()),
        Err(RelayError::UserResolutionFailed)
    );
    assert!(relay.users().is_empty());
    assert!(relay.messages().is_empty());
}

#[test]
fn send_records_names_and_keeps_time_order() {
    let mut relay = Relay::new();
    let first = relay.send_message(msg("a", "b", "one"), at(100)).unwrap();
    assert_eq!((first.id, first.author.as_str(), first.target.as_str()), (1, "a", "b"));
    assert_eq!(first.timestamp, at(100));
    // A clock that reads earlier than the last message does not reorder the log.
    let second = relay.send_message(msg("b", "a", "two"), at(50)).unwrap();
    assert_eq!(second.id, 2);
    assert_eq!(second.timestamp, at(100));
    let third = relay.send_message(msg("a", "c", "three"), at(200)).unwrap();
    assert_eq!(third.timestamp, at(200));
    let stored = relay.messages();
    assert_eq!(stored.len(), 3);
    assert_eq!((stored[2].author_id, stored[2].target_id), (1, 3));
    for pair in stored.windows(2) {
        assert!(pair[0].timestamp.not_after(&pair[1].timestamp));
    }
}

#[test]
fn send_keeps_text_exactly_and_reports_the_stored_row() {
    let mut relay = Relay::new();
    relay.send_message(msg("x", "y", "early"), at(0)).unwrap();
    let text = "  spaces, ünïcödé and\nnewlines  ";
    let sent = relay.send_message(msg("y", "x", text), at(5)).unwrap();
    assert_eq!((sent.author.as_str(), sent.target.as_str(), sent.text.as_str()), ("y", "x", text));
    assert_eq!(sent.id, 2);
    let stored = &relay.messages()[1];
    assert_eq!((stored.id, stored.author_id, stored.target_id), (2, 2, 1));
    assert_eq!(stored.text, text);
    assert_eq!(stored.timestamp, at(5));
    let empty = relay.send_message(msg("x", "y", ""), at(6)).unwrap();
    assert_eq!(empty.text, "");
}

#[test]
fn inbox_holds_exactly_messages_to_target_in_time_order() {
    let mut relay = Relay::new();
    relay.send_message(msg("a", "b", "1"), at(10)).unwrap();
    relay.send_message(msg("b", "a", "2"), at(20)).unwrap();
    relay.send_message(msg("c", "b", "3"), at(30)).unwrap();
    relay.send_message(msg("b", "b", "4"), at(40)).unwrap();
    let inbox = relay.get_inbox(&s("b")).unwrap();
    assert_eq!(
        summary(&inbox),
        vec![
            (s("a"), s("b"), s("1")),
            (s("c"), s("b"), s("3")),
            (s("b"), s("b"), s("4")),
        ]
    );
    assert_eq!(inbox.iter().map(|m| m.id).collect::<Vec<_>>(), vec![1, 3, 4]);
    for pair in inbox.windows(2) {
        assert!(pair[0].timestamp.not_after(&pair[1].timestamp));
    }
}

#[test]
fn conversation_is_symmetric() {
    let mut relay = Relay::new();
    relay.send_message(msg("a", "b", "1"), at(10)).unwrap();
    relay.send_message(msg("a", "c", "2"), at(20)).unwrap();
    relay.send_message(msg("b", "a", "3"), at(30)).unwrap();
    relay.send_message(msg("a", "a", "4"), at(40)).unwrap();
    let ab = relay.get_messages(&s("a"), &s("b")).unwrap();
    let ba = relay.get_messages(&s("b"), &s("a")).unwrap();
    assert_eq!(summary(&ab), summary(&ba));
    assert_eq!(
        summary(&ab),
        vec![(s("a"), s("b"), s("1")), (s("b"), s("a"), s("3"))]
    );
}

#[test]
fn self_conversation_lists_each_message_once() {
    let mut relay = Relay::new();
    relay.send_message(msg("me", "me", "note 1"), at(10)).unwrap();
    relay.send_message(msg("me", "you", "hello"), at(20)).unwrap();
    relay.send_message(msg("me", "me", "note 2"), at(30)).unwrap();
    let own = relay.get_messages(&s("me"), &s("me")).unwrap();
    assert_eq!(
        summary(&own),
        vec![(s("me"), s("me"), s("note 1")), (s("me"), s("me"), s("note 2"))]
    );
}

#[test]
fn alice_and_bob_conversation_scenario() {
    let mut relay = Relay::new();
    relay.send_message(msg("alice", "bob", "hi"), at(1_000)).unwrap();
    relay.send_message(msg("bob", "alice", "hey"), at(2_000)).unwrap();
    let conversation = relay.get_messages(&s("alice"), &s("bob")).unwrap();
    assert_eq!(
        summary(&conversation),
        vec![(s("alice"), s("bob"), s("hi")), (s("bob"), s("alice"), s("hey"))]
    );
}

#[test]
fn inbox_of_unknown_name_is_empty_and_creates_it() {
    let mut relay = Relay::new();
    assert!(relay.get_user(&s("carol")).is_none());
    let inbox = relay.get_inbox(&s("carol")).unwrap();
    assert!(inbox.is_empty());
    let carol = relay.get_user(&s("carol")).unwrap();
    assert_eq!(carol.name, "carol");
    assert_eq!(carol.id, 1);
}

#[test]
fn resolve_protocol_treats_conflict_as_reread() {
    let (phase, action) = resolve_step(ResolvePhase::Initial, ResolveEvent::Missing);
    assert_eq!((phase, action), (ResolvePhase::Inserted, ResolveAction::Insert));
    let (phase, action) = resolve_step(phase, ResolveEvent::Conflict);
    assert_eq!((phase, action), (ResolvePhase::Inserted, ResolveAction::Lookup));
    let (_, action) = resolve_step(phase, ResolveEvent::Found(7));
    assert_eq!(action, ResolveAction::Done(7));
}

#[test]
fn resolve_protocol_steps() {
    assert_eq!(
        resolve_step(ResolvePhase::Initial, ResolveEvent::Found(3)),
        (ResolvePhase::Initial, ResolveAction::Done(3))
    );
    assert_eq!(
        resolve_step(ResolvePhase::Inserted, ResolveEvent::Created),
        (ResolvePhase::Inserted, ResolveAction::Lookup)
    );
    assert_eq!(
        resolve_step(ResolvePhase::Inserted, ResolveEvent::Missing),
        (ResolvePhase::Inserted, ResolveAction::Fail(RelayError::StoreUnavailable))
    );
    assert_eq!(
        resolve_step(ResolvePhase::Initial, ResolveEvent::StoreFailed),
        (ResolvePhase::Initial, ResolveAction::Fail(RelayError::StoreUnavailable))
    );
}

fn row(id: u64, author_id: u64, target_id: u64, text: &str, secs: i64) -> StoredMessage {
    StoredMessage { id, author_id, target_id, text: s(text), timestamp: at(secs) }
}

#[test]
fn rows_join_names_and_drop_unresolved_ends() {
    let users = vec![User { id: 1, name: s("ann") }, User { id: 2, name: s("ben") }];
    let messages = vec![
        row(1, 1, 2, "to ben", 1),
        row(2, 9, 2, "from nobody", 2),
        row(3, 2, 1, "to ann", 3),
    ];
    assert_eq!(find_name(&users, 2), Some(s("ben")));
    assert_eq!(find_name(&users, 9), None);
    assert!(show(&users, &messages[1]).is_none());
    let shown = show(&users, &messages[0]).unwrap();
    assert_eq!((shown.author.as_str(), shown.target.as_str()), ("ann", "ben"));
    let inbox = inbox_rows(&users, &messages, 2);
    assert_eq!(summary(&inbox), vec![(s("ann"), s("ben"), s("to ben"))]);
}

#[test]
fn conversation_rows_skip_stale_duplicate_names() {
    // Rows 1 and 3 carry the same name: a stale duplicate identity.
    let users = vec![
        User { id: 1, name: s("sam") },
        User { id: 2, name: s("kim") },
        User { id: 3, name: s("sam") },
    ];
    let messages = vec![
        row(1, 1, 3, "between duplicates", 1),
        row(2, 1, 2, "to kim", 2),
        row(3, 1, 1, "to self", 3),
    ];
    assert!(conversation_rows(&users, &messages, 1, 3).is_empty());
    assert_eq!(
        summary(&conversation_rows(&users, &messages, 2, 1)),
        vec![(s("sam"), s("kim"), s("to kim"))]
    );
    assert_eq!(
        summary(&conversation_rows(&users, &messages, 1, 1)),
        vec![(s("sam"), s("sam"), s("to self"))]
    );
}

#[test]
fn timestamps_in_and_out_of_range() {
    assert_eq!(Timestamp::from_unix(5, 7), Some(Timestamp { secs: 5, nanos: 7 }));
    assert_eq!(Timestamp::from_unix(5, 1_000_000_000), None);
    assert_eq!(Timestamp::from_unix(8_000_000_000_001, 0), None);
    assert_eq!(Timestamp::from_unix(-8_000_000_000_001, 0), None);
    assert!(Timestamp::from_unix(-8_000_000_000_000, 0).is_some());
    let early = Timestamp::from_unix(5, 999).unwrap();
    let late = Timestamp::from_unix(6, 0).unwrap();
    assert!(early.not_after(&late));
    assert!(!late.not_after(&early));
    assert!(early.not_after(&early));
}

#[test]
fn display_is_in_utc_minus_five_without_padding() {
    assert_eq!(at(0).display(), "12/31/1969 7:00pm");
    assert_eq!(at(1_700_000_000).display(), "11/14/2023 5:13pm");
    assert_eq!(at(1_704_096_000).display(), "1/1/2024 3:00am");
}

#[test]
fn outgoing_message_renders_its_time() {
    let message = Message {
        id: 4,
        author: s("alice"),
        target: s("bob"),
        text: s("hi"),
        timestamp: at(1_700_000_000),
    };
    let out = OutgoingMessage::from_message(message);
    assert_eq!(out.id, 4);
    assert_eq!((out.author.as_str(), out.target.as_str(), out.text.as_str()), ("alice", "bob", "hi"));
    assert_eq!(out.timestamp, "11/14/2023 5:13pm");
}

#[test]
fn stamps_never_go_backwards() {
    assert_eq!(Timestamp::stamp_after(None, at(5)), at(5));
    assert_eq!(Timestamp::stamp_after(Some(at(9)), at(5)), at(9));
    assert_eq!(Timestamp::stamp_after(Some(at(9)), at(9)), at(9));
    assert_eq!(Timestamp::stamp_after(Some(at(3)), at(5)), at(5));
}

#[test]
fn names_must_not_be_empty() {
    assert_eq!(message_relay::directory::check_name(&s("x")), Ok(()));
    assert_eq!(
        message_relay::directory::check_name(&s("")),
        Err(RelayError::UserResolutionFailed)
    );
}
