use crossbeam::channel::Receiver;
use protohackers::chat::{
    BudgetChat, Delivery, LineBuffer, LineOutcome, RoomEvent, Session, User, GREETING, MAX_PENDING,
    REJECTION,
};

fn join(chat: &mut BudgetChat, name: &str) -> (Session, LineOutcome) {
    let mut session = Session::Unnamed;
    let outcome = chat.handle_line(&mut session, name);
    (session, outcome)
}

fn drain(rx: &Receiver<RoomEvent>) -> Vec<RoomEvent> {
    let mut events = Vec::new();
    while let Ok(e) = rx.try_recv() {
        events.push(e);
    }
    events
}

fn shown(chat: &BudgetChat, user_id: u64, events: &[RoomEvent]) -> Vec<String> {
    let mut out = Vec::new();
    for e in events {
        if let Delivery::Write(t) = chat.render_event(user_id, e) {
            out.push(t);
        }
    }
    out
}

#[test]
fn three_users_join_in_order() {
    let mut chat = BudgetChat::new();
    let (_, alice) = join(&mut chat, "alice");
    assert_eq!(alice, LineOutcome::Joined { user_id: 1, roster: String::new() });
    assert_eq!(alice.reply().unwrap(), "* The room contains: \n");
    let (_, bob) = join(&mut chat, "bob");
    assert_eq!(bob.reply().unwrap(), "* The room contains: alice\n");
    let bob_rx = chat.mailbox(2).unwrap();
    drain(&bob_rx);
    let (_, carol) = join(&mut chat, "carol");
    assert_eq!(carol.reply().unwrap(), "* The room contains: alice, bob\n");
    assert_eq!(chat.room_list(), "alice, bob, carol");
    let events = drain(&bob_rx);
    assert_eq!(events, vec![RoomEvent::Join(3)]);
    assert_eq!(shown(&chat, 2, &events), vec![String::from("* carol has entered the room\n")]);
}

#[test]
fn valid_name_roster_excludes_self() {
    let mut chat = BudgetChat::new();
    join(&mut chat, "alice");
    let (session, out) = join(&mut chat, "Bob42");
    assert_eq!(session, Session::Named(2));
    assert_eq!(out, LineOutcome::Joined { user_id: 2, roster: String::from("alice") });
    assert_eq!(chat.name(2).unwrap(), "Bob42");
    let rx = chat.mailbox(2).unwrap();
    let events = drain(&rx);
    assert_eq!(events, vec![RoomEvent::Join(2)]);
    assert!(shown(&chat, 2, &events).is_empty());
}

#[test]
fn invalid_names_are_rejected() {
    for name in ["", "   ", "bob!", "a b", "*x", "tab\there", " bob", "bob "] {
        let mut chat = BudgetChat::new();
        join(&mut chat, "alice");
        let rx = chat.mailbox(1).unwrap();
        drain(&rx);
        let (session, out) = join(&mut chat, name);
        assert_eq!(session, Session::Closed);
        assert_eq!(out, LineOutcome::Rejected);
        assert_eq!(out.reply().unwrap(), REJECTION);
        assert!(drain(&rx).is_empty());
        assert_eq!(chat.room_list(), "alice");
    }
    assert!(User::is_valid_name("Zoë7"));
    assert!(!User::is_valid_name("x_y"));
    assert_eq!(GREETING, "Welcome to budgetchat! What shall I call you?\n");
}

#[test]
fn message_round_trip() {
    let mut chat = BudgetChat::new();
    let (mut a, _) = join(&mut chat, "alice");
    join(&mut chat, "bob");
    let a_rx = chat.mailbox(1).unwrap();
    let b_rx = chat.mailbox(2).unwrap();
    drain(&a_rx);
    drain(&b_rx);
    assert_eq!(chat.handle_line(&mut a, "hi there"), LineOutcome::Relayed);
    let b_events = drain(&b_rx);
    assert_eq!(shown(&chat, 2, &b_events), vec![String::from("[alice] hi there\n")]);
    let a_events = drain(&a_rx);
    assert_eq!(a_events, vec![RoomEvent::Message(1, String::from("hi there"))]);
    assert!(shown(&chat, 1, &a_events).is_empty());
}

#[test]
fn starred_line_is_dropped() {
    let mut chat = BudgetChat::new();
    let (mut a, _) = join(&mut chat, "alice");
    join(&mut chat, "bob");
    let a_rx = chat.mailbox(1).unwrap();
    let b_rx = chat.mailbox(2).unwrap();
    drain(&a_rx);
    drain(&b_rx);
    assert_eq!(chat.handle_line(&mut a, "*oops"), LineOutcome::Ignored);
    assert!(drain(&a_rx).is_empty());
    assert!(drain(&b_rx).is_empty());
}

#[test]
fn leave_is_announced_once() {
    let mut chat = BudgetChat::new();
    let (mut a, _) = join(&mut chat, "alice");
    let (mut b, _) = join(&mut chat, "bob");
    let (_, _) = join(&mut chat, "carol");
    let a_rx = chat.mailbox(1).unwrap();
    let c_rx = chat.mailbox(3).unwrap();
    drain(&a_rx);
    drain(&c_rx);
    chat.disconnect(&mut b);
    chat.disconnect(&mut b);
    chat.disconnect(&mut a);
    assert_eq!(b, Session::Closed);
    let c_events = drain(&c_rx);
    assert_eq!(c_events, vec![
        RoomEvent::Leave(2, String::from("bob")),
        RoomEvent::Leave(1, String::from("alice")),
    ]);
    assert_eq!(shown(&chat, 3, &c_events), vec![
        String::from("* bob has left the room\n"),
        String::from("* alice has left the room\n"),
    ]);
    let a_events = drain(&a_rx);
    assert_eq!(a_events, vec![
        RoomEvent::Leave(2, String::from("bob")),
        RoomEvent::Leave(1, String::from("alice")),
    ]);
    assert_eq!(chat.render_event(1, &a_events[1]), Delivery::Stop);
    assert!(chat.name(1).is_none());
    assert!(chat.mailbox(2).is_none());
    assert_eq!(chat.room_list(), "carol");
}

#[test]
fn messages_keep_their_order() {
    let mut chat = BudgetChat::new();
    let (mut a, _) = join(&mut chat, "alice");
    join(&mut chat, "bob");
    let b_rx = chat.mailbox(2).unwrap();
    drain(&b_rx);
    chat.handle_line(&mut a, "one");
    chat.handle_line(&mut a, "two");
    let events = drain(&b_rx);
    assert_eq!(shown(&chat, 2, &events), vec![
        String::from("[alice] one\n"),
        String::from("[alice] two\n"),
    ]);
}

#[test]
fn shutdown_stops_every_writer() {
    let mut chat = BudgetChat::new();
    join(&mut chat, "alice");
    let rx = chat.mailbox(1).unwrap();
    drain(&rx);
    chat.shutdown();
    let events = drain(&rx);
    assert_eq!(events, vec![RoomEvent::Shutdown]);
    assert_eq!(chat.render_event(1, &events[0]), Delivery::Stop);
    chat.send_message(1, RoomEvent::Join(9));
    assert_eq!(drain(&rx), vec![RoomEvent::Join(9)]);
    assert_eq!(chat.render_event(1, &RoomEvent::Join(9)), Delivery::Skip);
}

#[test]
fn closed_session_ignores_lines() {
    let mut chat = BudgetChat::new();
    let mut s = Session::Closed;
    assert_eq!(chat.handle_line(&mut s, "alice"), LineOutcome::Finished);
    assert_eq!(chat.room_list(), "");
    assert!(chat.has_free_id());
}

#[test]
fn buffers_partial_lines() {
    let mut buf = LineBuffer::new();
    assert!(buf.push_bytes(b"na").is_empty());
    assert_eq!(buf.push_bytes(b"me\nhel"), vec![String::from("name")]);
    assert_eq!(buf.push_bytes(b"lo\r\n\nx"), vec![String::from("hello"), String::new()]);
    assert_eq!(buf.push_bytes(&[0xff, b'\n']), vec![String::from("x\u{fffd}")]);
    assert!(!buf.over_limit());
}

#[test]
fn character_split_across_reads() {
    let text = "zo\u{eb}\nhi\n".as_bytes();
    let mut whole = LineBuffer::new();
    let at_once = whole.push_bytes(text);
    assert_eq!(at_once, vec![String::from("zo\u{eb}"), String::from("hi")]);
    for cut in 0..text.len() {
        let mut buf = LineBuffer::new();
        let mut lines = buf.push_bytes(&text[..cut]);
        lines.extend(buf.push_bytes(&text[cut..]));
        assert_eq!(lines, at_once, "cut at {}", cut);
    }
}

#[test]
fn long_pending_line_is_over_limit() {
    let mut buf = LineBuffer::new();
    assert!(buf.push_bytes(&vec![b'a'; MAX_PENDING]).is_empty());
    assert!(!buf.over_limit());
    assert!(buf.push_bytes(b"a").is_empty());
    assert!(buf.over_limit());
}

#[test]
fn name_and_message_in_one_read() {
    let mut chat = BudgetChat::new();
    join(&mut chat, "bob");
    let b_rx = chat.mailbox(1).unwrap();
    drain(&b_rx);
    let mut buf = LineBuffer::new();
    let mut session = Session::Unnamed;
    let outcomes: Vec<LineOutcome> = buf
        .push_bytes(b"alice\nhello\n")
        .iter()
        .map(|l| chat.handle_line(&mut session, l))
        .collect();
    assert_eq!(outcomes[1], LineOutcome::Relayed);
    assert_eq!(shown(&chat, 1, &drain(&b_rx)), vec![
        String::from("* alice has entered the room\n"),
        String::from("[alice] hello\n"),
    ]);
}
