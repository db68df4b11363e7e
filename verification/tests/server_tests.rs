use tchat::registry::{splits_at_four_bytes, Delivery, Registry};
use tchat::server::{
    basic_chat_step, basic_greeting, chat_step, greeting_step, naming_step, username_valid, welcome_line, ChatStep,
    Handshake,
};
use tchat::text::chars_of;

fn lines(v: &[&str]) -> Vec<String> {
    v.iter().map(|s| s.to_string()).collect()
}

fn room(names: &[(u64, &str)]) -> Registry {
    let mut r = Registry::new();
    for (id, n) in names {
        assert!(r.enroll(*id, n).is_some());
    }
    r
}

#[test]
fn connect_new_is_asked_for_a_name() {
    let r = room(&[]);
    assert_eq!(greeting_step(&r, "PROT 0.1 CONNECT NEW"), Handshake::Continue(lines(&["NAME REQ"])));
    assert_eq!(greeting_step(&r, "  PROT 0.1   CONNECT NEW "), Handshake::Continue(lines(&["NAME REQ"])));
}

#[test]
fn connect_user_proposes_a_name() {
    let r = room(&[(1, "alice")]);
    assert_eq!(
        greeting_step(&r, "PROT 0.1 CONNECT USER bob"),
        Handshake::Admitted(lines(&["NAME OK"]), "bob".to_string())
    );
    assert_eq!(
        greeting_step(&r, "PROT 0.1 CONNECT USER alice"),
        Handshake::Continue(lines(&["NAME FAILURE", "NAME REQ"]))
    );
    assert_eq!(
        greeting_step(&r, "PROT 0.1 CONNECT USER zoé"),
        Handshake::Continue(lines(&["NAME FAILURE", "NAME REQ"]))
    );
}

#[test]
fn bad_greetings_are_refused() {
    let r = room(&[]);
    for line in [
        "HELLO",
        "",
        "PROT 0.1 CONNECT",
        "PROT 0.1 CONNECT HIM bob",
        "PROT 0.1 ANY THING",
        "PROT 0.1 CONNECT OLD",
        "PROT 0.1 JOIN USER bob",
        "NOPE 0.1 CONNECT NEW",
    ] {
        assert_eq!(greeting_step(&r, line), Handshake::Refused("BAD REQ".to_string()), "{:?}", line);
    }
    assert_eq!(greeting_step(&r, "PROT 0.2 CONNECT NEW"), Handshake::Refused("BAD PROT".to_string()));
}

#[test]
fn naming_answers() {
    let r = room(&[(7, "carol")]);
    assert_eq!(naming_step(&r, "NAME dave"), Handshake::Admitted(lines(&["NAME OK"]), "dave".to_string()));
    assert_eq!(naming_step(&r, "  NAME   dave  "), Handshake::Admitted(lines(&["NAME OK"]), "dave".to_string()));
    assert_eq!(naming_step(&r, "NAME Dave2000"), Handshake::Admitted(lines(&["NAME OK"]), "Dave2000".to_string()));
    let failure = Handshake::Continue(lines(&["NAME FAILURE", "NAME REQ"]));
    assert_eq!(naming_step(&r, "NAME carol"), failure);
    assert_eq!(naming_step(&r, "NAME dävid"), failure);
    assert_eq!(naming_step(&r, "NAME a-b"), failure);
    assert_eq!(naming_step(&r, "NAME abcdefghijklmnopqrstu"), failure);
    assert_eq!(
        naming_step(&r, "NAME abcdefghijklmnopqrst"),
        Handshake::Admitted(lines(&["NAME OK"]), "abcdefghijklmnopqrst".to_string())
    );
    assert_eq!(naming_step(&r, "NAME a b"), Handshake::Refused("BAD REQ".to_string()));
    assert_eq!(naming_step(&r, "NICK dave"), Handshake::Refused("BAD REQ".to_string()));
    assert_eq!(welcome_line(), "WELCOME");
}

#[test]
fn user_names_are_letters_and_digits() {
    for (s, ok) in [("a", true), ("Zz09", true), ("", false), ("a-b", false), ("a b", false), ("é", false), (&"x".repeat(21), false)] {
        assert_eq!(username_valid(&chars_of(s)), ok, "{:?}", s);
    }
}

#[test]
fn chat_requests() {
    assert_eq!(chat_step("BYE"), ChatStep::Leave("BYE".to_string()));
    assert_eq!(chat_step("PING"), ChatStep::Reply("PONG".to_string()));
    assert_eq!(chat_step("REQ CLIENTS"), ChatStep::ListClients);
    assert_eq!(chat_step("MSG hello there"), ChatStep::Forward);
    assert_eq!(chat_step("MSG  "), ChatStep::Forward);
    assert_eq!(chat_step(&format!("MSG {}", "é".repeat(2000))), ChatStep::Forward);
    let bad = ChatStep::Reply("BAD REQ".to_string());
    assert_eq!(chat_step(&format!("MSG {}", "x".repeat(2001))), bad);
    assert_eq!(chat_step("MSG "), bad);
    assert_eq!(chat_step("MSG"), bad);
    assert_eq!(chat_step("  MSG hello"), bad);
    assert_eq!(chat_step("MSG\thello"), bad);
    assert_eq!(chat_step("BYE "), bad);
    assert_eq!(chat_step("SHOUT hi"), bad);
    assert_eq!(chat_step(""), bad);
    assert_eq!(chat_step("   "), bad);
}

#[test]
fn basic_server_forwards_everything() {
    assert_eq!(basic_greeting(), lines(&["Welcome!", "Please enter your name:"]));
    assert_eq!(basic_chat_step("BYE"), ChatStep::Leave("BYE".to_string()));
    assert_eq!(basic_chat_step("PING"), ChatStep::Reply("PONG".to_string()));
    assert_eq!(basic_chat_step("REQ CLIENTS"), ChatStep::ListClients);
    assert_eq!(basic_chat_step("whatever"), ChatStep::Forward);
    assert_eq!(basic_chat_step(""), ChatStep::Forward);
}

fn d(to: u64, line: &str) -> Delivery {
    Delivery { to, line: line.to_string() }
}

#[test]
fn joining_is_announced_to_the_others() {
    let mut r = Registry::new();
    assert_eq!(r.enroll(1, "alice"), Some(vec![]));
    assert_eq!(r.enroll(2, "bob"), Some(vec![d(1, "JOIN bob")]));
    assert_eq!(r.enroll(3, "carol"), Some(vec![d(1, "JOIN carol"), d(2, "JOIN carol")]));
    assert_eq!(r.len(), 3);
    assert!(r.name_taken("bob"));
    assert!(!r.name_taken("Bob"));
}

#[test]
fn a_name_in_use_is_refused() {
    let mut r = room(&[(1, "bob")]);
    assert_eq!(r.enroll(2, "bob"), None);
    assert_eq!(r.len(), 1);
    assert_eq!(r.enroll(1, "bob"), None);
    assert_eq!(r.client_list(1), Some("LIST CLIENTS 0".to_string()));
    assert_eq!(r.client_list(2), None);
}

#[test]
fn messages_go_to_everyone_with_the_sender_name() {
    let r = room(&[(1, "alice"), (2, "bob")]);
    assert_eq!(
        r.deliveries("MSG hi all", 2, true),
        vec![d(1, "FROM bob MSG hi all"), d(2, "FROM bob MSG hi all")]
    );
    // A line that does not start with the four characters `MSG ` goes out as it is.
    assert_eq!(r.deliveries(" MSG hi", 1, true), vec![d(1, " MSG hi"), d(2, " MSG hi")]);
    assert_eq!(r.deliveries("MSG\thi", 1, false), vec![d(2, "MSG\thi")]);
    // An unknown sender has the empty name.
    assert_eq!(r.deliveries("MSG x", 9, true), vec![d(1, "FROM  MSG x"), d(2, "FROM  MSG x")]);
}

#[test]
fn leaving_is_announced_to_the_rest() {
    let mut r = room(&[(1, "alice"), (2, "bob"), (3, "carol")]);
    assert_eq!(r.remove(2, "bob"), vec![d(1, "LOGOUT bob"), d(3, "LOGOUT bob")]);
    assert_eq!(r.len(), 2);
    assert!(!r.name_taken("bob"));
    assert_eq!(r.remove(42, "ghost"), vec![d(1, "LOGOUT ghost"), d(3, "LOGOUT ghost")]);
}

#[test]
fn client_list_counts_the_others() {
    let r = room(&[(1, "alice"), (2, "bob"), (3, "carol")]);
    assert_eq!(r.client_list(2), Some("LIST CLIENTS 2 alice carol".to_string()));
    assert_eq!(r.client_list(1), Some("LIST CLIENTS 2 bob carol".to_string()));
    assert_eq!(r.client_list(4), None);
    let mut big = Registry::new();
    for i in 0..12u64 {
        big.enroll(i, &format!("u{}", i));
    }
    let line = big.client_list(0).unwrap();
    assert!(line.starts_with("LIST CLIENTS 11 u1 u2 "), "{}", line);
    assert!(line.ends_with(" u11"));
}

#[test]
fn renaming_keeps_the_place() {
    let mut r = room(&[(1, "alice"), (2, "bob")]);
    assert_eq!(r.enroll(1, "ann"), Some(vec![d(2, "JOIN ann")]));
    assert_eq!(r.client_list(2), Some("LIST CLIENTS 1 ann".to_string()));
}

#[test]
fn four_byte_boundary() {
    assert!(splits_at_four_bytes("MSG hi"));
    assert!(splits_at_four_bytes("JOIN"));
    assert!(!splits_at_four_bytes("MSG"));
    assert!(!splits_at_four_bytes("ab\u{20ac}"));
    assert!(splits_at_four_bytes("a\u{20ac}b"));
    for s in ["MSG", "abcd", "é€x", "€é", "a€", "", "MSG é"] {
        assert_eq!(splits_at_four_bytes(s), s.is_char_boundary(4), "{:?}", s);
    }
}
