//! Concrete instances of the properties that the library proves.
use tchat::client::{validate_nickname, connect_request, name_line, read_server_line, user_command_for, wrap_words, Command, ServerLine};
use tchat::client::{login_step, LoginStage, LoginStep};
use tchat::framing::LineBuffer;
use tchat::registry::{Delivery, Registry};
use tchat::server::{chat_step, greeting_step, naming_step, ChatStep, Handshake};

#[test]
fn the_client_connect_request_is_answered_with_name_req() {
    let mut r = Registry::new();
    r.enroll(1, "alice");
    assert_eq!(greeting_step(&r, &connect_request()), Handshake::Continue(vec!["NAME REQ".to_string()]));
}

#[test]
fn an_accepted_nickname_reaches_the_server_intact() {
    let mut r = Registry::new();
    r.enroll(1, "alice");
    let nick = validate_nickname("  bob ").unwrap();
    assert_eq!(naming_step(&r, &name_line(&nick)), Handshake::Admitted(vec!["NAME OK".to_string()], "bob".to_string()));
    let taken = validate_nickname("alice").unwrap();
    assert_eq!(
        naming_step(&r, &name_line(&taken)),
        Handshake::Continue(vec!["NAME FAILURE".to_string(), "NAME REQ".to_string()])
    );
}

#[test]
fn a_typed_message_reaches_every_member_and_reads_back() {
    let mut r = Registry::new();
    r.enroll(1, "alice");
    r.enroll(2, "bob");
    let typed = "hello  big world";
    let sent = match user_command_for(typed) {
        Command::Send(s) => s,
        other => panic!("{:?}", other),
    };
    assert_eq!(chat_step(&sent), ChatStep::Forward);
    let out = r.deliveries(&sent, 1, true);
    assert_eq!(out.iter().map(|d| d.to).collect::<Vec<_>>(), vec![1, 2]);
    for Delivery { line, .. } in &out {
        assert_eq!(
            read_server_line(line),
            ServerLine::From("alice".to_string(), typed.split(' ').map(String::from).collect())
        );
    }
}

#[test]
fn two_members_never_share_a_name() {
    let mut r = Registry::new();
    assert!(r.enroll(1, "bob").is_some());
    assert!(r.enroll(2, "bob").is_none());
    assert!(r.enroll(2, "ann").is_some());
    assert!(r.enroll(2, "bob").is_none());
    assert_eq!(r.client_list(1), Some("LIST CLIENTS 1 ann".to_string()));
}

#[test]
fn framing_is_the_same_for_every_split() {
    let data: &[u8] = b"one\ntwo\n\nthree\nfour";
    let mut whole = LineBuffer::new();
    let expected = whole.feed(data);
    for size in 1..=data.len() {
        let mut b = LineBuffer::new();
        let mut got: Vec<Vec<u8>> = Vec::new();
        for chunk in data.chunks(size) {
            got.extend(b.feed(chunk));
        }
        assert_eq!(got, expected, "chunks of {}", size);
    }
}

#[test]
fn leaving_undoes_joining() {
    let mut r = Registry::new();
    r.enroll(1, "alice");
    let before = r.client_list(1);
    r.enroll(2, "bob");
    assert!(r.name_taken("bob"));
    r.remove(2, "bob");
    assert_eq!(r.client_list(1), before);
    assert_eq!(r.client_list(2), None);
    assert!(!r.name_taken("bob"));
}

#[test]
fn wrapping_keeps_every_word() {
    let ws: Vec<String> = "the quick brown fox jumps over the lazy dog".split(' ').map(String::from).collect();
    for cols in [34, 36, 40, 45, 60, 100] {
        let lines = wrap_words(&ws, cols);
        let rejoined = lines.join(" ");
        let spaced: String = ws.iter().map(|w| format!(" {}", w)).collect();
        assert_eq!(rejoined, spaced, "columns {}", cols);
        for l in &lines {
            assert!(l.len() < cols - 34 || !l.contains(' '), "{:?} at {}", l, cols);
        }
    }
}

#[test]
fn framing_keeps_every_byte() {
    let data = b"one\ntwo\n\nthree\nfour";
    let mut b = LineBuffer::new();
    let mut got: Vec<u8> = Vec::new();
    for chunk in data.chunks(3) {
        for line in b.feed(chunk) {
            assert!(!line.contains(&b'\n'));
            got.extend_from_slice(&line);
            got.push(b'\n');
        }
    }
    assert_eq!(got, b"one\ntwo\n\nthree\n".to_vec());
}

#[test]
fn the_client_reads_the_server_verdicts_as_meant() {
    let mut r = Registry::new();
    r.enroll(1, "alice");
    match naming_step(&r, "NAME bob") {
        Handshake::Admitted(lines, _) => assert_eq!(login_step(LoginStage::AwaitVerdict, &lines[0]), LoginStep::Accepted),
        other => panic!("{:?}", other),
    }
    match naming_step(&r, "NAME alice") {
        Handshake::Continue(lines) => {
            assert_eq!(login_step(LoginStage::AwaitVerdict, &lines[0]), LoginStep::Refused);
            assert_eq!(login_step(LoginStage::AwaitNameRequest, &lines[1]), LoginStep::AskNick);
        }
        other => panic!("{:?}", other),
    }
}

#[test]
fn accepted_nicknames_are_short_ascii_words() {
    for entry in ["bob", "  x ", "abcdefghijklmnopqrst", "a.b-c", "zoé", "a b", "", "abcdefghijklmnopqrstu", "Q9"] {
        if let Ok(n) = validate_nickname(entry) {
            assert!(!n.is_empty() && n.chars().count() <= 20 && n.chars().all(|c| c.is_ascii_alphanumeric()), "{:?}", n);
        }
    }
}

#[test]
fn sent_messages_hold_one_to_two_thousand_bytes() {
    for line in ["", "/quit", "/clients", "hi", &"y".repeat(2000), &"y".repeat(2001), &"é".repeat(2000)] {
        match user_command_for(line) {
            Command::Send(m) => assert!(m == "REQ CLIENTS" || (m == format!("MSG {}", line) && !line.is_empty() && line.chars().count() <= 2000)),
            Command::Quit(m) => assert_eq!(m, "BYE"),
            _ => {}
        }
    }
}

#[test]
fn granted_names_are_free() {
    let mut r = Registry::new();
    r.enroll(1, "alice");
    for line in ["PROT 0.1 CONNECT USER alice", "PROT 0.1 CONNECT USER bob", "PROT 0.1 CONNECT USER bé", "PROT 0.1 CONNECT USER a-b"] {
        if let Handshake::Admitted(_, n) = greeting_step(&r, line) {
            assert!(n.chars().all(|c| c.is_ascii_alphanumeric()) && !r.name_taken(&n));
        }
    }
}

#[test]
fn words_are_non_empty_and_plain() {
    use_words("  a\tbc  d\u{3000}e  ");
    use_words("");
    use_words("single");
}

fn use_words(s: &str) {
    for w in tchat::text::words_of(&tchat::text::chars_of(s)) {
        assert!(!w.is_empty());
        assert!(!w.iter().any(|c| c.is_whitespace()));
    }
}

#[test]
fn parts_rejoin_to_the_text() {
    for s in ["", " ", "a  b ", "FROM bob MSG hi", "  x"] {
        let parts: Vec<String> = tchat::text::pieces_of(&tchat::text::chars_of(s)).iter().map(|p| p.iter().collect()).collect();
        assert_eq!(parts.join(" "), s);
    }
}
