use tchat::clock::get_time;
use tchat::framing::{echo_input_for, LineBuffer, EchoInput};
use tchat::gui::{chat_entry, chat_entry_at, gui_hello_line, gui_login_step, login_address, message_line, GuiLoginStep, GuiStage};
use tchat::launch::{basic_launch, launch, echo_launch, echo_listen_address, Launch};

fn args(v: &[&str]) -> Vec<String> {
    v.iter().map(|s| s.to_string()).collect()
}

fn is_stamp(s: &str) -> bool {
    let b = s.as_bytes();
    b.len() == 10
        && b[0] == b'['
        && b[3] == b':'
        && b[6] == b':'
        && b[9] == b']'
        && [1, 2, 4, 5, 7, 8].iter().all(|&i| b[i].is_ascii_digit())
        && (b[1] - b'0') * 10 + (b[2] - b'0') <= 23
        && (b[4] - b'0') * 10 + (b[5] - b'0') <= 59
        && (b[7] - b'0') * 10 + (b[8] - b'0') <= 60
}

#[test]
fn time_stamps() {
    let t = get_time();
    assert!(is_stamp(&t), "{:?}", t);
    assert_ne!(t, "[%H:%M:%S]");
}

#[test]
fn chat_window_entries() {
    let e = chat_entry("Connected to server!");
    assert!(is_stamp(&e[..10]));
    assert_eq!(&e[10..], " Connected to server!\n");
    assert_eq!(chat_entry_at("[09:05:07]", "hi"), "[09:05:07] hi\n");
}

#[test]
fn command_lines() {
    assert_eq!(launch(&args(&["chat", "2222"])), Launch::Serve("0.0.0.0:2222".to_string()));
    assert_eq!(launch(&args(&["chat", "localhost", "2222"])), Launch::Connect("127.0.0.1:2222".to_string()));
    assert_eq!(launch(&args(&["chat", "10.0.0.1", "80"])), Launch::Connect("10.0.0.1:80".to_string()));
    assert_eq!(launch(&args(&["chat"])), Launch::Usage("chat".to_string()));
    assert_eq!(launch(&args(&["chat", "a", "b", "c"])), Launch::Usage("chat".to_string()));
    assert_eq!(basic_launch(&args(&["c", "2222"])), Launch::Serve("2222".to_string()));
    assert_eq!(basic_launch(&args(&["c", "localhost", "1"])), Launch::Connect("localhost:1".to_string()));
    assert_eq!(echo_launch(&args(&["p", "2222"])), Launch::Serve("2222".to_string()));
    assert_eq!(echo_launch(&args(&["p", "localhost", "1"])), Launch::Connect("127.0.0.1:1".to_string()));
    assert_eq!(echo_listen_address("2222"), "127.0.0.1:2222");
}

#[test]
fn gui_login() {
    assert_eq!(login_address("", "1234"), "");
    assert_eq!(login_address("host", ""), "host:2222");
    assert_eq!(login_address("host", "1234"), "host:1234");
    assert_eq!(gui_hello_line(""), "PROT 0.1 CONNECT NEW");
    assert_eq!(gui_hello_line("bob"), "PROT 0.1 CONNECT USER bob");
    assert_eq!(gui_login_step(GuiStage::AwaitNameOk, "NAME OK"), GuiLoginStep::ExpectWelcome);
    assert_eq!(gui_login_step(GuiStage::AwaitNameOk, "NAME REQ"), GuiLoginStep::Retry);
    assert_eq!(gui_login_step(GuiStage::AwaitWelcome, "WELCOME"), GuiLoginStep::Connected);
    assert_eq!(gui_login_step(GuiStage::AwaitWelcome, "JOIN x"), GuiLoginStep::Retry);
    assert_eq!(message_line("hi"), "MSG hi");
}

#[test]
fn framing_splits_at_line_feeds() {
    let mut b = LineBuffer::new();
    assert_eq!(b.feed(b"hel"), Vec::<Vec<u8>>::new());
    assert_eq!(b.feed(b"lo\nwor"), vec![b"hello".to_vec()]);
    assert_eq!(b.feed(b"ld\n\nx"), vec![b"world".to_vec(), b"".to_vec()]);
    assert_eq!(b.feed(b"\n"), vec![b"x".to_vec()]);
    assert_eq!(b.feed(b""), Vec::<Vec<u8>>::new());
}

#[test]
fn echo_input() {
    assert_eq!(echo_input_for("quit"), EchoInput::Leave);
    assert_eq!(echo_input_for("exit"), EchoInput::Leave);
    assert_eq!(echo_input_for("hi"), EchoInput::Send("hi\n".to_string()));
    assert_eq!(echo_input_for(""), EchoInput::Send("\n".to_string()));
}
