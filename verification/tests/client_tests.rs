use std::collections::hash_map::DefaultHasher;
use std::hash::{Hash, Hasher};
use tchat::client::{
    validate_nickname, clients_request, color_name, color_slot, connect_request, basic_chat_command_for,
    basic_display_for, basic_name_command_for, hash_name, lay_out, lay_out_for, login_step, next_login_stage, name_line, pad_name,
    read_server_line, spaced_words, user_command_for, wrap_words, Command, Layout, LoginStage, LoginStep, NickProblem,
    ServerLine, COLOR_COUNT,
};

fn strings(v: &[&str]) -> Vec<String> {
    v.iter().map(|s| s.to_string()).collect()
}

#[test]
fn nicknames() {
    assert_eq!(validate_nickname("  bob  "), Ok("bob".to_string()));
    assert_eq!(validate_nickname("Bob2000"), Ok("Bob2000".to_string()));
    assert_eq!(validate_nickname("abcdefghijklmnopqrst"), Ok("abcdefghijklmnopqrst".to_string()));
    assert_eq!(validate_nickname("abcdefghijklmnopqrstu"), Err(NickProblem::TooLong));
    assert_eq!(validate_nickname("zoé"), Err(NickProblem::NotAllowed('é')));
    assert_eq!(validate_nickname("a-b"), Err(NickProblem::NotAllowed('-')));
    assert_eq!(validate_nickname("ééééééééééé"), Err(NickProblem::NotAllowed('é')));
    assert_eq!(validate_nickname("   "), Err(NickProblem::Empty));
    assert_eq!(validate_nickname(""), Err(NickProblem::Empty));
    assert_eq!(validate_nickname("bob smith"), Err(NickProblem::HasWhitespace));
    assert_eq!(validate_nickname("bob!smith jr"), Err(NickProblem::HasWhitespace));
    assert_eq!(validate_nickname("a bé"), Err(NickProblem::NotAllowed('é')));
    assert_eq!(validate_nickname("a-b c"), Err(NickProblem::HasWhitespace));
}

#[test]
fn typed_lines() {
    assert_eq!(user_command_for(""), Command::Ignore);
    assert_eq!(user_command_for("/quit"), Command::Quit("BYE".to_string()));
    assert_eq!(user_command_for("/clients"), Command::Send("REQ CLIENTS".to_string()));
    assert_eq!(user_command_for("hello world"), Command::Send("MSG hello world".to_string()));
    assert_eq!(user_command_for(" "), Command::Send("MSG  ".to_string()));
    assert_eq!(user_command_for(&"x".repeat(2000)), Command::Send(format!("MSG {}", "x".repeat(2000))));
    assert_eq!(user_command_for(&"x".repeat(2001)), Command::TooLong);
    assert_eq!(user_command_for(&"é".repeat(1001)), Command::Send(format!("MSG {}", "é".repeat(1001))));
    assert_eq!(user_command_for(&"é".repeat(2000)), Command::Send(format!("MSG {}", "é".repeat(2000))));
    assert_eq!(user_command_for(&"é".repeat(2001)), Command::TooLong);
    assert_eq!(clients_request(), "REQ CLIENTS");
}

#[test]
fn basic_typed_lines() {
    assert_eq!(basic_name_command_for(""), Command::Ignore);
    assert_eq!(basic_name_command_for("/quit"), Command::Quit("BYE".to_string()));
    assert_eq!(basic_name_command_for("bob smith"), Command::NotOneWord);
    assert_eq!(basic_name_command_for(" bob "), Command::Send(" bob ".to_string()));
    assert_eq!(basic_chat_command_for("/clients"), Command::Send("REQ CLIENTS".to_string()));
    assert_eq!(basic_chat_command_for(&"x".repeat(3000)), Command::Send(format!("MSG {}", "x".repeat(3000))));
    assert_eq!(basic_chat_command_for(""), Command::Ignore);
}

#[test]
fn handshake_lines() {
    assert_eq!(connect_request(), "PROT 0.1 CONNECT NEW");
    assert_eq!(name_line("bob"), "NAME bob");
    assert_eq!(login_step(LoginStage::AwaitNameRequest, "NAME REQ"), LoginStep::AskNick);
    assert_eq!(login_step(LoginStage::AwaitNameRequest, "BAD PROT"), LoginStep::NoNameRequest("BAD PROT".to_string()));
    assert_eq!(login_step(LoginStage::AwaitVerdict, "NAME OK"), LoginStep::Accepted);
    assert_eq!(login_step(LoginStage::AwaitVerdict, "NAME FAILURE"), LoginStep::Refused);
    assert_eq!(login_step(LoginStage::AwaitVerdict, "BAD REQ"), LoginStep::Answered("BAD REQ".to_string()));
    assert_eq!(next_login_stage(&LoginStep::AskNick), Some(LoginStage::AwaitVerdict));
    assert_eq!(next_login_stage(&LoginStep::Refused), Some(LoginStage::AwaitNameRequest));
    assert_eq!(next_login_stage(&LoginStep::Accepted), None);
    assert_eq!(next_login_stage(&LoginStep::Answered("x".to_string())), None);
    assert_eq!(next_login_stage(&LoginStep::NoNameRequest("x".to_string())), None);
}

#[test]
fn server_lines() {
    assert_eq!(read_server_line("BAD REQ"), ServerLine::Bad);
    assert_eq!(read_server_line("WELCOME"), ServerLine::Welcome);
    assert_eq!(read_server_line("BYE"), ServerLine::Bye);
    assert_eq!(
        read_server_line("FROM bob MSG hello  world"),
        ServerLine::From("bob".to_string(), strings(&["hello", "", "world"]))
    );
    assert_eq!(read_server_line("FROM bob"), ServerLine::From("bob".to_string(), vec![]));
    assert_eq!(
        read_server_line("LIST CLIENTS 2 alice bob"),
        ServerLine::List("2".to_string(), strings(&["alice", "bob"]))
    );
    assert_eq!(read_server_line("JOIN carol"), ServerLine::Join("carol".to_string()));
    assert_eq!(read_server_line("LOGOUT carol"), ServerLine::Logout("carol".to_string()));
    assert_eq!(read_server_line("PONG"), ServerLine::Other("PONG".to_string()));
    assert_eq!(read_server_line(""), ServerLine::Other("".to_string()));
}

#[test]
fn names_are_padded_to_the_right() {
    assert_eq!(pad_name("bob"), format!("{}<bob>", " ".repeat(17)));
    assert_eq!(pad_name(""), format!("{}<>", " ".repeat(20)));
    assert_eq!(pad_name("abcdefghijklmnopqrst"), "<abcdefghijklmnopqrst>");
    assert_eq!(pad_name("é"), format!("{}<é>", " ".repeat(18)));
}

#[test]
fn wrapping() {
    let ws = strings(&["aaaa", "bbbb", "cccc"]);
    // 34 + 10 columns leave 10 bytes for the message.
    assert_eq!(wrap_words(&ws, 44), strings(&[" aaaa", "bbbb cccc"]));
    assert_eq!(wrap_words(&ws, 80), strings(&[" aaaa bbbb cccc"]));
    assert_eq!(wrap_words(&ws, 34), strings(&["", "aaaa", "bbbb", "cccc"]));
    assert_eq!(wrap_words(&ws, 45), strings(&[" aaaa bbbb", "cccc"]));
    assert_eq!(wrap_words(&vec![], 80), strings(&[""]));
    assert_eq!(spaced_words(&ws), " aaaa bbbb cccc");
    assert_eq!(spaced_words(&vec![]), "");
}

#[test]
fn layout_matches_the_terminal() {
    let ws = strings(&["hello", "world"]);
    match lay_out(&ws) {
        Layout::Wrapped(c, lines) => {
            assert!(c >= 34);
            assert_eq!(lines, wrap_words(&ws, c));
        }
        Layout::Plain(s) => assert_eq!(s, " hello world"),
        Layout::TooNarrow(c) => assert!(c > 0 && c < 34),
    }
}

#[test]
fn colours_depend_on_the_name_only() {
    assert_eq!(hash_name("alice"), hash_name("alice"));
    assert_ne!(hash_name("alice"), hash_name("bob"));
    let slot = color_slot("alice");
    assert!(slot < COLOR_COUNT);
    assert_eq!(slot, hash_name("alice") % 6);
    assert_eq!(slot, color_slot("alice"));
    let names: Vec<String> = (0..COLOR_COUNT).map(color_name).collect();
    assert_eq!(names, strings(&["red", "green", "yellow", "blue", "magenta", "cyan"]));
}

#[test]
fn hash_is_the_default_hasher_of_the_string() {
    let mut s = DefaultHasher::new();
    String::from("alice").hash(&mut s);
    assert_eq!(hash_name("alice"), s.finish() as usize);
}

#[test]
fn basic_display() {
    assert_eq!(basic_display_for("FROM bob MSG hello world"), "<bob>: hello");
    assert_eq!(basic_display_for("JOIN bob"), "JOIN bob");
    assert_eq!(basic_display_for("FROM bob MSG "), "<bob>: ");
}

#[test]
fn layout_for_a_given_terminal() {
    let ws = strings(&["aaaa", "bbbb", "cccc"]);
    assert_eq!(lay_out_for(&ws, Some((44, 24))), Layout::Wrapped(44, strings(&[" aaaa", "bbbb cccc"])));
    assert_eq!(lay_out_for(&ws, Some((33, 24))), Layout::TooNarrow(33));
    assert_eq!(lay_out_for(&ws, None), Layout::Plain(" aaaa bbbb cccc".to_string()));
}
