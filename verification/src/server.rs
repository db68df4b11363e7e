//! What the server decides for one connection: the handshake that gives the
//! user a name (`PROT`, `NAME REQ`, `NAME`, `NAME OK` / `NAME FAILURE`) and
//! the answer to each line once the user is in the room.  Reading and
//! writing the connection, and holding the lock on the table of users, are
//! left to the caller.
use vstd::prelude::*;
use crate::text::{chars_are, chars_of, lines_view, owned, string_of, words, words_of};
use crate::registry::{is_chat_line, name_in_use, Registry};

verus! {

/// The version of the protocol that this server speaks.
pub open spec fn protocol_version() -> Seq<char> {
    "0.1"@
}

/// `c` is an ASCII letter or digit.
pub open spec fn is_name_char(c: char) -> bool {
    ('a' <= c <= 'z') || ('A' <= c <= 'Z') || ('0' <= c <= '9')
}

/// A user name holds 1 to 20 characters, each an ASCII letter or digit.
pub open spec fn is_username(s: Seq<char>) -> bool {
    1 <= s.len() <= 20 && forall|i: int| 0 <= i < s.len() ==> is_name_char(#[trigger] s[i])
}

/// How the server reads the first line of a connection.
pub enum Greeting {
    /// `PROT <version> CONNECT NEW`: the user will be asked for a name.
    AskName,
    /// `PROT <version> CONNECT USER <name>`.
    Propose(Seq<char>),
    /// Any other line.
    BadRequest,
    /// `PROT` with another version.
    BadProtocol,
}

/// The reading of the first line of a connection.
pub open spec fn greeting(line: Seq<char>) -> Greeting {
    let w = words(line);
    if (w.len() != 4 && w.len() != 5) || w[0] != "PROT"@ {
        Greeting::BadRequest
    } else if w[1] != protocol_version() {
        Greeting::BadProtocol
    } else if w[2] != "CONNECT"@ {
        Greeting::BadRequest
    } else if w.len() == 5 {
        if w[3] == "USER"@ {
            Greeting::Propose(w[4])
        } else {
            Greeting::BadRequest
        }
    } else if w[3] == "NEW"@ {
        Greeting::AskName
    } else {
        Greeting::BadRequest
    }
}

/// The name in an answer `NAME <name>` to `NAME REQ`; none when the line is
/// not of that form.
pub open spec fn name_answer(line: Seq<char>) -> Option<Seq<char>> {
    let w = words(line);
    if w.len() != 2 || w[0] != "NAME"@ {
        None
    } else {
        Some(w[1])
    }
}

/// A proposed name is granted when it is a user name (1 to 20 letters and
/// digits) and nobody uses it.
pub open spec fn name_acceptable(v: Seq<(u64, Seq<char>)>, name: Seq<char>) -> bool {
    is_username(name) && !name_in_use(v, name)
}

/// What a handshake step decides, as values.
pub enum HandshakeView {
    Continue(Seq<Seq<char>>),
    Admitted(Seq<Seq<char>>, Seq<char>),
    Refused(Seq<char>),
}

/// The answer to a proposed name.
pub open spec fn on_proposal(v: Seq<(u64, Seq<char>)>, name: Seq<char>) -> HandshakeView {
    if name_acceptable(v, name) {
        HandshakeView::Admitted(seq!["NAME OK"@], name)
    } else {
        HandshakeView::Continue(seq!["NAME FAILURE"@, "NAME REQ"@])
    }
}

/// The server's answer to the first line of a connection.
pub open spec fn greeting_outcome(v: Seq<(u64, Seq<char>)>, line: Seq<char>) -> HandshakeView {
    match greeting(line) {
        Greeting::BadRequest => HandshakeView::Refused("BAD REQ"@),
        Greeting::BadProtocol => HandshakeView::Refused("BAD PROT"@),
        Greeting::AskName => HandshakeView::Continue(seq!["NAME REQ"@]),
        Greeting::Propose(name) => on_proposal(v, name),
    }
}

/// The server's answer to a line sent after `NAME REQ`.
pub open spec fn naming_outcome(v: Seq<(u64, Seq<char>)>, line: Seq<char>) -> HandshakeView {
    match name_answer(line) {
        None => HandshakeView::Refused("BAD REQ"@),
        Some(name) => on_proposal(v, name),
    }
}

/// What the server does after a line of the handshake.
#[derive(Debug, PartialEq, Eq)]
pub enum Handshake {
    /// Send these lines, then read the next line as an answer to `NAME REQ`.
    Continue(Vec<String>),
    /// Send these lines: the user joins under the given name.
    Admitted(Vec<String>, String),
    /// Send this line and close the connection.
    Refused(String),
}

impl View for Handshake {
    type V = HandshakeView;

    open spec fn view(&self) -> HandshakeView {
        match self {
            Handshake::Continue(r) => HandshakeView::Continue(lines_view(r@)),
            Handshake::Admitted(r, n) => HandshakeView::Admitted(lines_view(r@), n@),
            Handshake::Refused(l) => HandshakeView::Refused(l@),
        }
    }
}

/// Tells whether `v` is a user name: 1 to 20 ASCII letters and digits.
pub fn username_valid(v: &Vec<char>) -> (r: bool)
    ensures
        r == is_username(v@),
{
    if v.len() < 1 || v.len() > 20 {
        return false;
    }
    let mut i: usize = 0;
    while i < v.len()
        invariant
            i <= v.len(),
            forall|j: int| 0 <= j < i ==> is_name_char(#[trigger] v@[j]),
        decreases v.len() - i,
    {
        let c = v[i];
        if !(('a' <= c && c <= 'z') || ('A' <= c && c <= 'Z') || ('0' <= c && c <= '9')) {
            return false;
        }
        i += 1;
    }
    true
}

fn one_line(a: &str) -> (r: Vec<String>)
    ensures
        lines_view(r@) == seq![a@],
{
    let mut r: Vec<String> = Vec::new();
    r.push(owned(a));
    assert(lines_view(r@) =~= seq![a@]);
    r
}

fn two_lines(a: &str, b: &str) -> (r: Vec<String>)
    ensures
        lines_view(r@) == seq![a@, b@],
{
    let mut r: Vec<String> = Vec::new();
    r.push(owned(a));
    r.push(owned(b));
    assert(lines_view(r@) =~= seq![a@, b@]);
    r
}

/// The answer to a proposed name.
fn answer_proposal(reg: &Registry, name: &Vec<char>) -> (r: Handshake)
    ensures
        r@ == on_proposal(reg@, name@),
{
    let n = string_of(name);
    if username_valid(name) && !reg.name_taken(n.as_str()) {
        Handshake::Admitted(one_line("NAME OK"), n)
    } else {
        Handshake::Continue(two_lines("NAME FAILURE", "NAME REQ"))
    }
}

/// The server's answer to the first line of a connection, given the users
/// already in the room: `BAD REQ` or `BAD PROT` closes the connection;
/// `PROT 0.1 CONNECT NEW` gets `NAME REQ`; a name proposed with
/// `PROT 0.1 CONNECT USER <name>` is granted with `NAME OK` or refused with
/// `NAME FAILURE` followed by `NAME REQ`.
pub fn greeting_step(reg: &Registry, line: &str) -> (r: Handshake)
    ensures
        r@ == greeting_outcome(reg@, line@),
{
    let w = words_of(&chars_of(line));
    let ghost ws = words(line@);
    assert(w@.len() == ws.len());
    if (w.len() != 4 && w.len() != 5) || !chars_are(&w[0], "PROT") {
        return Handshake::Refused(owned("BAD REQ"));
    }
    assert(w@[0]@ == ws[0]);
    assert(w@[1]@ == ws[1]);
    if !chars_are(&w[1], "0.1") {
        return Handshake::Refused(owned("BAD PROT"));
    }
    assert(w@[2]@ == ws[2]);
    assert(w@[3]@ == ws[3]);
    if !chars_are(&w[2], "CONNECT") {
        return Handshake::Refused(owned("BAD REQ"));
    }
    if w.len() == 5 {
        assert(w@[4]@ == ws[4]);
        if chars_are(&w[3], "USER") {
            answer_proposal(reg, &w[4])
        } else {
            Handshake::Refused(owned("BAD REQ"))
        }
    } else if chars_are(&w[3], "NEW") {
        Handshake::Continue(one_line("NAME REQ"))
    } else {
        Handshake::Refused(owned("BAD REQ"))
    }
}

/// The server's answer to a line that follows `NAME REQ`: anything but
/// `NAME <name>` closes the connection with `BAD REQ`; a name is granted or
/// refused as in the first line.
pub fn naming_step(reg: &Registry, line: &str) -> (r: Handshake)
    ensures
        r@ == naming_outcome(reg@, line@),
{
    let w = words_of(&chars_of(line));
    let ghost ws = words(line@);
    assert(w@.len() == ws.len());
    if w.len() != 2 || !chars_are(&w[0], "NAME") {
        return Handshake::Refused(owned("BAD REQ"));
    }
    assert(w@[0]@ == ws[0]);
    assert(w@[1]@ == ws[1]);
    answer_proposal(reg, &w[1])
}

/// The line the server sends to a user once it is in the room.
pub fn welcome_line() -> (r: String)
    ensures
        r@ == "WELCOME"@,
{
    owned("WELCOME")
}

/// What the server does with a line from a user in the room.
#[derive(Debug, PartialEq, Eq)]
pub enum ChatStep {
    /// Send this line back to the user.
    Reply(String),
    /// Send this line back and end the session.
    Leave(String),
    /// Send the user the list of users (`REQ CLIENTS`).
    ListClients,
    /// Distribute the line to every user, the sender included.
    Forward,
}

/// What a chat step decides, as values.
pub enum ChatStepView {
    Reply(Seq<char>),
    Leave(Seq<char>),
    ListClients,
    Forward,
}

impl View for ChatStep {
    type V = ChatStepView;

    open spec fn view(&self) -> ChatStepView {
        match self {
            ChatStep::Reply(l) => ChatStepView::Reply(l@),
            ChatStep::Leave(l) => ChatStepView::Leave(l@),
            ChatStep::ListClients => ChatStepView::ListClients,
            ChatStep::Forward => ChatStepView::Forward,
        }
    }
}

/// The three requests that the server answers whatever else the line holds.
pub open spec fn is_fixed_request(input: Seq<char>) -> bool {
    input == "BYE"@ || input == "PING"@ || input == "REQ CLIENTS"@
}

/// `MSG ` followed by a message of 1 to 2000 characters.
pub open spec fn is_chat_message(input: Seq<char>) -> bool {
    is_chat_line(input) && 5 <= input.len() <= 2004
}

/// The server's answer to a line from a user in the room.
pub open spec fn chat_outcome(input: Seq<char>) -> ChatStepView {
    if input == "BYE"@ {
        ChatStepView::Leave("BYE"@)
    } else if input == "PING"@ {
        ChatStepView::Reply("PONG"@)
    } else if input == "REQ CLIENTS"@ {
        ChatStepView::ListClients
    } else if is_chat_message(input) {
        ChatStepView::Forward
    } else {
        ChatStepView::Reply("BAD REQ"@)
    }
}

/// The server's answer to a line from a user in the room: `BYE` ends the
/// session, `PING` gets `PONG`, `REQ CLIENTS` gets the list of users,
/// `MSG <message>` with a message of 1 to 2000 characters is distributed,
/// and any other line gets `BAD REQ`.
pub fn chat_step(input: &str) -> (r: ChatStep)
    ensures
        r@ == chat_outcome(input@),
{
    let v = chars_of(input);
    if chars_are(&v, "BYE") {
        return ChatStep::Leave(owned("BYE"));
    }
    if chars_are(&v, "PING") {
        return ChatStep::Reply(owned("PONG"));
    }
    if chars_are(&v, "REQ CLIENTS") {
        return ChatStep::ListClients;
    }
    if v.len() >= 5 && v.len() <= 2004 {
        let mut head: Vec<char> = Vec::new();
        head.push(v[0]);
        head.push(v[1]);
        head.push(v[2]);
        head.push(v[3]);
        assert(head@ =~= v@.take(4));
        if chars_are(&head, "MSG ") {
            return ChatStep::Forward;
        }
    }
    ChatStep::Reply(owned("BAD REQ"))
}

/// The lines the basic server sends to a new connection
/// before reading the user's name.
pub fn basic_greeting() -> (r: Vec<String>)
    ensures
        lines_view(r@) == seq!["Welcome!"@, "Please enter your name:"@],
{
    two_lines("Welcome!", "Please enter your name:")
}

/// The basic server's answer to a line from a user in the
/// room: as `chat_step`, except that every other line is distributed.
pub open spec fn basic_chat_outcome(input: Seq<char>) -> ChatStepView {
    if input == "BYE"@ {
        ChatStepView::Leave("BYE"@)
    } else if input == "PING"@ {
        ChatStepView::Reply("PONG"@)
    } else if input == "REQ CLIENTS"@ {
        ChatStepView::ListClients
    } else {
        ChatStepView::Forward
    }
}

/// The basic server's answer to a line from a user in the
/// room.
pub fn basic_chat_step(input: &str) -> (r: ChatStep)
    ensures
        r@ == basic_chat_outcome(input@),
{
    let v = chars_of(input);
    if chars_are(&v, "BYE") {
        ChatStep::Leave(owned("BYE"))
    } else if chars_are(&v, "PING") {
        ChatStep::Reply(owned("PONG"))
    } else if chars_are(&v, "REQ CLIENTS") {
        ChatStep::ListClients
    } else {
        ChatStep::Forward
    }
}

} // verus!
