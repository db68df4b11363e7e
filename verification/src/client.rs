//! What the terminal client decides: which nicknames it lets the user pick,
//! what it sends for each line the user types, how it goes through the
//! server's handshake, how it reads the server's lines, and how it lays out
//! a message on the screen.  Reading the keyboard, the connection and
//! printing are left to the caller.
use vstd::prelude::*;
use std::collections::hash_map::DefaultHasher;
use std::hash::{Hash, Hasher};
use vstd::std_specs::hash::DefaultHasherAdditionalSpecFns;
use crate::server::{is_name_char, is_username};
use crate::text::{
    append_chars, append_str, byte_len, chars_are, lemma_byte_len_bound, lemma_byte_len_concat,
    lemma_byte_len_space, chars_of, is_white, is_white_space, lines_view, owned, pieces,
    pieces_of, spaced, string_of, trim, trim_chars, utf8_len, words, words_of,
};

verus! {

// ---------------------------------------------------------------------------
// Nickname
// ---------------------------------------------------------------------------
/// Why a nickname typed by the user is not sent.
#[derive(Debug, PartialEq, Eq, Structural, Clone, Copy)]
pub enum NickProblem {
    /// More than 20 characters.
    TooLong,
    /// Nothing but white space.
    Empty,
    /// White space inside the name.
    HasWhitespace,
    /// This character is not allowed: the first one that is not ASCII, or,
    /// in a name of ASCII characters without white space, the first one
    /// that is neither a letter nor a digit.
    NotAllowed(char),
}

/// The first character of `s` that is neither an ASCII letter nor a digit
/// (a space when there is none).
pub open spec fn first_bad_char(s: Seq<char>) -> char
    decreases s.len(),
{
    if s.len() == 0 {
        ' '
    } else if !is_name_char(s[0]) {
        s[0]
    } else {
        first_bad_char(s.drop_first())
    }
}

/// Whether `c` is an ASCII character.
pub open spec fn is_ascii_char(c: char) -> bool {
    (c as u32) < 128
}

/// The first character of `s` that is not ASCII (a space when there is
/// none).
pub open spec fn first_non_ascii(s: Seq<char>) -> char
    decreases s.len(),
{
    if s.len() == 0 {
        ' '
    } else if !is_ascii_char(s[0]) {
        s[0]
    } else {
        first_non_ascii(s.drop_first())
    }
}

/// The verdict on a typed nickname: the trimmed entry when it is a user
/// name (1 to 20 ASCII letters and digits), or why it is refused, the tests
/// being made in this order: the length, a character that is not ASCII,
/// emptiness, white space inside, then any other character that is neither
/// a letter nor a digit.
pub open spec fn nickname_verdict(entry: Seq<char>) -> Result<Seq<char>, NickProblem> {
    let n = trim(entry);
    if n.len() > 20 {
        Err(NickProblem::TooLong)
    } else if exists|i: int| 0 <= i < n.len() && !is_ascii_char(#[trigger] n[i]) {
        Err(NickProblem::NotAllowed(first_non_ascii(n)))
    } else if n.len() == 0 {
        Err(NickProblem::Empty)
    } else if exists|i: int| 0 <= i < n.len() && is_white(#[trigger] n[i]) {
        Err(NickProblem::HasWhitespace)
    } else if !is_username(n) {
        Err(NickProblem::NotAllowed(first_bad_char(n)))
    } else {
        Ok(n)
    }
}

proof fn lemma_first_bad_char_skip(s: Seq<char>, i: int)
    requires
        0 <= i <= s.len(),
        forall|j: int| 0 <= j < i ==> is_name_char(#[trigger] s[j]),
    ensures
        first_bad_char(s) == first_bad_char(s.subrange(i, s.len() as int)),
    decreases i,
{
    if i > 0 {
        let t = s.drop_first();
        assert forall|j: int| 0 <= j < i - 1 implies is_name_char(#[trigger] t[j]) by {
            assert(t[j] == s[j + 1]);
        }
        lemma_first_bad_char_skip(t, i - 1);
        assert(t.subrange(i - 1, t.len() as int) == s.subrange(i, s.len() as int));
    } else {
        assert(s.subrange(0, s.len() as int) == s);
    }
}

proof fn lemma_first_non_ascii_skip(s: Seq<char>, i: int)
    requires
        0 <= i <= s.len(),
        forall|j: int| 0 <= j < i ==> is_ascii_char(#[trigger] s[j]),
    ensures
        first_non_ascii(s) == first_non_ascii(s.subrange(i, s.len() as int)),
    decreases i,
{
    if i > 0 {
        let t = s.drop_first();
        assert forall|j: int| 0 <= j < i - 1 implies is_ascii_char(#[trigger] t[j]) by {
            assert(t[j] == s[j + 1]);
        }
        lemma_first_non_ascii_skip(t, i - 1);
        assert(t.subrange(i - 1, t.len() as int) == s.subrange(i, s.len() as int));
    } else {
        assert(s.subrange(0, s.len() as int) == s);
    }
}

/// Judges a nickname typed by the user (line breaks already removed): it is
/// trimmed, and must then hold 1 to 20 characters, each an ASCII letter or
/// digit.
pub fn validate_nickname(entry: &str) -> (r: Result<String, NickProblem>)
    ensures
        r matches Ok(n) ==> nickname_verdict(entry@) == Ok::<Seq<char>, NickProblem>(n@),
        r matches Err(p) ==> nickname_verdict(entry@) == Err::<Seq<char>, NickProblem>(p),
{
    let t = trim_chars(&chars_of(entry));
    if t.len() > 20 {
        return Err(NickProblem::TooLong);
    }
    let mut i: usize = 0;
    while i < t.len()
        invariant
            i <= t.len(),
            t@.len() <= 20,
            t@ == trim(entry@),
            forall|j: int| 0 <= j < i ==> is_ascii_char(#[trigger] t@[j]),
        decreases t.len() - i,
    {
        let c = t[i];
        if (c as u32) >= 128 {
            proof {
                lemma_first_non_ascii_skip(t@, i as int);
                let sub = t@.subrange(i as int, t@.len() as int);
                assert(sub[0] == t@[i as int]);
                assert(!is_ascii_char(t@[i as int]));
            }
            return Err(NickProblem::NotAllowed(c));
        }
        i += 1;
    }
    if t.len() == 0 {
        return Err(NickProblem::Empty);
    }
    i = 0;
    while i < t.len()
        invariant
            i <= t.len(),
            1 <= t@.len() <= 20,
            t@ == trim(entry@),
            forall|j: int| 0 <= j < t@.len() ==> is_ascii_char(#[trigger] t@[j]),
            forall|j: int| 0 <= j < i ==> !is_white(#[trigger] t@[j]),
        decreases t.len() - i,
    {
        if is_white_space(t[i]) {
            assert(is_white(t@[i as int]));
            return Err(NickProblem::HasWhitespace);
        }
        i += 1;
    }
    i = 0;
    while i < t.len()
        invariant
            i <= t.len(),
            1 <= t@.len() <= 20,
            t@ == trim(entry@),
            forall|j: int| 0 <= j < t@.len() ==> is_ascii_char(#[trigger] t@[j]),
            forall|j: int| 0 <= j < t@.len() ==> !is_white(#[trigger] t@[j]),
            forall|j: int| 0 <= j < i ==> is_name_char(#[trigger] t@[j]),
        decreases t.len() - i,
    {
        let c = t[i];
        if !(('a' <= c && c <= 'z') || ('A' <= c && c <= 'Z') || ('0' <= c && c <= '9')) {
            proof {
                lemma_first_bad_char_skip(t@, i as int);
                let sub = t@.subrange(i as int, t@.len() as int);
                assert(sub[0] == t@[i as int]);
                assert(first_bad_char(t@) == c);
                assert(!is_username(t@));
            }
            return Err(NickProblem::NotAllowed(c));
        }
        i += 1;
    }
    Ok(string_of(&t))
}

// ---------------------------------------------------------------------------
// Lines typed by the user
// ---------------------------------------------------------------------------
/// What the client does with a line typed by the user.
#[derive(Debug, PartialEq, Eq)]
pub enum Command {
    /// Nothing to send.
    Ignore,
    /// Send this line and stop reading the keyboard.
    Quit(String),
    /// Send this line.
    Send(String),
    /// The message is longer than 2000 characters: it is not sent.
    TooLong,
    /// A user name must be a single word: it is not sent.
    NotOneWord,
}

/// What a command is, as values.
pub enum CommandView {
    Ignore,
    Quit(Seq<char>),
    Send(Seq<char>),
    TooLong,
    NotOneWord,
}

impl View for Command {
    type V = CommandView;

    open spec fn view(&self) -> CommandView {
        match self {
            Command::Ignore => CommandView::Ignore,
            Command::Quit(l) => CommandView::Quit(l@),
            Command::Send(l) => CommandView::Send(l@),
            Command::TooLong => CommandView::TooLong,
            Command::NotOneWord => CommandView::NotOneWord,
        }
    }
}

/// The client's reading of a typed line once it is in the room: `/quit`
/// sends `BYE` and stops, `/clients` asks for the list of users, an empty
/// line is ignored, and anything else is sent as a message `MSG <line>`
/// unless it is longer than 2000 characters.
pub open spec fn user_command(line: Seq<char>) -> CommandView {
    if line.len() == 0 {
        CommandView::Ignore
    } else if line == "/quit"@ {
        CommandView::Quit("BYE"@)
    } else if line == "/clients"@ {
        CommandView::Send("REQ CLIENTS"@)
    } else if line.len() > 2000 {
        CommandView::TooLong
    } else {
        CommandView::Send("MSG "@ + line)
    }
}

/// The basic client's reading of the first typed line, the
/// user's name: it must be one word.
pub open spec fn basic_name_command(line: Seq<char>) -> CommandView {
    if line.len() == 0 {
        CommandView::Ignore
    } else if line == "/quit"@ {
        CommandView::Quit("BYE"@)
    } else if words(line).len() > 1 {
        CommandView::NotOneWord
    } else {
        CommandView::Send(line)
    }
}

/// The basic client's reading of a typed line in the room:
/// as `user_command`, without a limit on the length.
pub open spec fn basic_chat_command(line: Seq<char>) -> CommandView {
    if line.len() == 0 {
        CommandView::Ignore
    } else if line == "/quit"@ {
        CommandView::Quit("BYE"@)
    } else if line == "/clients"@ {
        CommandView::Send("REQ CLIENTS"@)
    } else {
        CommandView::Send("MSG "@ + line)
    }
}

/// `prefix` followed by `rest`, as a `String`.
fn prefixed(prefix: &str, rest: &Vec<char>) -> (r: String)
    ensures
        r@ == prefix@ + rest@,
{
    let mut v = chars_of(prefix);
    append_chars(&mut v, rest);
    string_of(&v)
}

/// What the client does with a line typed in the room.
pub fn user_command_for(line: &str) -> (r: Command)
    ensures
        r@ == user_command(line@),
{
    let v = chars_of(line);
    if v.len() == 0 {
        Command::Ignore
    } else if chars_are(&v, "/quit") {
        Command::Quit(owned("BYE"))
    } else if chars_are(&v, "/clients") {
        Command::Send(owned("REQ CLIENTS"))
    } else if v.len() > 2000 {
        Command::TooLong
    } else {
        Command::Send(prefixed("MSG ", &v))
    }
}

/// What the basic client does with the first typed line.
pub fn basic_name_command_for(line: &str) -> (r: Command)
    ensures
        r@ == basic_name_command(line@),
{
    let v = chars_of(line);
    if v.len() == 0 {
        Command::Ignore
    } else if chars_are(&v, "/quit") {
        Command::Quit(owned("BYE"))
    } else if words_of(&v).len() > 1 {
        Command::NotOneWord
    } else {
        Command::Send(string_of(&v))
    }
}

/// What the basic client does with a line typed in the room.
pub fn basic_chat_command_for(line: &str) -> (r: Command)
    ensures
        r@ == basic_chat_command(line@),
{
    let v = chars_of(line);
    if v.len() == 0 {
        Command::Ignore
    } else if chars_are(&v, "/quit") {
        Command::Quit(owned("BYE"))
    } else if chars_are(&v, "/clients") {
        Command::Send(owned("REQ CLIENTS"))
    } else {
        Command::Send(prefixed("MSG ", &v))
    }
}

/// The request for the list of users, which the client sends as soon as it
/// starts reading the keyboard.
pub fn clients_request() -> (r: String)
    ensures
        r@ == "REQ CLIENTS"@,
{
    owned("REQ CLIENTS")
}

// ---------------------------------------------------------------------------
// Handshake
// ---------------------------------------------------------------------------
/// The first line the client sends: a connection without a name, in
/// version 0.1 of the protocol.
pub fn connect_request() -> (r: String)
    ensures
        r@ == "PROT 0.1 CONNECT NEW"@,
{
    owned("PROT 0.1 CONNECT NEW")
}

/// The answer to `NAME REQ` for the nickname `nick`.
pub fn name_line(nick: &str) -> (r: String)
    ensures
        r@ == "NAME "@ + nick@,
{
    prefixed("NAME ", &chars_of(nick))
}

/// Where the client stands in the handshake.
#[derive(Debug, PartialEq, Eq, Structural, Clone, Copy)]
pub enum LoginStage {
    /// Waiting for `NAME REQ`.
    AwaitNameRequest,
    /// A nickname was sent; waiting for `NAME OK` or `NAME FAILURE`.
    AwaitVerdict,
}

/// What the client does with a line of the server during the handshake.
#[derive(Debug, PartialEq, Eq)]
pub enum LoginStep {
    /// Ask the user for a nickname and send it; then wait for the verdict.
    AskNick,
    /// The nickname is granted.
    Accepted,
    /// The nickname is refused; wait for the next `NAME REQ`.
    Refused,
    /// The server sent this line instead of `NAME REQ`: the handshake ends.
    NoNameRequest(String),
    /// The server answered the nickname with this line: it is shown and the
    /// handshake ends.
    Answered(String),
}

/// What a login step is, as values.
pub enum LoginStepView {
    AskNick,
    Accepted,
    Refused,
    NoNameRequest(Seq<char>),
    Answered(Seq<char>),
}

impl View for LoginStep {
    type V = LoginStepView;

    open spec fn view(&self) -> LoginStepView {
        match self {
            LoginStep::AskNick => LoginStepView::AskNick,
            LoginStep::Accepted => LoginStepView::Accepted,
            LoginStep::Refused => LoginStepView::Refused,
            LoginStep::NoNameRequest(l) => LoginStepView::NoNameRequest(l@),
            LoginStep::Answered(l) => LoginStepView::Answered(l@),
        }
    }
}

/// The client's reading of a server line during the handshake.
pub open spec fn login_outcome(stage: LoginStage, answer: Seq<char>) -> LoginStepView {
    match stage {
        LoginStage::AwaitNameRequest => if answer == "NAME REQ"@ {
            LoginStepView::AskNick
        } else {
            LoginStepView::NoNameRequest(answer)
        },
        LoginStage::AwaitVerdict => if answer == "NAME OK"@ {
            LoginStepView::Accepted
        } else if answer == "NAME FAILURE"@ {
            LoginStepView::Refused
        } else {
            LoginStepView::Answered(answer)
        },
    }
}

/// What the client does with a line of the server during the handshake.
pub fn login_step(stage: LoginStage, answer: &str) -> (r: LoginStep)
    ensures
        r@ == login_outcome(stage, answer@),
{
    let v = chars_of(answer);
    match stage {
        LoginStage::AwaitNameRequest => {
            if chars_are(&v, "NAME REQ") {
                LoginStep::AskNick
            } else {
                LoginStep::NoNameRequest(owned(answer))
            }
        },
        LoginStage::AwaitVerdict => {
            if chars_are(&v, "NAME OK") {
                LoginStep::Accepted
            } else if chars_are(&v, "NAME FAILURE") {
                LoginStep::Refused
            } else {
                LoginStep::Answered(owned(answer))
            }
        },
    }
}

/// Where the client stands after a handshake step; none when the handshake
/// is over.
pub open spec fn stage_after(step: LoginStepView) -> Option<LoginStage> {
    match step {
        LoginStepView::AskNick => Some(LoginStage::AwaitVerdict),
        LoginStepView::Refused => Some(LoginStage::AwaitNameRequest),
        _ => None,
    }
}

/// Where the client stands after a handshake step: after sending a
/// nickname it waits for the verdict, after a refusal for the next
/// `NAME REQ`; otherwise the handshake is over.
pub fn next_login_stage(step: &LoginStep) -> (r: Option<LoginStage>)
    ensures
        r == stage_after(step@),
{
    match step {
        LoginStep::AskNick => Some(LoginStage::AwaitVerdict),
        LoginStep::Refused => Some(LoginStage::AwaitNameRequest),
        _ => None,
    }
}

// ---------------------------------------------------------------------------
// Lines from the server
// ---------------------------------------------------------------------------
/// A line from the server, as the client reads it once in the room.
#[derive(Debug, PartialEq, Eq)]
pub enum ServerLine {
    /// `BAD ...`: the server did not understand a request.
    Bad,
    /// `WELCOME ...`: the user is in the room.
    Welcome,
    /// `FROM <name> <anything> <words>...`: a message from `name`.
    From(String, Vec<String>),
    /// `BYE ...`: the server ends the session.
    Bye,
    /// `LIST <anything> <count> <names>...`: the users in the room.
    List(String, Vec<String>),
    /// `JOIN <name> ...`.
    Join(String),
    /// `LOGOUT <name> ...`.
    Logout(String),
    /// Any other line, shown as it is.
    Other(String),
}

/// What a server line is, as values.
pub enum ServerLineView {
    Bad,
    Welcome,
    From(Seq<char>, Seq<Seq<char>>),
    Bye,
    List(Seq<char>, Seq<Seq<char>>),
    Join(Seq<char>),
    Logout(Seq<char>),
    Other(Seq<char>),
}

impl View for ServerLine {
    type V = ServerLineView;

    open spec fn view(&self) -> ServerLineView {
        match self {
            ServerLine::Bad => ServerLineView::Bad,
            ServerLine::Welcome => ServerLineView::Welcome,
            ServerLine::From(n, w) => ServerLineView::From(n@, lines_view(w@)),
            ServerLine::Bye => ServerLineView::Bye,
            ServerLine::List(c, w) => ServerLineView::List(c@, lines_view(w@)),
            ServerLine::Join(n) => ServerLineView::Join(n@),
            ServerLine::Logout(n) => ServerLineView::Logout(n@),
            ServerLine::Other(l) => ServerLineView::Other(l@),
        }
    }
}

/// The parts of `p` from the fourth on.
pub open spec fn from_fourth(p: Seq<Seq<char>>) -> Seq<Seq<char>> {
    if p.len() > 3 {
        p.subrange(3, p.len() as int)
    } else {
        Seq::empty()
    }
}

/// The server line has the parts that the client reads in it: a name after
/// `FROM`, `JOIN` and `LOGOUT`, a count after `LIST` and its first part.
pub open spec fn readable(input: Seq<char>) -> bool {
    let p = pieces(input);
    &&& (p[0] == "FROM"@ || p[0] == "JOIN"@ || p[0] == "LOGOUT"@) ==> p.len() >= 2
    &&& p[0] == "LIST"@ ==> p.len() >= 3
}

/// The client's reading of a server line, split at single spaces.
pub open spec fn server_line(input: Seq<char>) -> ServerLineView {
    let p = pieces(input);
    if p[0] == "BAD"@ {
        ServerLineView::Bad
    } else if p[0] == "WELCOME"@ {
        ServerLineView::Welcome
    } else if p[0] == "FROM"@ {
        ServerLineView::From(p[1], from_fourth(p))
    } else if p[0] == "BYE"@ {
        ServerLineView::Bye
    } else if p[0] == "LIST"@ {
        ServerLineView::List(p[2], from_fourth(p))
    } else if p[0] == "JOIN"@ {
        ServerLineView::Join(p[1])
    } else if p[0] == "LOGOUT"@ {
        ServerLineView::Logout(p[1])
    } else {
        ServerLineView::Other(input)
    }
}

/// The strings made of the parts `p[from..]`.
fn strings_from(p: &Vec<Vec<char>>, from: usize) -> (r: Vec<String>)
    ensures
        lines_view(r@) == from_fourth_at(p@.map_values(|w: Vec<char>| w@), from as int),
{
    let mut r: Vec<String> = Vec::new();
    let mut i = from;
    let ghost pv = p@.map_values(|w: Vec<char>| w@);
    if from < p.len() {
        while i < p.len()
            invariant
                from <= i <= p.len(),
                pv == p@.map_values(|w: Vec<char>| w@),
                lines_view(r@) == pv.subrange(from as int, i as int),
            decreases p.len() - i,
        {
            let ghost before = r@;
            r.push(string_of(&p[i]));
            assert(lines_view(r@) == lines_view(before).push(pv[i as int]));
            assert(pv.subrange(from as int, i + 1) == pv.subrange(from as int, i as int).push(
                pv[i as int],
            ));
            i += 1;
        }
    } else {
        assert(lines_view(r@) =~= Seq::<Seq<char>>::empty());
    }
    r
}

/// The parts of `p` from index `from` on (none when there are fewer).
pub open spec fn from_fourth_at(p: Seq<Seq<char>>, from: int) -> Seq<Seq<char>> {
    if p.len() > from {
        p.subrange(from, p.len() as int)
    } else {
        Seq::empty()
    }
}

/// Reads a line from the server once in the room.  A line that lacks the
/// parts the client reads in it is not read (the client fails on it).
pub fn read_server_line(input: &str) -> (r: ServerLine)
    requires
        readable(input@),
    ensures
        r@ == server_line(input@),
{
    let p = pieces_of(&chars_of(input));
    let ghost pv = pieces(input@);
    assert(p@.len() == pv.len());
    assert(p@[0]@ == pv[0]);
    assert(from_fourth_at(pv, 3) == from_fourth(pv));
    let h = &p[0];
    if chars_are(h, "BAD") {
        ServerLine::Bad
    } else if chars_are(h, "WELCOME") {
        ServerLine::Welcome
    } else if chars_are(h, "FROM") {
        assert(p@[1]@ == pv[1]);
        ServerLine::From(string_of(&p[1]), strings_from(&p, 3))
    } else if chars_are(h, "BYE") {
        ServerLine::Bye
    } else if chars_are(h, "LIST") {
        assert(p@[2]@ == pv[2]);
        ServerLine::List(string_of(&p[2]), strings_from(&p, 3))
    } else if chars_are(h, "JOIN") {
        assert(p@[1]@ == pv[1]);
        ServerLine::Join(string_of(&p[1]))
    } else if chars_are(h, "LOGOUT") {
        assert(p@[1]@ == pv[1]);
        ServerLine::Logout(string_of(&p[1]))
    } else {
        ServerLine::Other(owned(input))
    }
}

// ---------------------------------------------------------------------------
// Showing a message
// ---------------------------------------------------------------------------
/// `n` spaces.
pub open spec fn spaces(n: nat) -> Seq<char> {
    Seq::new(n, |i: int| ' ')
}

/// The sender's name as shown in front of a message: `<name>`, right-aligned
/// on 22 columns for names of up to 20 bytes.
pub open spec fn padded_name(name: Seq<char>) -> Seq<char> {
    spaces((20 - byte_len(name)) as nat) + "<"@ + name + ">"@
}

/// The sender's name as shown in front of a message.  A name of more than
/// 20 bytes is not handled (the client fails on it).
pub fn pad_name(name: &str) -> (r: String)
    requires
        byte_len(name@) <= 20,
    ensures
        r@ == padded_name(name@),
{
    let v = chars_of(name);
    let n = utf8_len(&v) as usize;
    let mut out: Vec<char> = Vec::new();
    let mut i: usize = 0;
    while i < 20 - n
        invariant
            n == byte_len(name@),
            n <= 20,
            i <= 20 - n,
            out@ == spaces(i as nat),
        decreases 20 - n - i,
    {
        out.push(' ');
        i += 1;
        assert(out@ =~= spaces(i as nat));
    }
    append_str(&mut out, "<");
    append_chars(&mut out, &v);
    append_str(&mut out, ">");
    string_of(&out)
}

/// Left-to-right scan behind `wrapped`: the lines completed so far and the
/// line being filled.
pub open spec fn wrap_scan(ws: Seq<Seq<char>>, width: int) -> (Seq<Seq<char>>, Seq<char>)
    decreases ws.len(),
{
    if ws.len() == 0 {
        (Seq::empty(), Seq::empty())
    } else {
        let (done, cur) = wrap_scan(ws.drop_last(), width);
        let word = ws.last();
        if width > byte_len(cur) + byte_len(word) + 1 {
            (done, cur + " "@ + word)
        } else {
            (done.push(cur), word)
        }
    }
}

/// The lines of a message wrapped at `width` bytes: a word goes on the
/// current line, after a space, while the line stays shorter than `width`;
/// otherwise the current line is closed and the word starts the next one.
pub open spec fn wrapped(ws: Seq<Seq<char>>, width: int) -> Seq<Seq<char>> {
    let (done, cur) = wrap_scan(ws, width);
    done.push(cur)
}

/// The lines of a message whose words are `ws` on a terminal of `columns`
/// columns, of which 34 go to the time and the name.  A terminal narrower
/// than 34 columns is not handled (the client fails on it).
pub fn wrap_words(ws: &Vec<String>, columns: usize) -> (r: Vec<String>)
    requires
        columns >= 34,
    ensures
        lines_view(r@) == wrapped(lines_view(ws@), columns - 34),
{
    let width: usize = columns - 34;
    let ghost wv = lines_view(ws@);
    let mut done: Vec<String> = Vec::new();
    let mut cur: Vec<char> = Vec::new();
    let mut cur_len: u128 = 0;
    let mut i: usize = 0;
    while i < ws.len()
        invariant
            i <= ws.len(),
            width == columns - 34,
            wv == lines_view(ws@),
            wrap_scan(wv.take(i as int), width as int) == (lines_view(done@), cur@),
            cur_len == byte_len(cur@),
        decreases ws.len() - i,
    {
        assert(wv.take(i + 1).drop_last() == wv.take(i as int));
        let word = chars_of(ws[i].as_str());
        assert(word@ == wv[i as int]);
        let word_len = utf8_len(&word);
        let cl = cur.len();
        let wl = word.len();
        proof {
            lemma_byte_len_bound(cur@);
            assert(cur@.len() == cl);
            assert(word@.len() == wl);
            assert(cur_len <= 4 * (usize::MAX as int));
            assert(word_len <= 4 * (usize::MAX as int));
        }
        if (width as u128) > cur_len + word_len + 1 {
            let ghost old_cur = cur@;
            append_str(&mut cur, " ");
            append_chars(&mut cur, &word);
            proof {
                lemma_byte_len_space();
                lemma_byte_len_concat(old_cur, " "@);
                lemma_byte_len_concat(old_cur + " "@, word@);
            }
            cur_len = cur_len + 1 + word_len;
        } else {
            let ghost before = done@;
            done.push(string_of(&cur));
            assert(lines_view(done@) == lines_view(before).push(cur@));
            cur = word;
            cur_len = word_len;
        }
        i += 1;
    }
    assert(wv.take(ws.len() as int) == wv);
    let ghost before = done@;
    done.push(string_of(&cur));
    assert(lines_view(done@) == lines_view(before).push(cur@));
    done
}

/// The words of a message, each preceded by a space, as one line.
pub fn spaced_words(ws: &Vec<String>) -> (r: String)
    ensures
        r@ == spaced(lines_view(ws@)),
{
    let ghost wv = lines_view(ws@);
    let mut out: Vec<char> = Vec::new();
    let mut i: usize = 0;
    while i < ws.len()
        invariant
            i <= ws.len(),
            wv == lines_view(ws@),
            out@ == spaced(wv.take(i as int)),
        decreases ws.len() - i,
    {
        assert(wv.take(i + 1).drop_last() == wv.take(i as int));
        append_str(&mut out, " ");
        let word = chars_of(ws[i].as_str());
        append_chars(&mut out, &word);
        i += 1;
    }
    assert(wv.take(ws.len() as int) == wv);
    string_of(&out)
}

/// Calls `term_size::dimensions()`: the columns and rows of the terminal
/// behind standard output, else standard input, else standard error, when
/// one of them is a terminal.  Its source returns `None` rather than a zero
/// count; which size it finds depends on the terminal and is left unsaid.
#[verifier::external_body]
fn terminal_dimensions() -> (r: Option<(usize, usize)>)
    ensures
        r matches Some((c, l)) ==> c > 0 && l > 0,
{
    term_size::dimensions()
}

/// How a message is shown.
#[derive(Debug, PartialEq, Eq)]
pub enum Layout {
    /// On a terminal of this many columns: these lines, the first after the
    /// time and the sender's name, the others after blank space.
    Wrapped(usize, Vec<String>),
    /// When the output is not a terminal: the words on one line.
    Plain(String),
    /// The terminal has fewer than 34 columns, which the client does not
    /// handle.
    TooNarrow(usize),
}

/// What a layout is, as values.
pub enum LayoutView {
    Wrapped(usize, Seq<Seq<char>>),
    Plain(Seq<char>),
    TooNarrow(usize),
}

impl View for Layout {
    type V = LayoutView;

    open spec fn view(&self) -> LayoutView {
        match self {
            Layout::Wrapped(c, lines) => LayoutView::Wrapped(*c, lines_view(lines@)),
            Layout::Plain(s) => LayoutView::Plain(s@),
            Layout::TooNarrow(c) => LayoutView::TooNarrow(*c),
        }
    }
}

/// The layout of a message whose words are `ws`, given the size of the
/// terminal (columns and rows), or `None` when the output is no terminal:
/// wrapped at the columns left after 34, too narrow below 34 columns, on one
/// line without a terminal.
pub open spec fn layout_of(ws: Seq<Seq<char>>, dims: Option<(usize, usize)>) -> LayoutView {
    match dims {
        Some((c, _)) => if c >= 34 {
            LayoutView::Wrapped(c, wrapped(ws, c - 34))
        } else {
            LayoutView::TooNarrow(c)
        },
        None => LayoutView::Plain(spaced(ws)),
    }
}

/// A size that the terminal query can report: a terminal has at least one
/// column and one row.
pub open spec fn possible_dimensions(dims: Option<(usize, usize)>) -> bool {
    dims matches Some((c, l)) ==> c > 0 && l > 0
}

/// Lays out a message whose words are `ws` for a terminal of the size
/// `dims` (columns and rows), or for an output that is no terminal.
pub fn lay_out_for(ws: &Vec<String>, dims: Option<(usize, usize)>) -> (r: Layout)
    ensures
        r@ == layout_of(lines_view(ws@), dims),
{
    match dims {
        Some((c, _)) => {
            if c >= 34 {
                Layout::Wrapped(c, wrap_words(ws, c))
            } else {
                Layout::TooNarrow(c)
            }
        },
        None => Layout::Plain(spaced_words(ws)),
    }
}

/// Lays out a message whose words are `ws` for the terminal the client
/// writes to.
pub fn lay_out(ws: &Vec<String>) -> (r: Layout)
    ensures
        exists|dims: Option<(usize, usize)>|
            possible_dimensions(dims) && r@ == layout_of(lines_view(ws@), dims),
        r matches Layout::Wrapped(c, lines) ==> c >= 34 && lines_view(lines@) == wrapped(
            lines_view(ws@),
            c - 34,
        ),
        r matches Layout::Plain(s) ==> s@ == spaced(lines_view(ws@)),
        r matches Layout::TooNarrow(c) ==> 0 < c < 34,
{
    let dims = terminal_dimensions();
    let r = lay_out_for(ws, dims);
    assert(possible_dimensions(dims) && r@ == layout_of(lines_view(ws@), dims));
    r
}

// ---------------------------------------------------------------------------
// Colours
// ---------------------------------------------------------------------------
/// What `<str as Hash>::hash` leaves in a `DefaultHasher` whose writes so far
/// are `before`, after hashing `s`.
pub uninterp spec fn hasher_after_str(before: Seq<Seq<u8>>, s: Seq<char>) -> Seq<Seq<u8>>;

/// Calls `<String as Hash>::hash`, which feeds `name` into `state`.  What it
/// writes is std's business; the contract says only that it depends on the
/// writes made before and on the text of `name`.
#[verifier::external_body]
fn hash_string_into(name: &String, state: &mut DefaultHasher)
    ensures
        final(state)@ == hasher_after_str(old(state)@, name@),
{
    name.hash(state)
}

/// The hash of a user name, from which its colour is chosen.
pub open spec fn name_hash(name: Seq<char>) -> usize {
    DefaultHasher::spec_finish(hasher_after_str(Seq::empty(), name)) as usize
}

/// Hashes `name` with a fresh `DefaultHasher`.
pub fn hash_name(name: &str) -> (r: usize)
    ensures
        r == name_hash(name@),
{
    let mut s = DefaultHasher::new();
    let owned_name = owned(name);
    hash_string_into(&owned_name, &mut s);
    s.finish() as usize
}

/// Number of colours in which names are shown.
pub const COLOR_COUNT: usize = 6;

/// The colours in which names are shown, by slot.
pub open spec fn color_names() -> Seq<Seq<char>> {
    seq!["red"@, "green"@, "yellow"@, "blue"@, "magenta"@, "cyan"@]
}

/// The slot of the colour in which `name` is shown.
pub fn color_slot(name: &str) -> (r: usize)
    ensures
        r < COLOR_COUNT,
        r == name_hash(name@) % (COLOR_COUNT as usize),
{
    hash_name(name) % COLOR_COUNT
}

/// The name of the colour of slot `slot`.
pub fn color_name(slot: usize) -> (r: String)
    requires
        slot < COLOR_COUNT,
    ensures
        r@ == color_names()[slot as int],
{
    if slot == 0 {
        owned("red")
    } else if slot == 1 {
        owned("green")
    } else if slot == 2 {
        owned("yellow")
    } else if slot == 3 {
        owned("blue")
    } else if slot == 4 {
        owned("magenta")
    } else {
        owned("cyan")
    }
}

// ---------------------------------------------------------------------------
// Basic client
// ---------------------------------------------------------------------------
/// A server line of the form `FROM <name> <anything> <word> ...` has the four
/// parts that the basic client shows.
pub open spec fn basic_readable(input: Seq<char>) -> bool {
    pieces(input)[0] == "FROM"@ ==> pieces(input).len() >= 4
}

/// What the basic client prints for a server line: a
/// message as `<name>: <first word>`, anything else as it is.
pub open spec fn basic_display(input: Seq<char>) -> Seq<char> {
    let p = pieces(input);
    if p[0] == "FROM"@ {
        "<"@ + p[1] + ">: "@ + p[3]
    } else {
        input
    }
}

/// What the basic client prints for a server line.
pub fn basic_display_for(input: &str) -> (r: String)
    requires
        basic_readable(input@),
    ensures
        r@ == basic_display(input@),
{
    let p = pieces_of(&chars_of(input));
    let ghost pv = pieces(input@);
    assert(p@.len() == pv.len());
    assert(p@[0]@ == pv[0]);
    if chars_are(&p[0], "FROM") {
        assert(p@[1]@ == pv[1]);
        assert(p@[3]@ == pv[3]);
        let mut out = chars_of("<");
        append_chars(&mut out, &p[1]);
        append_str(&mut out, ">: ");
        append_chars(&mut out, &p[3]);
        string_of(&out)
    } else {
        owned(input)
    }
}

} // verus!
