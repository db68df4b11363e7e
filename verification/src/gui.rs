//! What the graphical client decides: the address typed in its login
//! dialog, the first line it sends, how it reads the server's answers until
//! it is connected, and the text it adds to the chat window.
use vstd::prelude::*;
use crate::clock::{get_time, is_clock_stamp};
use crate::text::{append_chars, append_str, chars_are, chars_of, owned, string_of};

verus! {

/// The address put together from the login dialog: empty when no host is
/// given, else `host:port`, the port being 2222 when none is given.
pub open spec fn dialog_address(host: Seq<char>, port: Seq<char>) -> Seq<char> {
    if host.len() == 0 {
        Seq::empty()
    } else {
        host + ":"@ + (if port.len() == 0 {
            "2222"@
        } else {
            port
        })
    }
}

/// The address put together from the login dialog.
pub fn login_address(host: &str, port: &str) -> (r: String)
    ensures
        r@ == dialog_address(host@, port@),
{
    let h = chars_of(host);
    if h.len() == 0 {
        return String::new();
    }
    let p = chars_of(port);
    let mut out = h;
    append_str(&mut out, ":");
    if p.len() == 0 {
        append_str(&mut out, "2222");
    } else {
        append_chars(&mut out, &p);
    }
    string_of(&out)
}

/// The first line the graphical client sends: with a nickname it connects
/// under that name, with an empty one it connects without a name.
pub open spec fn gui_hello(nick: Seq<char>) -> Seq<char> {
    if nick.len() == 0 {
        "PROT 0.1 CONNECT NEW"@
    } else {
        "PROT 0.1 CONNECT USER "@ + nick
    }
}

/// The first line the graphical client sends.
pub fn gui_hello_line(nick: &str) -> (r: String)
    ensures
        r@ == gui_hello(nick@),
{
    let n = chars_of(nick);
    if n.len() == 0 {
        owned("PROT 0.1 CONNECT NEW")
    } else {
        let mut out = chars_of("PROT 0.1 CONNECT USER ");
        append_chars(&mut out, &n);
        string_of(&out)
    }
}

/// Which answer the graphical client waits for.
#[derive(Debug, PartialEq, Eq, Structural, Clone, Copy)]
pub enum GuiStage {
    /// `NAME OK`.
    AwaitNameOk,
    /// `WELCOME`, after `NAME OK`.
    AwaitWelcome,
}

/// What the graphical client does with a line during its login.
#[derive(Debug, PartialEq, Eq, Structural, Clone, Copy)]
pub enum GuiLoginStep {
    /// Wait for `WELCOME`.
    ExpectWelcome,
    /// Send the first line again and wait for `NAME OK`.
    Retry,
    /// The client is in the room.
    Connected,
}

/// The graphical client's reading of a line during its login.
pub open spec fn gui_login_outcome(stage: GuiStage, line: Seq<char>) -> GuiLoginStep {
    match stage {
        GuiStage::AwaitNameOk => if line == "NAME OK"@ {
            GuiLoginStep::ExpectWelcome
        } else {
            GuiLoginStep::Retry
        },
        GuiStage::AwaitWelcome => if line == "WELCOME"@ {
            GuiLoginStep::Connected
        } else {
            GuiLoginStep::Retry
        },
    }
}

/// What the graphical client does with a line during its login.
pub fn gui_login_step(stage: GuiStage, line: &str) -> (r: GuiLoginStep)
    ensures
        r == gui_login_outcome(stage, line@),
{
    let v = chars_of(line);
    match stage {
        GuiStage::AwaitNameOk => if chars_are(&v, "NAME OK") {
            GuiLoginStep::ExpectWelcome
        } else {
            GuiLoginStep::Retry
        },
        GuiStage::AwaitWelcome => if chars_are(&v, "WELCOME") {
            GuiLoginStep::Connected
        } else {
            GuiLoginStep::Retry
        },
    }
}

/// A message as the graphical client sends it.
pub fn message_line(msg: &str) -> (r: String)
    ensures
        r@ == "MSG "@ + msg@,
{
    let mut out = chars_of("MSG ");
    append_chars(&mut out, &chars_of(msg));
    string_of(&out)
}

/// The text added to the chat window for `msg` at the time `stamp`: the
/// time, a space, the message and a line feed.
pub fn chat_entry_at(stamp: &str, msg: &str) -> (r: String)
    ensures
        r@ == stamp@ + " "@ + msg@ + "\n"@,
{
    let mut out = chars_of(stamp);
    append_str(&mut out, " ");
    append_chars(&mut out, &chars_of(msg));
    append_str(&mut out, "\n");
    string_of(&out)
}

/// The text added to the chat window for `msg`: the time now, a space, the
/// message and a line feed.
pub fn chat_entry(msg: &str) -> (r: String)
    ensures
        exists|stamp: Seq<char>| is_clock_stamp(stamp) && r@ == stamp + " "@ + msg@ + "\n"@,
{
    let t = get_time();
    let r = chat_entry_at(t.as_str(), msg);
    assert(is_clock_stamp(t@) && r@ == t@ + " "@ + msg@ + "\n"@);
    r
}

} // verus!
