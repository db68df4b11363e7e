//! How the programs read their command line: one argument, a port, starts a
//! server; two, a host and a port, start a client; anything else prints the
//! usage.
use vstd::prelude::*;
use crate::text::{append_chars, append_str, chars_are, chars_of, lines_view, owned, string_of};

verus! {

/// What a program does, given its command line.
#[derive(Debug, PartialEq, Eq)]
pub enum Launch {
    /// Start a server listening on this address (or port).
    Serve(String),
    /// Connect to the server at this address.
    Connect(String),
    /// Print the usage, naming the program so.
    Usage(String),
}

/// What a program does, as values.
pub enum LaunchView {
    Serve(Seq<char>),
    Connect(Seq<char>),
    Usage(Seq<char>),
}

impl View for Launch {
    type V = LaunchView;

    open spec fn view(&self) -> LaunchView {
        match self {
            Launch::Serve(a) => LaunchView::Serve(a@),
            Launch::Connect(a) => LaunchView::Connect(a@),
            Launch::Usage(p) => LaunchView::Usage(p@),
        }
    }
}

/// `localhost` stands for `127.0.0.1`; any other host is kept.
pub open spec fn host_address(host: Seq<char>) -> Seq<char> {
    if host == "localhost"@ {
        "127.0.0.1"@
    } else {
        host
    }
}

/// The chat program: a port starts a server on every interface, a host and
/// a port start a client.
pub open spec fn launch_outcome(args: Seq<Seq<char>>) -> LaunchView {
    if args.len() == 2 {
        LaunchView::Serve("0.0.0.0:"@ + args[1])
    } else if args.len() == 3 {
        LaunchView::Connect(host_address(args[1]) + ":"@ + args[2])
    } else {
        LaunchView::Usage(args[0])
    }
}

/// The basic chat program: the port is handed on as it is,
/// and the host is not mapped.
pub open spec fn basic_launch_outcome(args: Seq<Seq<char>>) -> LaunchView {
    if args.len() == 2 {
        LaunchView::Serve(args[1])
    } else if args.len() == 3 {
        LaunchView::Connect(args[1] + ":"@ + args[2])
    } else {
        LaunchView::Usage(args[0])
    }
}

/// The echo program: the port is handed on to the server, which listens on
/// the loopback interface only; the host is mapped as in the chat
/// program.
pub open spec fn echo_launch_outcome(args: Seq<Seq<char>>) -> LaunchView {
    if args.len() == 2 {
        LaunchView::Serve(args[1])
    } else if args.len() == 3 {
        LaunchView::Connect(host_address(args[1]) + ":"@ + args[2])
    } else {
        LaunchView::Usage(args[0])
    }
}

/// `host:port`, with `localhost` mapped when `map_localhost` is set.
fn connect_address(host: &String, port: &String, map_localhost: bool) -> (r: String)
    ensures
        map_localhost ==> r@ == host_address(host@) + ":"@ + port@,
        !map_localhost ==> r@ == host@ + ":"@ + port@,
{
    let h = chars_of(host.as_str());
    let mut out = if map_localhost && chars_are(&h, "localhost") {
        chars_of("127.0.0.1")
    } else {
        h
    };
    append_str(&mut out, ":");
    append_chars(&mut out, &chars_of(port.as_str()));
    string_of(&out)
}

/// What the chat program does with its command line (the program's own
/// name first).  An empty command line is not handled (the program fails
/// on it).
pub fn launch(args: &Vec<String>) -> (r: Launch)
    requires
        args@.len() >= 1,
    ensures
        r@ == launch_outcome(lines_view(args@)),
{
    if args.len() == 2 {
        let mut a = chars_of("0.0.0.0:");
        append_chars(&mut a, &chars_of(args[1].as_str()));
        Launch::Serve(string_of(&a))
    } else if args.len() == 3 {
        Launch::Connect(connect_address(&args[1], &args[2], true))
    } else {
        Launch::Usage(owned(args[0].as_str()))
    }
}

/// What the basic chat program does with its command line.
pub fn basic_launch(args: &Vec<String>) -> (r: Launch)
    requires
        args@.len() >= 1,
    ensures
        r@ == basic_launch_outcome(lines_view(args@)),
{
    if args.len() == 2 {
        Launch::Serve(owned(args[1].as_str()))
    } else if args.len() == 3 {
        Launch::Connect(connect_address(&args[1], &args[2], false))
    } else {
        Launch::Usage(owned(args[0].as_str()))
    }
}

/// What the echo program does with its command line.
pub fn echo_launch(args: &Vec<String>) -> (r: Launch)
    requires
        args@.len() >= 1,
    ensures
        r@ == echo_launch_outcome(lines_view(args@)),
{
    if args.len() == 2 {
        Launch::Serve(owned(args[1].as_str()))
    } else if args.len() == 3 {
        Launch::Connect(connect_address(&args[1], &args[2], true))
    } else {
        Launch::Usage(owned(args[0].as_str()))
    }
}

/// The address on which the echo program's server listens for a port.
pub fn echo_listen_address(port: &str) -> (r: String)
    ensures
        r@ == "127.0.0.1:"@ + port@,
{
    let mut a = chars_of("127.0.0.1:");
    append_chars(&mut a, &chars_of(port));
    string_of(&a)
}

} // verus!
