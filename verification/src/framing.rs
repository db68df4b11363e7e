//! The echo program's line framing: its server reads a connection in small
//! chunks of bytes and handles each line, ended by a line feed, as soon as
//! it is complete; its client sends each typed line with a line feed.
use vstd::prelude::*;
use crate::text::{append_str, chars_are, chars_of, string_of};

verus! {

/// The line feed byte.
pub open spec fn line_feed() -> u8 {
    10
}

/// Reading `chunk` after the bytes `pending` of an unfinished line: the
/// lines completed, and the bytes of the line still unfinished.
pub open spec fn frame_scan(pending: Seq<u8>, chunk: Seq<u8>) -> (Seq<Seq<u8>>, Seq<u8>)
    decreases chunk.len(),
{
    if chunk.len() == 0 {
        (Seq::empty(), pending)
    } else {
        let (done, cur) = frame_scan(pending, chunk.drop_last());
        if chunk.last() == line_feed() {
            (done.push(cur), Seq::empty())
        } else {
            (done, cur.push(chunk.last()))
        }
    }
}

/// The lines put back together, each followed by its line feed.
pub open spec fn joined_lines(lines: Seq<Seq<u8>>) -> Seq<u8>
    decreases lines.len(),
{
    if lines.len() == 0 {
        Seq::empty()
    } else {
        joined_lines(lines.drop_last()) + lines.last().push(line_feed())
    }
}

/// Reading the chunks `chunks` one after another, starting with the bytes
/// `pending` of an unfinished line: all the lines completed, and the bytes
/// of the line still unfinished.
pub open spec fn frame_chunks(pending: Seq<u8>, chunks: Seq<Seq<u8>>) -> (Seq<Seq<u8>>, Seq<u8>)
    decreases chunks.len(),
{
    if chunks.len() == 0 {
        (Seq::empty(), pending)
    } else {
        let (done, rest) = frame_chunks(pending, chunks.drop_last());
        let (more, left) = frame_scan(rest, chunks.last());
        (done + more, left)
    }
}

/// The chunks put end to end.
pub open spec fn concat_chunks(chunks: Seq<Seq<u8>>) -> Seq<u8>
    decreases chunks.len(),
{
    if chunks.len() == 0 {
        Seq::empty()
    } else {
        concat_chunks(chunks.drop_last()) + chunks.last()
    }
}

/// The bytes of a connection read so far that do not yet end a line.
pub struct LineBuffer {
    pending: Vec<u8>,
}

impl View for LineBuffer {
    type V = Seq<u8>;

    closed spec fn view(&self) -> Seq<u8> {
        self.pending@
    }
}

/// The views of a list of byte lines.
pub open spec fn byte_lines_view(v: Seq<Vec<u8>>) -> Seq<Seq<u8>> {
    v.map_values(|l: Vec<u8>| l@)
}

impl LineBuffer {
    /// Nothing read yet.
    pub fn new() -> (r: LineBuffer)
        ensures
            r@ == Seq::<u8>::empty(),
    {
        LineBuffer { pending: Vec::new() }
    }

    /// Reads the bytes `chunk` and returns the lines it completes, without
    /// their line feeds, in order.
    pub fn feed(&mut self, chunk: &[u8]) -> (lines: Vec<Vec<u8>>)
        ensures
            (byte_lines_view(lines@), final(self)@) == frame_scan(old(self)@, chunk@),
    {
        let ghost start = self.pending@;
        let mut done: Vec<Vec<u8>> = Vec::new();
        let mut i: usize = 0;
        while i < chunk.len()
            invariant
                i <= chunk@.len(),
                frame_scan(start, chunk@.take(i as int)) == (byte_lines_view(done@), self.pending@),
            decreases chunk@.len() - i,
        {
            assert(chunk@.take(i + 1).drop_last() == chunk@.take(i as int));
            let b = chunk[i];
            if b == 10 {
                let mut line = Vec::new();
                std::mem::swap(&mut line, &mut self.pending);
                let ghost before = done@;
                done.push(line);
                assert(byte_lines_view(done@) == byte_lines_view(before).push(line@));
            } else {
                self.pending.push(b);
            }
            i += 1;
        }
        assert(chunk@.take(chunk@.len() as int) == chunk@);
        done
    }
}

/// What the echo program's client does with a typed line.
#[derive(Debug, PartialEq, Eq)]
pub enum EchoInput {
    /// `quit` or `exit`: say goodbye and stop.
    Leave,
    /// Send these bytes.
    Send(String),
}

/// The echo program's client leaves on `quit` and `exit`, and sends any other
/// line followed by a line feed.
pub open spec fn echo_input(line: Seq<char>) -> Option<Seq<char>> {
    if line == "quit"@ || line == "exit"@ {
        None
    } else {
        Some(line + "\n"@)
    }
}

/// What the echo program's client does with a typed line.
pub fn echo_input_for(line: &str) -> (r: EchoInput)
    ensures
        r matches EchoInput::Send(s) ==> echo_input(line@) == Some(s@),
        r is Leave ==> echo_input(line@) is None,
{
    let v = chars_of(line);
    if chars_are(&v, "quit") || chars_are(&v, "exit") {
        EchoInput::Leave
    } else {
        let mut out = v;
        append_str(&mut out, "\n");
        EchoInput::Send(string_of(&out))
    }
}

} // verus!
