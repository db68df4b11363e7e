//! Properties that tie the pieces of the chat together: what the client
//! sends is what the server reads, what one user types is what the others
//! are shown, what the table of users does when people come and go, and
//! how layout and framing keep every byte and word.
use vstd::prelude::*;
use crate::text::{
    byte_len, is_white, lemma_byte_len_concat, lemma_pieces_single, lemma_pieces_split, lemma_words_single, lemma_words_split, pieces, trim,
    scan_pieces, scan_words, spaced, trim_end, trim_start, words,
};
use crate::registry::{
    distinct_ids, distinct_names, distribution, fan_out, has_member, is_chat_line, member_index, name_in_use, name_of,
    outgoing_line, splits_at_four, with_member, without_member,
};
use crate::server::{
    chat_outcome, greeting_outcome, is_chat_message, is_fixed_request, is_name_char, is_username,
    naming_outcome, on_proposal,
    ChatStepView, HandshakeView,
};
use crate::registry::Registry;
use crate::client::{
    login_outcome, nickname_verdict, server_line, readable, user_command, wrap_scan, wrapped,
    CommandView, LoginStage, LoginStepView, NickProblem, ServerLineView,
};
use crate::framing::{concat_chunks, frame_chunks, frame_scan, joined_lines, line_feed};
use crate::client::is_ascii_char;
use crate::gui::{gui_login_outcome, GuiLoginStep, GuiStage};
use crate::text::{decimal, digit_char, lemma_byte_len_space, line_content};
use crate::registry::{client_list, join_line, logout_line, other_names};
use crate::gui::{dialog_address, gui_hello};
use crate::launch::{launch_outcome, LaunchView};
use crate::framing::echo_input;
use crate::client::stage_after;
use crate::client::{from_fourth, padded_name, spaces};

verus! {

// ---------------------------------------------------------------------------
// Helpers on texts
// ---------------------------------------------------------------------------
proof fn lemma_byte_len_ascii(s: Seq<char>)
    requires
        forall|i: int| 0 <= i < s.len() ==> (#[trigger] s[i] as u32) < 128,
    ensures
        byte_len(s) == s.len(),
    decreases s.len(),
{
    if s.len() > 0 {
        let init = s.drop_last();
        assert forall|i: int| 0 <= i < init.len() implies (#[trigger] init[i] as u32) < 128 by {
            assert(init[i] == s[i]);
        }
        lemma_byte_len_ascii(init);
        assert((s[s.len() - 1] as u32) < 128);
    }
}

/// A letter or digit is no white space.
proof fn lemma_name_chars_plain(n: Seq<char>)
    requires
        is_username(n),
    ensures
        forall|i: int| 0 <= i < n.len() ==> !is_white(#[trigger] n[i]) && n[i] != ' ',
{
    assert forall|i: int| 0 <= i < n.len() implies !is_white(#[trigger] n[i]) && n[i] != ' ' by {
        assert(is_name_char(n[i]));
    }
}

/// The words of a literal made of one word.
proof fn lemma_literal_word(w: Seq<char>)
    requires
        w.len() > 0,
        forall|i: int| 0 <= i < w.len() ==> (#[trigger] w[i] as u32) > 0x20 && (w[i] as u32) < 0x7f,
    ensures
        words(w) == seq![w],
        forall|i: int| 0 <= i < w.len() ==> #[trigger] w[i] != ' ',
{
    lemma_words_single(w);
}

// ---------------------------------------------------------------------------
// Texts
// ---------------------------------------------------------------------------
proof fn lemma_scan_words_clean(s: Seq<char>)
    ensures
        forall|i: int|
            0 <= i < scan_words(s).0.len() ==> (#[trigger] scan_words(s).0[i]).len() > 0,
        forall|i: int, j: int|
            0 <= i < scan_words(s).0.len() && 0 <= j < scan_words(s).0[i].len() ==> !is_white(
                #[trigger] scan_words(s).0[i][j],
            ),
        forall|j: int| 0 <= j < scan_words(s).1.len() ==> !is_white(#[trigger] scan_words(s).1[j]),
    decreases s.len(),
{
    if s.len() > 0 {
        lemma_scan_words_clean(s.drop_last());
        let (d, c) = scan_words(s.drop_last());
        let (d2, c2) = scan_words(s);
        if is_white(s.last()) {
            assert forall|i: int| 0 <= i < d2.len() implies (#[trigger] d2[i]).len() > 0 by {
                if i < d.len() {
                    assert(d2[i] == d[i]);
                }
            }
            assert forall|i: int, j: int| 0 <= i < d2.len() && 0 <= j < d2[i].len() implies !is_white(
                #[trigger] d2[i][j],
            ) by {
                if i < d.len() {
                    assert(d2[i] == d[i]);
                }
            }
        } else {
            assert forall|j: int| 0 <= j < c2.len() implies !is_white(#[trigger] c2[j]) by {
                if j < c.len() {
                    assert(c2[j] == c[j]);
                }
            }
        }
    }
}

/// Every word of a text is non-empty and holds no white space.
pub proof fn law_words_are_plain(s: Seq<char>)
    ensures
        forall|i: int| 0 <= i < words(s).len() ==> (#[trigger] words(s)[i]).len() > 0,
        forall|i: int, j: int|
            0 <= i < words(s).len() && 0 <= j < words(s)[i].len() ==> !is_white(
                #[trigger] words(s)[i][j],
            ),
{
    lemma_scan_words_clean(s);
    let (d, c) = scan_words(s);
    let w = words(s);
    assert forall|i: int| 0 <= i < w.len() implies (#[trigger] w[i]).len() > 0 by {
        if i < d.len() {
            assert(w[i] == d[i]);
        }
    }
    assert forall|i: int, j: int| 0 <= i < w.len() && 0 <= j < w[i].len() implies !is_white(
        #[trigger] w[i][j],
    ) by {
        if i < d.len() {
            assert(w[i] == d[i]);
        } else {
            assert(w[i] == c);
        }
    }
}

/// Splitting a text at single spaces and putting the parts back together
/// with single spaces gives the text back.
pub proof fn law_pieces_rejoin(s: Seq<char>)
    ensures
        rejoined(pieces(s)) == s,
    decreases s.len(),
{
    reveal_strlit(" ");
    if s.len() == 0 {
        assert(pieces(s) =~= seq![Seq::<char>::empty()]);
        assert(s =~= Seq::<char>::empty());
    } else {
        law_pieces_rejoin(s.drop_last());
        let (d, c) = scan_pieces(s.drop_last());
        let c_ = s.last();
        assert(d.push(c).drop_last() == d);
        assert(pieces(s.drop_last()) == d.push(c));
        assert(" "@ =~= seq![' ']);
        if c_ == ' ' {
            let p = d.push(c).push(Seq::<char>::empty());
            assert(pieces(s) == p);
            assert(p.drop_last() == d.push(c));
            assert(rejoined(p) == rejoined(d.push(c)) + " "@ + Seq::<char>::empty());
            assert(rejoined(d.push(c)) == s.drop_last());
            assert(s =~= s.drop_last() + seq![' '] + Seq::<char>::empty());
            assert(rejoined(p) =~= s);
        } else {
            let p = d.push(c.push(c_));
            assert(pieces(s) == p);
            assert(p.drop_last() == d);
            if d.len() == 0 {
                assert(rejoined(d.push(c)) == c);
                assert(rejoined(p) == c.push(c_));
            } else {
                assert(rejoined(d.push(c)) == rejoined(d) + " "@ + c);
                assert(rejoined(p) == rejoined(d) + " "@ + c.push(c_));
                assert(rejoined(d) + " "@ + c.push(c_) =~= (rejoined(d) + " "@ + c).push(c_));
            }
            assert(rejoined(d.push(c)) == s.drop_last());
            assert(s =~= s.drop_last().push(c_));
            assert(rejoined(p) =~= s);
        }
    }
}

// ---------------------------------------------------------------------------
// Handshake
// ---------------------------------------------------------------------------
/// The first line of the client, `PROT 0.1 CONNECT NEW`, is answered by the
/// server with `NAME REQ`, whoever is already in the room.
pub proof fn law_connect_request_asks_for_name(v: Seq<(u64, Seq<char>)>)
    ensures
        greeting_outcome(v, "PROT 0.1 CONNECT NEW"@) == HandshakeView::Continue(seq!["NAME REQ"@]),
{
    reveal_strlit("PROT 0.1 CONNECT NEW");
    reveal_strlit("PROT");
    reveal_strlit("0.1");
    reveal_strlit("CONNECT");
    reveal_strlit("NEW");
    let p = "PROT"@;
    let v1 = "0.1"@;
    let c = "CONNECT"@;
    let n = "NEW"@;
    lemma_literal_word(p);
    lemma_literal_word(v1);
    lemma_literal_word(c);
    lemma_literal_word(n);
    let tail2 = c + seq![' '] + n;
    let tail1 = v1 + seq![' '] + tail2;
    assert("PROT 0.1 CONNECT NEW"@ =~= p + seq![' '] + tail1);
    lemma_words_split(c, ' ', n);
    lemma_words_split(v1, ' ', tail2);
    lemma_words_split(p, ' ', tail1);
    let w = words("PROT 0.1 CONNECT NEW"@);
    assert(w =~= seq![p, v1, c, n]);
}

/// What the client sends for a nickname it accepts, `NAME <nick>`, reaches
/// the server as a proposal of that very nickname, which is then granted
/// exactly when nobody in the room uses it.
pub proof fn law_accepted_nickname_reaches_server(v: Seq<(u64, Seq<char>)>, entry: Seq<char>, nick: Seq<char>)
    requires
        nickname_verdict(entry) == Ok::<Seq<char>, NickProblem>(nick),
    ensures
        naming_outcome(v, "NAME "@ + nick) == on_proposal(v, nick),
        is_username(nick),
        on_proposal(v, nick) == (if name_in_use(v, nick) {
            HandshakeView::Continue(seq!["NAME FAILURE"@, "NAME REQ"@])
        } else {
            HandshakeView::Admitted(seq!["NAME OK"@], nick)
        }),
{
    lemma_name_chars_plain(nick);
    lemma_words_single(nick);
    reveal_strlit("NAME ");
    reveal_strlit("NAME");
    let kw = "NAME"@;
    lemma_literal_word(kw);
    assert("NAME "@ + nick =~= kw + seq![' '] + nick);
    lemma_words_split(kw, ' ', nick);
    assert(words("NAME "@ + nick) =~= seq![kw, nick]);
}

/// Whatever the server answers to a proposed name, the client reads it as
/// meant: `NAME OK` as granted; `NAME FAILURE` as refused, and the
/// `NAME REQ` that follows as a new request for a nickname.
pub proof fn law_client_reads_verdict(v: Seq<(u64, Seq<char>)>, name: Seq<char>)
    ensures
        on_proposal(v, name) matches HandshakeView::Admitted(lines, _) ==> login_outcome(
            LoginStage::AwaitVerdict,
            lines[0],
        ) == LoginStepView::Accepted,
        on_proposal(v, name) matches HandshakeView::Continue(lines) ==> login_outcome(
            LoginStage::AwaitVerdict,
            lines[0],
        ) == LoginStepView::Refused && login_outcome(LoginStage::AwaitNameRequest, lines[1])
            == LoginStepView::AskNick,
{
    reveal_strlit("NAME OK");
    reveal_strlit("NAME FAILURE");
    assert("NAME FAILURE"@ != "NAME OK"@) by {
        assert("NAME FAILURE"@.len() != "NAME OK"@.len());
    }
}

/// A name is granted only when it is a user name (1 to 20 letters and
/// digits) and nobody in the room uses it, on the first line as after
/// `NAME REQ`.
pub proof fn law_granted_names_are_free(v: Seq<(u64, Seq<char>)>, line: Seq<char>)
    ensures
        greeting_outcome(v, line) matches HandshakeView::Admitted(_, n) ==> is_username(n)
            && !name_in_use(v, n),
        naming_outcome(v, line) matches HandshakeView::Admitted(_, n) ==> is_username(n)
            && !name_in_use(v, n),
{
}

/// A nickname that the client lets through has 1 to 20 characters, each an
/// ASCII letter or digit, and so no white space.
pub proof fn law_client_nickname_shape(entry: Seq<char>, nick: Seq<char>)
    requires
        nickname_verdict(entry) == Ok::<Seq<char>, NickProblem>(nick),
    ensures
        1 <= nick.len() <= 20,
        forall|i: int| 0 <= i < nick.len() ==> is_name_char(#[trigger] nick[i]),
        forall|i: int| 0 <= i < nick.len() ==> !is_white(#[trigger] nick[i]),
{
    lemma_name_chars_plain(nick);
}

/// What the client sends for a typed line is either the request for the
/// list of users, `BYE`, or the line itself after `MSG `, which then holds
/// 1 to 2000 characters.
pub proof fn law_client_message_bounds(line: Seq<char>)
    ensures
        user_command(line) matches CommandView::Send(m) ==> m == "REQ CLIENTS"@ || (m == "MSG "@
            + line && 1 <= line.len() <= 2000),
        user_command(line) matches CommandView::Quit(m) ==> m == "BYE"@,
{
}

// ---------------------------------------------------------------------------
// Messages
// ---------------------------------------------------------------------------
#[verifier::spinoff_prover]
#[verifier::rlimit(40)]
/// What a user types in the room and the client sends as `MSG <line>` is
/// distributed by the server to every member, the sender included, as
/// `FROM <sender> MSG <line>`; and the client of each member reads that as
/// a message from the sender whose words are the parts of the typed line.
pub proof fn law_message_round_trip(v: Seq<(u64, Seq<char>)>, from: u64, line: Seq<char>)
    requires
        distinct_ids(v),
        user_command(line) == CommandView::Send("MSG "@ + line),
        forall|i: int| 0 <= i < name_of(v, from).len() ==> #[trigger] name_of(v, from)[i] != ' ',
    ensures
        !is_fixed_request("MSG "@ + line),
        is_chat_message("MSG "@ + line),
        chat_outcome("MSG "@ + line) == ChatStepView::Forward,
        splits_at_four("MSG "@ + line),
        distribution(v, "MSG "@ + line, from, true) == fan_out(
            v,
            "FROM "@ + name_of(v, from) + " "@ + "MSG "@ + line,
            from,
            true,
        ),
        readable("FROM "@ + name_of(v, from) + " "@ + "MSG "@ + line),
        server_line("FROM "@ + name_of(v, from) + " "@ + "MSG "@ + line) == ServerLineView::From(
            name_of(v, from),
            pieces(line),
        ),
{
    let nm = name_of(v, from);
    let m = "MSG "@ + line;
    reveal_strlit("MSG ");
    reveal_strlit("MSG");
    reveal_strlit("BYE");
    reveal_strlit("PING");
    reveal_strlit("REQ CLIENTS");
    reveal_strlit("FROM ");
    reveal_strlit("FROM");
    reveal_strlit(" ");
    reveal_strlit("BAD");
    reveal_strlit("WELCOME");
    reveal_strlit("LIST");
    let kw = "MSG"@;
    lemma_literal_word(kw);
    // The server's reading.
    assert(m[0] == 'M');
    assert(m != "BYE"@) by {
        assert("BYE"@[0] == 'B');
    }
    assert(m != "PING"@) by {
        assert("PING"@[0] == 'P');
    }
    assert(m != "REQ CLIENTS"@) by {
        assert("REQ CLIENTS"@[0] == 'R');
    }
    // The four bytes of `MSG `.
    assert(m.take(4) =~= "MSG "@);
    assert(1 <= line.len() <= 2000);
    assert(is_chat_message(m));
    assert forall|i: int| 0 <= i < m.take(4).len() implies (#[trigger] m.take(4)[i] as u32) < 128 by {
        assert(m.take(4)[i] == "MSG "@[i]);
    }
    lemma_byte_len_ascii(m.take(4));
    assert(splits_at_four(m)) by {
        assert(byte_len(m.take(4)) == 4);
    }
    // The line that goes out.
    assert(is_chat_line(m));
    let out = "FROM "@ + nm + " "@ + m;
    assert(outgoing_line(m, nm) == out);
    assert(out =~= "FROM "@ + nm + " "@ + "MSG "@ + line);
    // The client's reading.
    let f = "FROM"@;
    lemma_literal_word(f);
    lemma_pieces_single(f);
    lemma_pieces_single(kw);
    lemma_pieces_single(nm);
    let rest2 = kw + " "@ + line;
    let rest1 = nm + " "@ + rest2;
    assert(m =~= rest2);
    assert(out =~= f + " "@ + rest1);
    lemma_pieces_split(kw, line);
    lemma_pieces_split(nm, rest2);
    lemma_pieces_split(f, rest1);
    let p = pieces(out);
    assert(p =~= seq![f, nm, kw] + pieces(line));
    assert(p[0] == f);
    assert(f != "BAD"@) by {
        assert(f.len() != "BAD"@.len());
    }
    assert(f != "WELCOME"@) by {
        assert(f.len() != "WELCOME"@.len());
    }
    assert(f != "LIST"@) by {
        assert(f[0] != "LIST"@[0]);
    }
    assert(p.subrange(3, p.len() as int) =~= pieces(line));
}

// ---------------------------------------------------------------------------
// The table of users
// ---------------------------------------------------------------------------
/// Once a user has joined under a name, that name is in use.
pub proof fn law_joined_name_in_use(v: Seq<(u64, Seq<char>)>, id: u64, name: Seq<char>)
    ensures
        name_in_use(with_member(v, id, name), name),
        has_member(with_member(v, id, name), id),
{
    let w = with_member(v, id, name);
    if has_member(v, id) {
        let i = member_index(v, id);
        assert(0 <= i < v.len() && v[i].0 == id);
        assert(w == v.update(i, (id, name)));
        assert(w[i] == (id, name));
        assert(w[i].1 == name && w[i].0 == id);
    } else {
        assert(w == v.push((id, name)));
        assert(w[v.len() as int] == (id, name));
        assert(w[v.len() as int].1 == name && w[v.len() as int].0 == id);
    }
}

/// Leaving undoes joining: a connection that was not in the room joins and
/// leaves, and the room is as it was.
pub proof fn law_leave_undoes_join(v: Seq<(u64, Seq<char>)>, id: u64, name: Seq<char>)
    requires
        !has_member(v, id),
    ensures
        without_member(with_member(v, id, name), id) == v,
{
    reveal_with_fuel(Seq::filter, 1);
    let w = v.push((id, name));
    assert(w.drop_last() == v);
    assert(without_member(w, id) == without_member(v, id));
    lemma_filter_all(v, id);
}

proof fn lemma_filter_all(v: Seq<(u64, Seq<char>)>, id: u64)
    requires
        !has_member(v, id),
    ensures
        without_member(v, id) == v,
    decreases v.len(),
{
    reveal_with_fuel(Seq::filter, 1);
    if v.len() > 0 {
        let init = v.drop_last();
        assert(!has_member(init, id)) by {
            if has_member(init, id) {
                let i = choose|i: int| 0 <= i < init.len() && #[trigger] init[i].0 == id;
                assert(v[i].0 == id);
            }
        }
        lemma_filter_all(init, id);
        assert(v.last().0 != id) by {
            assert(v[v.len() - 1].0 != id);
        }
        assert(init.push(v.last()) == v);
    }
}

/// After leaving, a connection is no longer in the room.
pub proof fn law_left_member_gone(v: Seq<(u64, Seq<char>)>, id: u64)
    ensures
        !has_member(without_member(v, id), id),
{
    broadcast use vstd::seq_lib::group_filter_ensures;

    let w = without_member(v, id);
    if has_member(w, id) {
        let i = choose|i: int| 0 <= i < w.len() && #[trigger] w[i].0 == id;
        assert(w.contains(w[i]));
    }
}

/// A line is handed to every member exactly once, in the order in which they
/// joined, except to its sender when it is not meant for everyone.
pub proof fn law_fan_out_each_member_once(
    v: Seq<(u64, Seq<char>)>,
    line: Seq<char>,
    from: u64,
    everyone: bool,
)
    ensures
        fan_out(v, line, from, everyone) == v.filter(
            |m: (u64, Seq<char>)| everyone || m.0 != from,
        ).map_values(|m: (u64, Seq<char>)| (m.0, line)),
    decreases v.len(),
{
    reveal_with_fuel(Seq::filter, 1);
    let pred = |m: (u64, Seq<char>)| everyone || m.0 != from;
    let f = |m: (u64, Seq<char>)| (m.0, line);
    if v.len() == 0 {
        assert(v.filter(pred) =~= Seq::<(u64, Seq<char>)>::empty());
        assert(v.filter(pred).map_values(f) =~= Seq::<(u64, Seq<char>)>::empty());
    } else {
        law_fan_out_each_member_once(v.drop_last(), line, from, everyone);
        let fi = v.drop_last().filter(pred);
        if pred(v.last()) {
            assert(v.filter(pred) == fi.push(v.last()));
            assert(fi.push(v.last()).map_values(f) =~= fi.map_values(f).push(f(v.last())));
        } else {
            assert(v.filter(pred) == fi);
        }
    }
}

// ---------------------------------------------------------------------------
// Layout of a message
// ---------------------------------------------------------------------------
/// The lines of a wrapped message put back together with single spaces.
pub open spec fn rejoined(lines: Seq<Seq<char>>) -> Seq<char>
    decreases lines.len(),
{
    if lines.len() <= 1 {
        if lines.len() == 1 {
            lines[0]
        } else {
            Seq::empty()
        }
    } else {
        rejoined(lines.drop_last()) + " "@ + lines.last()
    }
}

proof fn lemma_rejoined_extend(done: Seq<Seq<char>>, cur: Seq<char>, word: Seq<char>)
    ensures
        rejoined(done.push(cur + " "@ + word)) == rejoined(done.push(cur)) + " "@ + word,
        rejoined(done.push(cur).push(word)) == rejoined(done.push(cur)) + " "@ + word,
{
    assert(done.push(cur + " "@ + word).drop_last() == done);
    assert(done.push(cur).drop_last() == done);
    assert(done.push(cur).push(word).drop_last() == done.push(cur));
    if done.len() == 0 {
        assert(rejoined(done.push(cur)) == cur);
        assert(rejoined(done.push(cur + " "@ + word)) == cur + " "@ + word);
    } else {
        assert(rejoined(done.push(cur + " "@ + word)) == rejoined(done) + " "@ + (cur + " "@
            + word));
        assert(rejoined(done.push(cur)) == rejoined(done) + " "@ + cur);
        assert(rejoined(done) + " "@ + (cur + " "@ + word) =~= rejoined(done) + " "@ + cur + " "@
            + word);
    }
}

/// Wrapping a message only turns some of the spaces between its words into
/// line breaks: the lines, put back together with single spaces, read as the
/// words each preceded by a space.
pub proof fn law_wrap_keeps_words(ws: Seq<Seq<char>>, width: int)
    ensures
        rejoined(wrapped(ws, width)) == spaced(ws),
    decreases ws.len(),
{
    if ws.len() == 0 {
        assert(Seq::<Seq<char>>::empty().push(Seq::<char>::empty()) =~= seq![Seq::<char>::empty()]);
    } else {
        law_wrap_keeps_words(ws.drop_last(), width);
        let (done, cur) = wrap_scan(ws.drop_last(), width);
        lemma_rejoined_extend(done, cur, ws.last());
    }
}

/// Wrapping at `width` bytes: every line is shorter than `width`, or holds
/// no space at all (a single word, or nothing), provided the words hold no
/// space themselves.
pub proof fn law_wrap_fits(ws: Seq<Seq<char>>, width: int)
    requires
        forall|i: int, j: int|
            0 <= i < ws.len() && 0 <= j < ws[i].len() ==> #[trigger] ws[i][j] != ' ',
    ensures
        forall|k: int|
            0 <= k < wrapped(ws, width).len() ==> byte_len(#[trigger] wrapped(ws, width)[k]) < width
                || !wrapped(ws, width)[k].contains(' '),
    decreases ws.len(),
{
    let w = wrapped(ws, width);
    if ws.len() == 0 {
        assert(w =~= seq![Seq::<char>::empty()]);
        assert(!Seq::<char>::empty().contains(' '));
    } else {
        let init = ws.drop_last();
        assert forall|i: int, j: int| 0 <= i < init.len() && 0 <= j < init[i].len() implies #[trigger] init[i][j]
            != ' ' by {
            assert(init[i] == ws[i]);
        }
        law_wrap_fits(init, width);
        let (done, cur) = wrap_scan(init, width);
        let word = ws.last();
        let prev = wrapped(init, width);
        assert(prev == done.push(cur));
        assert(!word.contains(' ')) by {
            if word.contains(' ') {
                let j = choose|j: int| 0 <= j < word.len() && word[j] == ' ';
                assert(ws[ws.len() - 1][j] != ' ');
            }
        }
        if width > byte_len(cur) + byte_len(word) + 1 {
            lemma_byte_len_concat(cur, " "@);
            lemma_byte_len_concat(cur + " "@, word);
            crate::text::lemma_byte_len_space();
            assert forall|k: int| 0 <= k < w.len() implies byte_len(#[trigger] w[k]) < width
                || !w[k].contains(' ') by {
                if k < done.len() {
                    assert(w[k] == prev[k]);
                }
            }
        } else {
            assert forall|k: int| 0 <= k < w.len() implies byte_len(#[trigger] w[k]) < width
                || !w[k].contains(' ') by {
                if k < prev.len() {
                    assert(w[k] == prev[k]);
                }
            }
        }
    }
}

// ---------------------------------------------------------------------------
// Framing of the echo program
// ---------------------------------------------------------------------------
/// Framing loses nothing and adds nothing: the completed lines, each
/// followed by its line feed, and then the unfinished line, are exactly the
/// unfinished line from before followed by the bytes read; no line holds a
/// line feed.
pub proof fn law_framing_keeps_bytes(pending: Seq<u8>, chunk: Seq<u8>)
    requires
        !pending.contains(line_feed()),
    ensures
        joined_lines(frame_scan(pending, chunk).0) + frame_scan(pending, chunk).1 == pending + chunk,
        forall|k: int|
            0 <= k < frame_scan(pending, chunk).0.len() ==> !(#[trigger] frame_scan(
                pending,
                chunk,
            ).0[k]).contains(line_feed()),
        !frame_scan(pending, chunk).1.contains(line_feed()),
    decreases chunk.len(),
{
    if chunk.len() == 0 {
        assert(pending + chunk == pending);
        assert(joined_lines(Seq::<Seq<u8>>::empty()) + pending == pending);
    } else {
        let init = chunk.drop_last();
        law_framing_keeps_bytes(pending, init);
        let (done, cur) = frame_scan(pending, init);
        let b = chunk.last();
        assert(chunk == init.push(b));
        assert(pending + chunk =~= (pending + init).push(b));
        if b == line_feed() {
            let d2 = done.push(cur);
            assert(d2.drop_last() == done);
            assert(joined_lines(d2) == joined_lines(done) + cur.push(line_feed()));
            assert(joined_lines(d2) + Seq::<u8>::empty() =~= (joined_lines(done) + cur).push(b));
            assert forall|k: int| 0 <= k < d2.len() implies !(#[trigger] d2[k]).contains(
                line_feed(),
            ) by {
                if k < done.len() {
                    assert(d2[k] == done[k]);
                }
            }
            assert(!Seq::<u8>::empty().contains(line_feed()));
        } else {
            assert(joined_lines(done) + cur.push(b) =~= (joined_lines(done) + cur).push(b));
            assert(!cur.push(b).contains(line_feed())) by {
                if cur.push(b).contains(line_feed()) {
                    let j = choose|j: int| 0 <= j < cur.push(b).len() && cur.push(b)[j] == line_feed();
                    if j < cur.len() {
                        assert(cur[j] == line_feed());
                    }
                }
            }
        }
    }
}

proof fn lemma_frame_scan_concat(p: Seq<u8>, a: Seq<u8>, b: Seq<u8>)
    ensures
        frame_scan(p, a + b) == (frame_scan(p, a).0 + frame_scan(frame_scan(p, a).1, b).0, frame_scan(
            frame_scan(p, a).1,
            b,
        ).1),
    decreases b.len(),
{
    let (d, q) = frame_scan(p, a);
    if b.len() == 0 {
        assert(a + b == a);
        assert(d + Seq::<Seq<u8>>::empty() == d);
    } else {
        lemma_frame_scan_concat(p, a, b.drop_last());
        assert((a + b).drop_last() == a + b.drop_last());
        assert((a + b).last() == b.last());
        let (db, cb) = frame_scan(q, b.drop_last());
        assert((d + db).push(cb) == d + db.push(cb));
    }
}

/// Framing does not depend on how the bytes are cut into reads: reading
/// the chunks one after another completes the same lines, and leaves the
/// same unfinished line, as reading all their bytes at once.
pub proof fn law_framing_any_split(pending: Seq<u8>, chunks: Seq<Seq<u8>>)
    ensures
        frame_chunks(pending, chunks) == frame_scan(pending, concat_chunks(chunks)),
    decreases chunks.len(),
{
    if chunks.len() == 0 {
        assert(frame_scan(pending, Seq::<u8>::empty()) == (Seq::<Seq<u8>>::empty(), pending));
    } else {
        law_framing_any_split(pending, chunks.drop_last());
        lemma_frame_scan_concat(pending, concat_chunks(chunks.drop_last()), chunks.last());
    }
}

// ---------------------------------------------------------------------------
// Names in the room
// ---------------------------------------------------------------------------
/// Joining under a name that nobody uses keeps every name in the room
/// distinct (and every connection number too).
pub proof fn law_join_keeps_names_apart(v: Seq<(u64, Seq<char>)>, id: u64, name: Seq<char>)
    requires
        distinct_ids(v),
        distinct_names(v),
        !name_in_use(v, name),
    ensures
        distinct_ids(with_member(v, id, name)),
        distinct_names(with_member(v, id, name)),
{
    let w = with_member(v, id, name);
    if has_member(v, id) {
        let k = member_index(v, id);
        assert(0 <= k < v.len() && v[k].0 == id);
        assert(w == v.update(k, (id, name)));
        assert forall|a: int, b: int| 0 <= a < b < w.len() implies #[trigger] w[a].0 != #[trigger] w[b].0 by {
            if a != k && b != k {
                assert(v[a].0 != v[b].0);
            } else if a == k {
                assert(v[k].0 != v[b].0);
            } else {
                assert(v[a].0 != v[k].0);
            }
        }
        assert forall|a: int, b: int| 0 <= a < b < w.len() implies #[trigger] w[a].1 != #[trigger] w[b].1 by {
            if a != k && b != k {
                assert(v[a].1 != v[b].1);
            } else if a == k {
                assert(v[b].1 != name);
            } else {
                assert(v[a].1 != name);
            }
        }
    } else {
        assert(w == v.push((id, name)));
        assert forall|a: int, b: int| 0 <= a < b < w.len() implies #[trigger] w[a].0 != #[trigger] w[b].0 by {
            if b < v.len() {
                assert(v[a].0 != v[b].0);
            } else {
                assert(w[a] == v[a]);
            }
        }
        assert forall|a: int, b: int| 0 <= a < b < w.len() implies #[trigger] w[a].1 != #[trigger] w[b].1 by {
            if b < v.len() {
                assert(v[a].1 != v[b].1);
            } else {
                assert(w[a] == v[a]);
            }
        }
    }
}

/// Two members of the room never share a name: the table is only built by
/// `Registry::new` and changed by `enroll` (which refuses a name in use) and
/// `remove`, all of which keep it well formed.
pub proof fn law_no_shared_names(r: Registry)
    requires
        r.wf(),
    ensures
        forall|i: int, j: int| 0 <= i < j < r@.len() ==> #[trigger] r@[i].1 != #[trigger] r@[j].1,
{
}


// ---------------------------------------------------------------------------
// A name proposed on the first line
// ---------------------------------------------------------------------------
/// A user name (1 to 20 ASCII letters and digits, of any length in that
/// range) proposed on the first line, `PROT 0.1 CONNECT USER <name>`, is
/// granted with `NAME OK` exactly when nobody in the room uses it, and
/// otherwise refused with `NAME FAILURE` followed by a new `NAME REQ`.
pub proof fn law_name_proposed_on_first_line(v: Seq<(u64, Seq<char>)>, n: Seq<char>)
    requires
        is_username(n),
    ensures
        greeting_outcome(v, "PROT 0.1 CONNECT USER "@ + n) == (if name_in_use(v, n) {
            HandshakeView::Continue(seq!["NAME FAILURE"@, "NAME REQ"@])
        } else {
            HandshakeView::Admitted(seq!["NAME OK"@], n)
        }),
{
    reveal_strlit("PROT 0.1 CONNECT USER ");
    reveal_strlit("PROT");
    reveal_strlit("0.1");
    reveal_strlit("CONNECT");
    reveal_strlit("USER");
    let p = "PROT"@;
    let v1 = "0.1"@;
    let c = "CONNECT"@;
    let u = "USER"@;
    lemma_literal_word(p);
    lemma_literal_word(v1);
    lemma_literal_word(c);
    lemma_literal_word(u);
    lemma_name_chars_plain(n);
    lemma_words_single(n);
    let tail3 = u + seq![' '] + n;
    let tail2 = c + seq![' '] + tail3;
    let tail1 = v1 + seq![' '] + tail2;
    assert("PROT 0.1 CONNECT USER "@ + n =~= p + seq![' '] + tail1);
    lemma_words_split(u, ' ', n);
    lemma_words_split(c, ' ', tail3);
    lemma_words_split(v1, ' ', tail2);
    lemma_words_split(p, ' ', tail1);
    let w = words("PROT 0.1 CONNECT USER "@ + n);
    assert(w =~= seq![p, v1, c, u, n]);
}

// ---------------------------------------------------------------------------
// Nicknames the client accepts
// ---------------------------------------------------------------------------
/// The client accepts a typed nickname exactly when, once trimmed, it is a
/// user name (1 to 20 ASCII letters and digits, in any order), and then
/// sends the trimmed entry itself.
pub proof fn law_nickname_accepted_iff_username(entry: Seq<char>)
    ensures
        nickname_verdict(entry) is Ok <==> is_username(trim(entry)),
        is_username(trim(entry)) ==> nickname_verdict(entry) == Ok::<Seq<char>, NickProblem>(
            trim(entry),
        ),
{
    let n = trim(entry);
    if is_username(n) {
        lemma_name_chars_plain(n);
        assert forall|i: int| 0 <= i < n.len() implies is_ascii_char(#[trigger] n[i]) by {
            assert(is_name_char(n[i]));
        }
    }
}

// ---------------------------------------------------------------------------
// How the clients read the verdict on their name
// ---------------------------------------------------------------------------
/// The graphical client goes on to wait for `WELCOME` only after `NAME OK`;
/// any other line, `NAME FAILURE` among them, makes it send its first line
/// again.  It is in the room only after `WELCOME`.
pub proof fn law_gui_waits_for_name_ok(line: Seq<char>)
    ensures
        (gui_login_outcome(GuiStage::AwaitNameOk, line) == GuiLoginStep::ExpectWelcome) <==> line
            == "NAME OK"@,
        gui_login_outcome(GuiStage::AwaitNameOk, line) != GuiLoginStep::Connected,
        (gui_login_outcome(GuiStage::AwaitWelcome, line) == GuiLoginStep::Connected) <==> line
            == "WELCOME"@,
        gui_login_outcome(GuiStage::AwaitWelcome, line) != GuiLoginStep::ExpectWelcome,
{
}

/// Whatever the server answers to a proposed name, the graphical client
/// reads it as meant: a granted name leads it to wait for `WELCOME`, a
/// refused one to propose again.
pub proof fn law_gui_reads_verdict(v: Seq<(u64, Seq<char>)>, name: Seq<char>)
    ensures
        on_proposal(v, name) matches HandshakeView::Admitted(lines, _) ==> gui_login_outcome(
            GuiStage::AwaitNameOk,
            lines[0],
        ) == GuiLoginStep::ExpectWelcome,
        on_proposal(v, name) matches HandshakeView::Continue(lines) ==> gui_login_outcome(
            GuiStage::AwaitNameOk,
            lines[0],
        ) == GuiLoginStep::Retry,
{
    reveal_strlit("NAME OK");
    reveal_strlit("NAME FAILURE");
    assert("NAME FAILURE"@ != "NAME OK"@) by {
        assert("NAME FAILURE"@.len() != "NAME OK"@.len());
    }
}

/// The terminal client takes a name as granted only on `NAME OK`, as
/// refused only on `NAME FAILURE`, and asks the user for a nickname only on
/// `NAME REQ`.
pub proof fn law_client_verdict_lines(answer: Seq<char>)
    ensures
        (login_outcome(LoginStage::AwaitVerdict, answer) == LoginStepView::Accepted) <==> answer
            == "NAME OK"@,
        (login_outcome(LoginStage::AwaitVerdict, answer) == LoginStepView::Refused) <==> answer
            == "NAME FAILURE"@,
        (login_outcome(LoginStage::AwaitNameRequest, answer) == LoginStepView::AskNick) <==> answer
            == "NAME REQ"@,
{
    reveal_strlit("NAME OK");
    reveal_strlit("NAME FAILURE");
    assert("NAME FAILURE"@ != "NAME OK"@) by {
        assert("NAME FAILURE"@.len() != "NAME OK"@.len());
    }
}

// ---------------------------------------------------------------------------
// Wrapping is greedy
// ---------------------------------------------------------------------------
/// The text of `s` before its first space (all of `s` when it has none).
pub open spec fn first_part(s: Seq<char>) -> Seq<char>
    decreases s.len(),
{
    if s.len() == 0 || s[0] == ' ' {
        Seq::empty()
    } else {
        seq![s[0]] + first_part(s.drop_first())
    }
}

proof fn lemma_first_part_plain(s: Seq<char>)
    requires
        forall|i: int| 0 <= i < s.len() ==> #[trigger] s[i] != ' ',
    ensures
        first_part(s) == s,
    decreases s.len(),
{
    if s.len() > 0 {
        let t = s.drop_first();
        assert forall|i: int| 0 <= i < t.len() implies #[trigger] t[i] != ' ' by {
            assert(t[i] == s[i + 1]);
        }
        lemma_first_part_plain(t);
        assert(seq![s[0]] + t =~= s);
    }
}

/// Appending a space and more text after `a` leaves its first part as it
/// was.
proof fn lemma_first_part_extend(a: Seq<char>, b: Seq<char>)
    ensures
        first_part(a + " "@ + b) == first_part(a),
    decreases a.len(),
{
    reveal_strlit(" ");
    if a.len() == 0 {
        assert((a + " "@ + b)[0] == ' ');
    } else if a[0] == ' ' {
        assert((a + " "@ + b)[0] == ' ');
    } else {
        let t = a.drop_first();
        lemma_first_part_extend(t, b);
        assert((a + " "@ + b).drop_first() =~= t + " "@ + b);
        assert((a + " "@ + b)[0] == a[0]);
    }
}

/// In the lines of a scan, each line but the last was closed because the
/// first word of the next one did not fit after it.
pub open spec fn closed_when_full(lines: Seq<Seq<char>>, width: int) -> bool {
    forall|k: int|
        0 <= k < lines.len() - 1 ==> byte_len(#[trigger] lines[k]) + 1 + byte_len(
            first_part(lines[k + 1]),
        ) >= width
}

/// Wrapping is greedy: a line is closed only when the next word does not
/// fit on it, that is when the line, a space and the first word of the next
/// line would reach `width` bytes (the words holding no space themselves).
pub proof fn law_wrap_is_greedy(ws: Seq<Seq<char>>, width: int)
    requires
        forall|i: int, j: int|
            0 <= i < ws.len() && 0 <= j < ws[i].len() ==> #[trigger] ws[i][j] != ' ',
    ensures
        forall|k: int|
            0 <= k < wrapped(ws, width).len() - 1 ==> byte_len(#[trigger] wrapped(ws, width)[k])
                + 1 + byte_len(first_part(wrapped(ws, width)[k + 1])) >= width,
    decreases ws.len(),
{
    let w = wrapped(ws, width);
    if ws.len() > 0 {
        let init = ws.drop_last();
        assert forall|i: int, j: int| 0 <= i < init.len() && 0 <= j < init[i].len() implies #[trigger] init[i][j]
            != ' ' by {
            assert(init[i] == ws[i]);
        }
        law_wrap_is_greedy(init, width);
        let (done, cur) = wrap_scan(init, width);
        let word = ws.last();
        let prev = done.push(cur);
        assert(prev == wrapped(init, width));
        assert forall|j: int| 0 <= j < word.len() implies #[trigger] word[j] != ' ' by {
            assert(ws[ws.len() - 1][j] != ' ');
        }
        if width > byte_len(cur) + byte_len(word) + 1 {
            assert(w == done.push(cur + " "@ + word));
            lemma_first_part_extend(cur, word);
            assert forall|k: int| 0 <= k < w.len() - 1 implies byte_len(#[trigger] w[k]) + 1
                + byte_len(first_part(w[k + 1])) >= width by {
                assert(w[k] == prev[k]);
                if k + 1 < done.len() {
                    assert(w[k + 1] == prev[k + 1]);
                } else {
                    assert(w[k + 1] == cur + " "@ + word);
                    assert(prev[k + 1] == cur);
                }
            }
        } else {
            assert(w == prev.push(word));
            lemma_first_part_plain(word);
            assert forall|k: int| 0 <= k < w.len() - 1 implies byte_len(#[trigger] w[k]) + 1
                + byte_len(first_part(w[k + 1])) >= width by {
                assert(w[k] == prev[k]);
                if k + 1 < prev.len() {
                    assert(w[k + 1] == prev[k + 1]);
                }
            }
        }
    }
}

/// A message whose words, each after a space, take fewer than `width`
/// bytes is laid out on a single line.
pub proof fn law_short_message_one_line(ws: Seq<Seq<char>>, width: int)
    requires
        byte_len(spaced(ws)) < width,
    ensures
        wrapped(ws, width) == seq![spaced(ws)],
    decreases ws.len(),
{
    if ws.len() == 0 {
        assert(Seq::<Seq<char>>::empty().push(Seq::<char>::empty()) =~= seq![
            Seq::<char>::empty(),
        ]);
    } else {
        let init = ws.drop_last();
        lemma_byte_len_concat(spaced(init), " "@);
        lemma_byte_len_concat(spaced(init) + " "@, ws.last());
        lemma_byte_len_space();
        law_short_message_one_line(init, width);
        let (done, cur) = wrap_scan(init, width);
        assert(done.push(cur) == seq![spaced(init)]);
        assert(done.push(cur).len() == 1);
        assert(done.len() == 0);
        assert(done.push(cur)[0] == cur);
        assert(cur == spaced(init));
    }
}

// ---------------------------------------------------------------------------
// Decimal numbers
// ---------------------------------------------------------------------------
/// The number that a text of decimal digits denotes, read from left to
/// right: each digit counts for the value of its character code less 48.
pub open spec fn digits_value(s: Seq<char>) -> int
    decreases s.len(),
{
    if s.len() == 0 {
        0
    } else {
        digits_value(s.drop_last()) * 10 + ((s.last() as u32) - 48)
    }
}

/// The digit for `d` below ten is the character of code 48 + `d`.
pub proof fn law_digit_char_code(d: nat)
    requires
        d < 10,
    ensures
        digit_char(d) as u32 == 48 + d,
{
    let ds = seq!['0', '1', '2', '3', '4', '5', '6', '7', '8', '9'];
    assert(ds[0] == '0' && ds[1] == '1' && ds[2] == '2' && ds[3] == '3' && ds[4] == '4');
    assert(ds[5] == '5' && ds[6] == '6' && ds[7] == '7' && ds[8] == '8' && ds[9] == '9');
}

/// The decimal writing of `n` (as in the count of `LIST CLIENTS`) is made of
/// digits only, has no leading zero, and reads back as `n`.
pub proof fn law_decimal_reads_back(n: nat)
    ensures
        decimal(n).len() >= 1,
        forall|i: int| 0 <= i < decimal(n).len() ==> 48 <= (#[trigger] decimal(n)[i] as u32) <= 57,
        decimal(n)[0] == '0' ==> n == 0,
        digits_value(decimal(n)) == n,
    decreases n,
{
    if n < 10 {
        law_digit_char_code(n);
        let s = seq![digit_char(n)];
        assert(s.drop_last() =~= Seq::<char>::empty());
        assert(digits_value(Seq::<char>::empty()) == 0);
        assert(digits_value(s) == digits_value(s.drop_last()) * 10 + ((s.last() as u32) - 48));
        assert(decimal(n) == s);
    } else {
        let q = n / 10;
        let r = n % 10;
        law_decimal_reads_back(q);
        law_digit_char_code(r);
        let s = decimal(q).push(digit_char(r));
        assert(s.drop_last() =~= decimal(q));
        assert(s[0] == decimal(q)[0]);
        assert forall|i: int| 0 <= i < s.len() implies 48 <= (#[trigger] s[i] as u32) <= 57 by {
            if i < decimal(q).len() {
                assert(s[i] == decimal(q)[i]);
            }
        }
        assert(n == q * 10 + r);
        assert(decimal(n) == s);
        assert(digits_value(s) == digits_value(s.drop_last()) * 10 + ((s.last() as u32) - 48));
        assert(s.last() == digit_char(r));
    }
}


// ---------------------------------------------------------------------------
// The server's answers in the room
// ---------------------------------------------------------------------------
/// In the room the server ends the session on `BYE` alone, answers `PONG`
/// to `PING` alone, the list of users to `REQ CLIENTS` alone, distributes
/// exactly the lines `MSG <message>` whose message holds 1 to 2000
/// characters, and answers `BAD REQ` to every other line.
pub proof fn law_chat_answers(input: Seq<char>)
    ensures
        (chat_outcome(input) == ChatStepView::Leave("BYE"@)) <==> input == "BYE"@,
        (chat_outcome(input) == ChatStepView::Reply("PONG"@)) <==> input == "PING"@,
        (chat_outcome(input) == ChatStepView::ListClients) <==> input == "REQ CLIENTS"@,
        (chat_outcome(input) == ChatStepView::Forward) <==> (input.len() >= 4 && input.take(4)
            == "MSG "@ && 1 <= input.len() - 4 <= 2000),
        chat_outcome(input) is Leave || chat_outcome(input) is ListClients || chat_outcome(input)
            is Forward || chat_outcome(input) == ChatStepView::Reply("PONG"@) || chat_outcome(input)
            == ChatStepView::Reply("BAD REQ"@),
{
    reveal_strlit("BYE");
    reveal_strlit("PING");
    reveal_strlit("REQ CLIENTS");
    reveal_strlit("MSG ");
    reveal_strlit("PONG");
    reveal_strlit("BAD REQ");
    assert("PONG"@ != "BAD REQ"@) by {
        assert("PONG"@.len() != "BAD REQ"@.len());
    }
    assert("BYE"@.len() == 3 && "PING"@.len() == 4 && "REQ CLIENTS"@.len() == 11);
    if input == "REQ CLIENTS"@ {
        assert(input.take(4)[0] == 'R');
        assert("MSG "@[0] == 'M');
    }
}

// ---------------------------------------------------------------------------
// What the client reads of what the server writes
// ---------------------------------------------------------------------------
proof fn lemma_pieces_keyword_name(kw: Seq<char>, n: Seq<char>)
    requires
        forall|i: int| 0 <= i < kw.len() ==> #[trigger] kw[i] != ' ',
        forall|i: int| 0 <= i < n.len() ==> #[trigger] n[i] != ' ',
    ensures
        pieces(kw + " "@ + n) == seq![kw, n],
{
    crate::text::lemma_pieces_split(kw, n);
    lemma_pieces_single(kw);
    lemma_pieces_single(n);
    assert(seq![kw] + seq![n] =~= seq![kw, n]);
}

/// The announcements `JOIN <name>` and `LOGOUT <name>` of a name without
/// spaces are read by the client as the arrival and the departure of that
/// very name.
pub proof fn law_arrivals_read_back(n: Seq<char>)
    requires
        forall|i: int| 0 <= i < n.len() ==> #[trigger] n[i] != ' ',
    ensures
        readable(join_line(n)),
        server_line(join_line(n)) == ServerLineView::Join(n),
        readable(logout_line(n)),
        server_line(logout_line(n)) == ServerLineView::Logout(n),
{
    reveal_strlit("JOIN ");
    reveal_strlit("JOIN");
    reveal_strlit("LOGOUT ");
    reveal_strlit("LOGOUT");
    reveal_strlit("BAD");
    reveal_strlit("WELCOME");
    reveal_strlit("FROM");
    reveal_strlit("BYE");
    reveal_strlit("LIST");
    reveal_strlit(" ");
    let j = "JOIN"@;
    let l = "LOGOUT"@;
    assert("JOIN "@ + n =~= j + " "@ + n);
    assert("LOGOUT "@ + n =~= l + " "@ + n);
    assert forall|i: int| 0 <= i < j.len() implies #[trigger] j[i] != ' ' by {}
    assert forall|i: int| 0 <= i < l.len() implies #[trigger] l[i] != ' ' by {}
    lemma_pieces_keyword_name(j, n);
    lemma_pieces_keyword_name(l, n);
    assert(j != "BAD"@ && j != "WELCOME"@ && j != "FROM"@ && j != "BYE"@ && j != "LIST"@) by {
        assert(j[0] == 'J');
        assert("BAD"@[0] == 'B' && "WELCOME"@[0] == 'W' && "FROM"@[0] == 'F');
        assert("BYE"@[0] == 'B' && "LIST"@[0] == 'L');
    }
    assert(l != "BAD"@ && l != "WELCOME"@ && l != "FROM"@ && l != "BYE"@ && l != "LIST"@
        && l != "JOIN"@) by {
        assert(l.len() == 6);
        assert("BAD"@.len() == 3 && "WELCOME"@.len() == 7 && "FROM"@.len() == 4);
        assert("BYE"@.len() == 3 && "LIST"@.len() == 4 && "JOIN"@.len() == 4);
    }
}

/// The parts of a text followed by words each after a space: those of the
/// text, then the words (which hold no space).
proof fn lemma_pieces_then_spaced(a: Seq<char>, ns: Seq<Seq<char>>)
    requires
        forall|i: int, j: int| 0 <= i < ns.len() && 0 <= j < ns[i].len() ==> #[trigger] ns[i][j]
            != ' ',
    ensures
        pieces(a + spaced(ns)) == pieces(a) + ns,
    decreases ns.len(),
{
    if ns.len() == 0 {
        assert(a + spaced(ns) =~= a);
        assert(pieces(a) + ns =~= pieces(a));
    } else {
        let init = ns.drop_last();
        assert forall|i: int, j: int| 0 <= i < init.len() && 0 <= j < init[i].len() implies #[trigger] init[i][j]
            != ' ' by {
            assert(init[i] == ns[i]);
        }
        lemma_pieces_then_spaced(a, init);
        let last = ns.last();
        assert forall|j: int| 0 <= j < last.len() implies #[trigger] last[j] != ' ' by {
            assert(ns[ns.len() - 1][j] != ' ');
        }
        assert(a + spaced(ns) =~= (a + spaced(init)) + " "@ + last);
        crate::text::lemma_pieces_split(a + spaced(init), last);
        lemma_pieces_single(last);
        assert(pieces(a) + init + seq![last] =~= pieces(a) + ns);
    }
}

proof fn lemma_other_names_plain(v: Seq<(u64, Seq<char>)>, to: u64)
    requires
        forall|i: int, j: int| 0 <= i < v.len() && 0 <= j < v[i].1.len() ==> #[trigger] v[i].1[j]
            != ' ',
    ensures
        forall|i: int, j: int|
            0 <= i < other_names(v, to).len() && 0 <= j < other_names(v, to)[i].len()
                ==> #[trigger] other_names(v, to)[i][j] != ' ',
    decreases v.len(),
{
    if v.len() > 0 {
        let init = v.drop_last();
        assert forall|i: int, j: int| 0 <= i < init.len() && 0 <= j < init[i].1.len() implies #[trigger] init[i].1[j]
            != ' ' by {
            assert(init[i] == v[i]);
        }
        lemma_other_names_plain(init, to);
        let r = other_names(init, to);
        let o = other_names(v, to);
        assert forall|i: int, j: int| 0 <= i < o.len() && 0 <= j < o[i].len() implies #[trigger] o[i][j]
            != ' ' by {
            if i < r.len() {
                assert(o[i] == r[i]);
                assert(r[i][j] != ' ');
            } else {
                assert(o[i] == v[v.len() - 1].1);
                assert(v[v.len() - 1].1[j] != ' ');
            }
        }
    }
}

/// The names of the members other than `to`, in the order they joined.
pub open spec fn others_in_order(v: Seq<(u64, Seq<char>)>, to: u64) -> Seq<Seq<char>> {
    v.filter(|m: (u64, Seq<char>)| m.0 != to).map_values(|m: (u64, Seq<char>)| m.1)
}

proof fn lemma_other_names_filter(v: Seq<(u64, Seq<char>)>, to: u64)
    ensures
        other_names(v, to) == others_in_order(v, to),
    decreases v.len(),
{
    reveal_with_fuel(Seq::filter, 1);
    let pred = |m: (u64, Seq<char>)| m.0 != to;
    let f = |m: (u64, Seq<char>)| m.1;
    if v.len() == 0 {
        assert(v.filter(pred) =~= Seq::<(u64, Seq<char>)>::empty());
        assert(others_in_order(v, to) =~= Seq::<Seq<char>>::empty());
    } else {
        lemma_other_names_filter(v.drop_last(), to);
        let fi = v.drop_last().filter(pred);
        if pred(v.last()) {
            assert(v.filter(pred) == fi.push(v.last()));
            assert(fi.push(v.last()).map_values(f) =~= fi.map_values(f).push(f(v.last())));
        } else {
            assert(v.filter(pred) == fi);
        }
    }
}

/// The answer to `REQ CLIENTS` from a member: `LIST CLIENTS`, then the
/// number of the other members written in decimal (so that it reads back
/// as that number), then the names of the other members in the order they
/// joined, each after a space; a connection that is not a member gets
/// nothing.  When the names hold no space, the client reads that line back
/// as the count and exactly those names.
pub proof fn law_list_of_others(v: Seq<(u64, Seq<char>)>, to: u64)
    ensures
        client_list(v, to) is Some <==> has_member(v, to),
        has_member(v, to) ==> client_list(v, to) == Some(
            "LIST CLIENTS "@ + decimal(others_in_order(v, to).len()) + spaced(
                others_in_order(v, to),
            ),
        ),
        digits_value(decimal(others_in_order(v, to).len())) == others_in_order(v, to).len(),
        (has_member(v, to) && forall|i: int, j: int|
            0 <= i < v.len() && 0 <= j < v[i].1.len() ==> #[trigger] v[i].1[j] != ' ')
            ==> readable(client_list(v, to).unwrap()) && server_line(client_list(v, to).unwrap())
            == ServerLineView::List(
            decimal(others_in_order(v, to).len()),
            others_in_order(v, to),
        ),
{
    lemma_other_names_filter(v, to);
    let ns = others_in_order(v, to);
    let k = ns.len();
    law_decimal_reads_back(k);
    if has_member(v, to) && forall|i: int, j: int|
        0 <= i < v.len() && 0 <= j < v[i].1.len() ==> #[trigger] v[i].1[j] != ' ' {
        lemma_other_names_plain(v, to);
        reveal_strlit("LIST CLIENTS ");
        reveal_strlit("LIST");
        reveal_strlit("CLIENTS");
        reveal_strlit("BAD");
        reveal_strlit("WELCOME");
        reveal_strlit("FROM");
        reveal_strlit("BYE");
        let d = decimal(k);
        assert forall|j: int| 0 <= j < d.len() implies #[trigger] d[j] != ' ' by {
            assert(48 <= (d[j] as u32));
        }
        let l = "LIST"@;
        let c = "CLIENTS"@;
        assert forall|j: int| 0 <= j < l.len() implies #[trigger] l[j] != ' ' by {}
        assert forall|j: int| 0 <= j < c.len() implies #[trigger] c[j] != ' ' by {}
        reveal_strlit(" ");
        let head = l + " "@ + (c + " "@ + d);
        assert("LIST CLIENTS "@ + d =~= head);
        crate::text::lemma_pieces_split(l, c + " "@ + d);
        lemma_pieces_keyword_name(c, d);
        lemma_pieces_single(l);
        assert(pieces(head) =~= seq![l, c, d]);
        lemma_pieces_then_spaced(head, ns);
        let p = pieces("LIST CLIENTS "@ + d + spaced(ns));
        assert(p =~= seq![l, c, d] + ns);
        assert(p[0] == l && p[2] == d);
        assert(l != "BAD"@ && l != "WELCOME"@ && l != "FROM"@ && l != "BYE"@) by {
            assert(l[0] == 'L' && l.len() == 4);
            assert("BAD"@.len() == 3 && "WELCOME"@.len() == 7 && "FROM"@[0] == 'F');
            assert("BYE"@.len() == 3);
        }
        assert(from_fourth(p) =~= ns) by {
            if p.len() > 3 {
                assert(p.subrange(3, p.len() as int) =~= ns);
            }
        }
    }
}

// ---------------------------------------------------------------------------
// Reading lines
// ---------------------------------------------------------------------------
/// A line read from a connection loses exactly its ending: `\r\n` or a bare
/// `\n` (and a line without an ending is kept whole).
pub proof fn law_line_ending_dropped(s: Seq<char>)
    ensures
        line_content(s + seq!['\r', '\n']) == s,
        (s.len() == 0 || s.last() != '\r') ==> line_content(s.push('\n')) == s,
        (s.len() == 0 || (s.last() != '\r' && s.last() != '\n')) ==> line_content(s) == s,
{
    assert((s + seq!['\r', '\n']).drop_last() =~= s.push('\r'));
    assert(s.push('\r').drop_last() =~= s);
    assert(s.push('\n').drop_last() =~= s);
}

// ---------------------------------------------------------------------------
// The graphical client's first line
// ---------------------------------------------------------------------------
/// The graphical client's first line is answered by the server as the
/// protocol says: without a nickname with `NAME REQ`; with a user name as
/// nickname by granting it when it is free and refusing it otherwise.
pub proof fn law_gui_hello_reaches_server(v: Seq<(u64, Seq<char>)>, nick: Seq<char>)
    ensures
        nick.len() == 0 ==> greeting_outcome(v, gui_hello(nick)) == HandshakeView::Continue(
            seq!["NAME REQ"@],
        ),
        is_username(nick) ==> greeting_outcome(v, gui_hello(nick)) == (if name_in_use(v, nick) {
            HandshakeView::Continue(seq!["NAME FAILURE"@, "NAME REQ"@])
        } else {
            HandshakeView::Admitted(seq!["NAME OK"@], nick)
        }),
{
    law_connect_request_asks_for_name(v);
    if is_username(nick) {
        law_name_proposed_on_first_line(v, nick);
    }
}

// ---------------------------------------------------------------------------
// Lines typed in the room
// ---------------------------------------------------------------------------
/// Every typed line of 1 to 2000 characters that is not a command is sent
/// as `MSG <line>`; a longer one is not sent.
pub proof fn law_typed_messages_sent(line: Seq<char>)
    ensures
        (1 <= line.len() <= 2000 && line != "/quit"@ && line != "/clients"@) ==> user_command(
            line,
        ) == CommandView::Send("MSG "@ + line),
        line.len() > 2000 ==> user_command(line) == CommandView::TooLong,
        user_command("/quit"@) == CommandView::Quit("BYE"@),
        user_command("/clients"@) == CommandView::Send("REQ CLIENTS"@),
{
    reveal_strlit("/quit");
    reveal_strlit("/clients");
    if line.len() > 2000 {
        assert(line != "/quit"@ && line != "/clients"@) by {
            assert(line.len() != "/quit"@.len() && line.len() != "/clients"@.len());
        }
    }
}

// ---------------------------------------------------------------------------
// The sender's name in front of a message
// ---------------------------------------------------------------------------
proof fn lemma_spaces_bytes(k: nat)
    ensures
        byte_len(spaces(k)) == k,
    decreases k,
{
    if k > 0 {
        lemma_spaces_bytes((k - 1) as nat);
        assert(spaces(k).drop_last() =~= spaces((k - 1) as nat));
        assert(spaces(k).last() == ' ');
        assert((' ' as u32) == 32);
    }
}

/// The sender's name in front of a message takes 22 bytes for every name
/// of up to 20 bytes: spaces, then the name between `<` and `>`.
pub proof fn law_padded_name_width(name: Seq<char>)
    requires
        byte_len(name) <= 20,
    ensures
        byte_len(padded_name(name)) == 22,
        padded_name(name) == spaces((20 - byte_len(name)) as nat) + "<"@ + name + ">"@,
        forall|i: int| 0 <= i < 20 - byte_len(name) ==> #[trigger] padded_name(name)[i] == ' ',
{
    let k = (20 - byte_len(name)) as nat;
    reveal_strlit("<");
    reveal_strlit(">");
    lemma_spaces_bytes(k);
    lemma_byte_len_concat(spaces(k), "<"@);
    lemma_byte_len_concat(spaces(k) + "<"@, name);
    lemma_byte_len_concat(spaces(k) + "<"@ + name, ">"@);
    assert(byte_len("<"@) == 1) by {
        assert("<"@ =~= seq!['<']);
        assert(seq!['<'].drop_last() =~= Seq::<char>::empty());
        assert(('<' as u32) == 60);
        assert(byte_len(seq!['<']) == byte_len(seq!['<'].drop_last()) + crate::text::char_width('<'));
    }
    assert(byte_len(">"@) == 1) by {
        assert(">"@ =~= seq!['>']);
        assert(seq!['>'].drop_last() =~= Seq::<char>::empty());
        assert(('>' as u32) == 62);
        assert(byte_len(seq!['>']) == byte_len(seq!['>'].drop_last()) + crate::text::char_width('>'));
    }
    assert forall|i: int| 0 <= i < k implies #[trigger] padded_name(name)[i] == ' ' by {
        assert(padded_name(name)[i] == spaces(k)[i]);
    }
}


// ---------------------------------------------------------------------------
// Refusals during the handshake
// ---------------------------------------------------------------------------
/// The server's answer to the first line of a connection: `NAME REQ` alone
/// exactly for `PROT 0.1 CONNECT NEW`; a name granted only when the line is
/// `PROT 0.1 CONNECT USER <that name>`; `BAD PROT` exactly for a `PROT` line
/// of four or five words with another version; and any refusal is `BAD
/// PROT` or `BAD REQ`.
pub proof fn law_first_line_answers(v: Seq<(u64, Seq<char>)>, line: Seq<char>)
    ensures
        (greeting_outcome(v, line) == HandshakeView::Continue(seq!["NAME REQ"@])) <==> words(line)
            == seq!["PROT"@, "0.1"@, "CONNECT"@, "NEW"@],
        greeting_outcome(v, line) matches HandshakeView::Admitted(_, n) ==> words(line) == seq![
            "PROT"@,
            "0.1"@,
            "CONNECT"@,
            "USER"@,
            n,
        ],
        (greeting_outcome(v, line) == HandshakeView::Refused("BAD PROT"@)) <==> ((words(line).len()
            == 4 || words(line).len() == 5) && words(line)[0] == "PROT"@ && words(line)[1]
            != "0.1"@),
        greeting_outcome(v, line) matches HandshakeView::Refused(r) ==> r == "BAD PROT"@ || r
            == "BAD REQ"@,
{
    reveal_strlit("BAD PROT");
    reveal_strlit("BAD REQ");
    assert("BAD PROT"@ != "BAD REQ"@) by {
        assert("BAD PROT"@.len() != "BAD REQ"@.len());
    }
    let w = words(line);
    if w =~= seq!["PROT"@, "0.1"@, "CONNECT"@, "NEW"@] {
        assert(w.len() == 4 && w[0] == "PROT"@ && w[1] == "0.1"@ && w[2] == "CONNECT"@ && w[3]
            == "NEW"@);
    }
    if greeting_outcome(v, line) == HandshakeView::Continue(seq!["NAME REQ"@]) {
        assert(seq!["NAME REQ"@].len() != seq!["NAME FAILURE"@, "NAME REQ"@].len());
        assert(w.len() == 4);
        assert(w =~= seq!["PROT"@, "0.1"@, "CONNECT"@, "NEW"@]);
    }
    if greeting_outcome(v, line) is Admitted {
        assert(w.len() == 5);
        assert(w =~= seq!["PROT"@, "0.1"@, "CONNECT"@, "USER"@, w[4]]);
    }
}

/// After `NAME REQ` the server reads only `NAME <name>`: any other line is
/// refused with `BAD REQ`, and a name is granted only when the line is
/// `NAME <that name>`.
pub proof fn law_name_line_answers(v: Seq<(u64, Seq<char>)>, line: Seq<char>)
    ensures
        (naming_outcome(v, line) == HandshakeView::Refused("BAD REQ"@)) <==> !(words(line).len()
            == 2 && words(line)[0] == "NAME"@),
        naming_outcome(v, line) matches HandshakeView::Admitted(_, n) ==> words(line) == seq![
            "NAME"@,
            n,
        ],
{
    let w = words(line);
    if naming_outcome(v, line) is Admitted {
        assert(w =~= seq!["NAME"@, w[1]]);
    }
}

/// The terminal client follows the server through a refused name: the
/// refusal `NAME FAILURE` makes it wait for `NAME REQ`, which the server
/// sends right after and which makes it ask the user for another nickname,
/// which it then waits to see judged.
pub proof fn law_client_follows_refusal(v: Seq<(u64, Seq<char>)>, name: Seq<char>)
    requires
        name_in_use(v, name) || !is_username(name),
    ensures
        on_proposal(v, name) == HandshakeView::Continue(seq!["NAME FAILURE"@, "NAME REQ"@]),
        stage_after(login_outcome(LoginStage::AwaitVerdict, "NAME FAILURE"@)) == Some(
            LoginStage::AwaitNameRequest,
        ),
        login_outcome(LoginStage::AwaitNameRequest, "NAME REQ"@) == LoginStepView::AskNick,
        stage_after(LoginStepView::AskNick) == Some(LoginStage::AwaitVerdict),
        stage_after(login_outcome(LoginStage::AwaitVerdict, "NAME OK"@)) is None,
{
    reveal_strlit("NAME OK");
    reveal_strlit("NAME FAILURE");
    assert("NAME FAILURE"@ != "NAME OK"@) by {
        assert("NAME FAILURE"@.len() != "NAME OK"@.len());
    }
}

// ---------------------------------------------------------------------------
// Addresses
// ---------------------------------------------------------------------------
/// The chat program's command line: a port alone serves on every
/// interface at that port; a host and a port connect there, `localhost`
/// meaning `127.0.0.1`; anything else prints the usage under the
/// program's name.
pub proof fn law_chat_command_line(program: Seq<char>, host: Seq<char>, port: Seq<char>)
    ensures
        launch_outcome(seq![program, port]) == LaunchView::Serve("0.0.0.0:"@ + port),
        launch_outcome(seq![program, host, port]) == LaunchView::Connect(
            (if host == "localhost"@ {
                "127.0.0.1"@
            } else {
                host
            }) + ":"@ + port,
        ),
        launch_outcome(seq![program]) == LaunchView::Usage(program),
        launch_outcome(seq![program, host, port, port]) == LaunchView::Usage(program),
{
}

/// The graphical client's login dialog: no host gives no address; a host
/// gives `host:port`, the port being 2222 when none is typed.
pub proof fn law_dialog_address(host: Seq<char>, port: Seq<char>)
    ensures
        host.len() == 0 ==> dialog_address(host, port).len() == 0,
        (host.len() > 0 && port.len() > 0) ==> dialog_address(host, port) == host + ":"@ + port,
        host.len() > 0 ==> dialog_address(host, Seq::empty()) == host + ":2222"@,
{
    reveal_strlit(":");
    reveal_strlit("2222");
    reveal_strlit(":2222");
    assert(host + ":"@ + "2222"@ =~= host + ":2222"@);
}

/// The echo program's client stops on `quit` and `exit` alone, and sends
/// every other line followed by one line feed.
pub proof fn law_echo_input(line: Seq<char>)
    ensures
        echo_input(line) is None <==> (line == "quit"@ || line == "exit"@),
        echo_input(line) matches Some(b) ==> b == line.push('\n'),
{
    reveal_strlit("\n");
    assert(line + "\n"@ =~= line.push('\n'));
}

} // verus!
