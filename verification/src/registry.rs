//! The server's table of connected users: who is in the room, under which
//! name, and which lines each of them receives when someone joins, speaks,
//! asks for the list of users, or leaves.
//!
//! Each connection is known by a number that the server gives it; members
//! are kept in a vector, in the order in which they joined.  The lines that
//! go out for one event (a `JOIN`, a message, a `LOGOUT`) and the names in
//! `LIST CLIENTS` follow that order, so every contract below can say exactly
//! which lines are produced and in what order; a hash map keyed by the
//! connection number would walk its members in an order seeded anew in each
//! process, which no contract can pin down.
use vstd::prelude::*;
use crate::text::{
    append_chars, append_str, byte_len, chars_are, chars_equal, chars_of, decimal, push_decimal,
    spaced, string_of, utf8_len,
};

verus! {

/// One line to write to the connection numbered `to`.
#[derive(Debug, PartialEq, Eq)]
pub struct Delivery {
    pub to: u64,
    pub line: String,
}

impl View for Delivery {
    type V = (u64, Seq<char>);

    open spec fn view(&self) -> (u64, Seq<char>) {
        (self.to, self.line@)
    }
}

/// The connected users: connection number and user name, in order of arrival.
pub struct Registry {
    members: Vec<(u64, Vec<char>)>,
}

/// The views of a list of deliveries.
pub open spec fn deliveries_view(d: Seq<Delivery>) -> Seq<(u64, Seq<char>)> {
    d.map_values(|x: Delivery| x@)
}

/// No two members share a connection number.
pub open spec fn distinct_ids(v: Seq<(u64, Seq<char>)>) -> bool {
    forall|i: int, j: int| 0 <= i < j < v.len() ==> #[trigger] v[i].0 != #[trigger] v[j].0
}

/// Some member has connection number `id`.
pub open spec fn has_member(v: Seq<(u64, Seq<char>)>, id: u64) -> bool {
    exists|i: int| 0 <= i < v.len() && #[trigger] v[i].0 == id
}

/// A position of connection `id` in the table, when it is a member.
pub open spec fn member_index(v: Seq<(u64, Seq<char>)>, id: u64) -> int {
    choose|i: int| 0 <= i < v.len() && #[trigger] v[i].0 == id
}

/// The name of the member with connection number `id`, or the empty name
/// when there is none.
pub open spec fn name_of(v: Seq<(u64, Seq<char>)>, id: u64) -> Seq<char> {
    if has_member(v, id) {
        v[member_index(v, id)].1
    } else {
        Seq::empty()
    }
}

/// Some member goes by `name`.
pub open spec fn name_in_use(v: Seq<(u64, Seq<char>)>, name: Seq<char>) -> bool {
    exists|i: int| 0 <= i < v.len() && #[trigger] v[i].1 == name
}

/// `v` where connection `id` is known as `name`: its entry is renamed in
/// place when it is there, else it is added at the end.
pub open spec fn with_member(v: Seq<(u64, Seq<char>)>, id: u64, name: Seq<char>) -> Seq<
    (u64, Seq<char>),
> {
    if has_member(v, id) {
        v.update(member_index(v, id), (id, name))
    } else {
        v.push((id, name))
    }
}

/// `v` without the entry of connection `id`.
pub open spec fn without_member(v: Seq<(u64, Seq<char>)>, id: u64) -> Seq<(u64, Seq<char>)> {
    v.filter(|m: (u64, Seq<char>)| m.0 != id)
}

/// A line that starts with the four characters `MSG ` is a chat message.
pub open spec fn is_chat_line(msg: Seq<char>) -> bool {
    msg.len() >= 4 && msg.take(4) == "MSG "@
}

/// The first four bytes of the UTF-8 encoding of `msg` end on a character
/// boundary: the server's test for `MSG ` reads exactly those bytes, and
/// cannot do so otherwise.
pub open spec fn splits_at_four(msg: Seq<char>) -> bool {
    exists|k: int| 0 <= k <= msg.len() && #[trigger] byte_len(msg.take(k)) == 4
}

/// What the members receive when `msg` is distributed on behalf of a user
/// called `sender`: a chat message is prefixed with `FROM <sender> `, any
/// other line goes out as it is.
pub open spec fn outgoing_line(msg: Seq<char>, sender: Seq<char>) -> Seq<char> {
    if is_chat_line(msg) {
        "FROM "@ + sender + " "@ + msg
    } else {
        msg
    }
}

/// One delivery of `line` to each member, in order, leaving out connection
/// `from` unless `everyone` is set.
pub open spec fn fan_out(v: Seq<(u64, Seq<char>)>, line: Seq<char>, from: u64, everyone: bool) -> Seq<
    (u64, Seq<char>),
>
    decreases v.len(),
{
    if v.len() == 0 {
        Seq::empty()
    } else {
        let rest = fan_out(v.drop_last(), line, from, everyone);
        if everyone || v.last().0 != from {
            rest.push((v.last().0, line))
        } else {
            rest
        }
    }
}

/// The deliveries when the line `msg` comes from connection `from`.
pub open spec fn distribution(v: Seq<(u64, Seq<char>)>, msg: Seq<char>, from: u64, everyone: bool) -> Seq<
    (u64, Seq<char>),
> {
    fan_out(v, outgoing_line(msg, name_of(v, from)), from, everyone)
}

/// The names of the members other than connection `to`, in order.
pub open spec fn other_names(v: Seq<(u64, Seq<char>)>, to: u64) -> Seq<Seq<char>>
    decreases v.len(),
{
    if v.len() == 0 {
        Seq::empty()
    } else {
        let rest = other_names(v.drop_last(), to);
        if v.last().0 != to {
            rest.push(v.last().1)
        } else {
            rest
        }
    }
}

/// The answer to `REQ CLIENTS` from connection `to`: `LIST CLIENTS`, the
/// number of the other members, and their names, each after a space; none
/// when `to` is not a member.
pub open spec fn client_list(v: Seq<(u64, Seq<char>)>, to: u64) -> Option<Seq<char>> {
    if has_member(v, to) {
        Some("LIST CLIENTS "@ + decimal(other_names(v, to).len()) + spaced(other_names(v, to)))
    } else {
        None
    }
}

/// No two members share a name.
pub open spec fn distinct_names(v: Seq<(u64, Seq<char>)>) -> bool {
    forall|i: int, j: int| 0 <= i < j < v.len() ==> #[trigger] v[i].1 != #[trigger] v[j].1
}

/// The line announcing that `name` joined.
pub open spec fn join_line(name: Seq<char>) -> Seq<char> {
    "JOIN "@ + name
}

/// The line announcing that `name` left.
pub open spec fn logout_line(name: Seq<char>) -> Seq<char> {
    "LOGOUT "@ + name
}

proof fn lemma_byte_len_at_least_len(s: Seq<char>)
    ensures
        byte_len(s) >= s.len(),
    decreases s.len(),
{
    if s.len() > 0 {
        lemma_byte_len_at_least_len(s.drop_last());
    }
}

proof fn lemma_name_of_at(v: Seq<(u64, Seq<char>)>, i: int)
    requires
        distinct_ids(v),
        0 <= i < v.len(),
    ensures
        has_member(v, v[i].0),
        name_of(v, v[i].0) == v[i].1,
{
    let id = v[i].0;
    assert(has_member(v, id));
    let j = member_index(v, id);
    if j != i {
        if i < j {
            assert(v[i].0 != v[j].0);
        } else {
            assert(v[j].0 != v[i].0);
        }
    }
}

impl View for Registry {
    type V = Seq<(u64, Seq<char>)>;

    closed spec fn view(&self) -> Seq<(u64, Seq<char>)> {
        self.members@.map_values(|m: (u64, Vec<char>)| (m.0, m.1@))
    }
}

impl Registry {
    /// The table is well formed: no connection number and no name occurs
    /// twice.  Every table is: this is the type's invariant.
    #[verifier::type_invariant]
    pub open spec fn wf(&self) -> bool {
        distinct_ids(self@) && distinct_names(self@)
    }

    /// An empty room.
    pub fn new() -> (r: Registry)
        ensures
            r.wf(),
            r@ == Seq::<(u64, Seq<char>)>::empty(),
    {
        let r = Registry { members: Vec::new() };
        assert(r@ =~= Seq::<(u64, Seq<char>)>::empty());
        r
    }

    /// Number of members.
    pub fn len(&self) -> (n: usize)
        ensures
            n == self@.len(),
    {
        self.members.len()
    }

    /// Position of connection `id` in the table, if it is a member.
    fn position(&self, id: u64) -> (r: Option<usize>)
        requires
            self.wf(),
        ensures
            r is None ==> !has_member(self@, id),
            r matches Some(i) ==> i < self@.len() && self@[i as int].0 == id,
    {
        let mut i: usize = 0;
        while i < self.members.len()
            invariant
                i <= self.members.len(),
                self@.len() == self.members@.len(),
                forall|j: int| 0 <= j < i ==> #[trigger] self@[j].0 != id,
            decreases self.members.len() - i,
        {
            assert(self@[i as int].0 == self.members@[i as int].0);
            if self.members[i].0 == id {
                return Some(i);
            }
            i += 1;
        }
        None
    }

    /// Whether some member already goes by `name` (compared exactly).
    pub fn name_taken(&self, name: &str) -> (r: bool)
        ensures
            r == name_in_use(self@, name@),
    {
        let target = chars_of(name);
        let mut i: usize = 0;
        while i < self.members.len()
            invariant
                i <= self.members.len(),
                target@ == name@,
                self@.len() == self.members@.len(),
                forall|j: int| 0 <= j < i ==> #[trigger] self@[j].1 != name@,
            decreases self.members.len() - i,
        {
            assert(self@[i as int].1 == self.members@[i as int].1@);
            if chars_equal(&self.members[i].1, &target) {
                return true;
            }
            i += 1;
        }
        false
    }

    /// The name of connection `id`, or the empty name.
    fn name_chars(&self, id: u64) -> (r: Vec<char>)
        requires
            self.wf(),
        ensures
            r@ == name_of(self@, id),
    {
        match self.position(id) {
            Some(i) => {
                proof {
                    lemma_name_of_at(self@, i as int);
                }
                assert(self@[i as int].1 == self.members@[i as int].1@);
                self.members[i].1.clone()
            },
            None => Vec::new(),
        }
    }

    /// The deliveries of `line` to the members, leaving out `from` unless
    /// `everyone` is set.
    fn fan_out_line(&self, line: &Vec<char>, from: u64, everyone: bool) -> (r: Vec<Delivery>)
        ensures
            deliveries_view(r@) == fan_out(self@, line@, from, everyone),
    {
        let mut r: Vec<Delivery> = Vec::new();
        let mut i: usize = 0;
        while i < self.members.len()
            invariant
                i <= self.members.len(),
                self@.len() == self.members@.len(),
                deliveries_view(r@) == fan_out(self@.take(i as int), line@, from, everyone),
            decreases self.members.len() - i,
        {
            let id = self.members[i].0;
            assert(self@.take(i + 1).drop_last() == self@.take(i as int));
            assert(self@[i as int].0 == id);
            if everyone || id != from {
                let ghost before = r@;
                r.push(Delivery { to: id, line: string_of(line) });
                assert(deliveries_view(r@) == deliveries_view(before).push((id, line@)));
            }
            i += 1;
        }
        assert(self@.take(self.members.len() as int) == self@);
        r
    }

    /// The lines sent when connection `from` says `msg`: one to each of the
    /// members (all of them when `everyone`, else all but `from`); a line
    /// starting with `MSG ` goes out as `FROM <name of from> <msg>`.
    pub fn deliveries(&self, msg: &str, from: u64, everyone: bool) -> (r: Vec<Delivery>)
        requires
            splits_at_four(msg@),
        ensures
            deliveries_view(r@) == distribution(self@, msg@, from, everyone),
    {
        proof {
            use_type_invariant(self);
        }
        let m = chars_of(msg);
        let sender = self.name_chars(from);
        let line = outgoing_chars(&m, &sender);
        self.fan_out_line(&line, from, everyone)
    }

    /// Adds connection `id` under `name` (renaming it if it was there), and
    /// announces `JOIN <name>` to every other member; a name that some member
    /// already uses is refused and the table is left as it is.
    pub fn enroll(&mut self, id: u64, name: &str) -> (r: Option<Vec<Delivery>>)
        ensures
            final(self).wf(),
            r is Some <==> !name_in_use(old(self)@, name@),
            r is None ==> final(self)@ == old(self)@,
            r matches Some(d) ==> final(self)@ == with_member(old(self)@, id, name@)
                && deliveries_view(d@) == fan_out(final(self)@, join_line(name@), id, false),
    {
        proof {
            use_type_invariant(&*self);
        }
        if self.name_taken(name) {
            return None;
        }
        let n = chars_of(name);
        let ghost v0 = self@;
        let pos = self.position(id);
        let mut members = Vec::new();
        std::mem::swap(&mut members, &mut self.members);
        assert(members@.map_values(|m: (u64, Vec<char>)| (m.0, m.1@)) == v0);
        match pos {
            Some(i) => {
                proof {
                    lemma_name_of_at(v0, i as int);
                    let j = member_index(v0, id);
                    if j != i {
                        if i < j {
                            assert(v0[i as int].0 != v0[j].0);
                        } else {
                            assert(v0[j].0 != v0[i as int].0);
                        }
                    }
                }
                members.set(i, (id, n));
            },
            None => {
                members.push((id, n));
            },
        }
        let ghost w = members@.map_values(|m: (u64, Vec<char>)| (m.0, m.1@));
        proof {
            match pos {
                Some(i) => {
                    assert(w =~= v0.update(i as int, (id, name@)));
                },
                None => {
                    assert(w =~= v0.push((id, name@)));
                },
            }
        }
        assert(distinct_names(w)) by {
            assert forall|a: int, b: int| 0 <= a < b < w.len() implies #[trigger] w[a].1
                != #[trigger] w[b].1 by {
                if w[a].1 == name@ {
                    if a < v0.len() && w[a] == v0[a] {
                        assert(name_in_use(v0, name@));
                    }
                }
                if w[b].1 == name@ {
                    if b < v0.len() && w[b] == v0[b] {
                        assert(name_in_use(v0, name@));
                    }
                }
                if a < v0.len() && b < v0.len() && w[a] == v0[a] && w[b] == v0[b] {
                    assert(v0[a].1 != v0[b].1);
                }
            }
        }
        assert(distinct_ids(w)) by {
            assert forall|a: int, b: int| 0 <= a < b < w.len() implies #[trigger] w[a].0
                != #[trigger] w[b].0 by {
                if a < v0.len() && b < v0.len() {
                    if w[a].0 == id {
                        assert(v0[a].0 == id || w[a] == (id, name@));
                    }
                    if w[a] != v0[a] || w[b] != v0[b] {
                        assert(w[a].0 != w[b].0 || v0[a].0 != v0[b].0);
                    }
                }
            }
        }
        self.members = members;
        assert(self@ == w);
        let mut line = chars_of("JOIN ");
        append_chars(&mut line, &chars_of(name));
        Some(self.fan_out_line(&line, id, false))
    }

    /// Removes connection `id` and announces `LOGOUT <name>` to every
    /// remaining member.
    pub fn remove(&mut self, id: u64, name: &str) -> (r: Vec<Delivery>)
        ensures
            final(self).wf(),
            final(self)@ == without_member(old(self)@, id),
            deliveries_view(r@) == fan_out(final(self)@, logout_line(name@), id, true),
    {
        proof {
            use_type_invariant(&*self);
        }
        let ghost v0 = self@;
        let mut kept: Vec<(u64, Vec<char>)> = Vec::new();
        let mut old_members = Vec::new();
        std::mem::swap(&mut old_members, &mut self.members);
        let ghost om = old_members@;
        assert(om.map_values(|m: (u64, Vec<char>)| (m.0, m.1@)) == v0);
        let mut i: usize = 0;
        let len = old_members.len();
        let ghost mut src: Seq<int> = Seq::empty();
        while i < len
            invariant
                i <= len,
                len == old_members@.len(),
                old_members@ == om,
                om.map_values(|m: (u64, Vec<char>)| (m.0, m.1@)) == v0,
                kept@.map_values(|m: (u64, Vec<char>)| (m.0, m.1@)) == without_member(
                    v0.take(i as int),
                    id,
                ),
                distinct_ids(v0),
                src.len() == kept@.len(),
                forall|a: int| 0 <= a < src.len() ==> 0 <= #[trigger] src[a] < i,
                forall|a: int, b: int| 0 <= a < b < src.len() ==> #[trigger] src[a] < #[trigger] src[b],
                forall|a: int| 0 <= a < src.len() ==> #[trigger] kept@[a].0 == v0[src[a]].0,
                forall|a: int| 0 <= a < src.len() ==> #[trigger] kept@[a].1@ == v0[src[a]].1,
                distinct_names(v0),
            decreases len - i,
        {
            let ghost before = kept@;
            assert(v0.take(i + 1) == v0.take(i as int).push(v0[i as int]));
            proof {
                reveal_with_fuel(Seq::filter, 1);
                assert(v0.take(i + 1).drop_last() == v0.take(i as int));
            }
            let m_id = old_members[i].0;
            if m_id != id {
                let nm = old_members[i].1.clone();
                kept.push((m_id, nm));
                proof {
                    src = src.push(i as int);
                }
                assert(kept@.map_values(|m: (u64, Vec<char>)| (m.0, m.1@)) == before.map_values(
                    |m: (u64, Vec<char>)| (m.0, m.1@),
                ).push(v0[i as int]));
            } else {
                assert(kept@ == before);
            }
            i += 1;
        }
        assert(v0.take(len as int) == v0);
        proof {
            let w = without_member(v0, id);
            assert forall|a: int, b: int| 0 <= a < b < w.len() implies #[trigger] w[a].0
                != #[trigger] w[b].0 by {
                assert(w[a].0 == kept@[a].0);
                assert(w[b].0 == kept@[b].0);
                assert(src[a] < src[b]);
                assert(v0[src[a]].0 != v0[src[b]].0);
            }
            assert forall|a: int, b: int| 0 <= a < b < w.len() implies #[trigger] w[a].1
                != #[trigger] w[b].1 by {
                assert(w[a].1 == kept@[a].1@);
                assert(w[b].1 == kept@[b].1@);
                assert(src[a] < src[b]);
                assert(v0[src[a]].1 != v0[src[b]].1);
            }
        }
        self.members = kept;
        let mut line = chars_of("LOGOUT ");
        append_chars(&mut line, &chars_of(name));
        self.fan_out_line(&line, id, true)
    }

    /// The answer to `REQ CLIENTS` from connection `to`: `LIST CLIENTS`, the
    /// number of the other members and their names; none when `to` is not a
    /// member.
    pub fn client_list(&self, to: u64) -> (r: Option<String>)
        ensures
            r matches Some(s) ==> client_list(self@, to) == Some(s@),
            r is None ==> client_list(self@, to) is None,
    {
        proof {
            use_type_invariant(self);
        }
        let mut body: Vec<char> = Vec::new();
        let mut count: usize = 0;
        let mut i: usize = 0;
        while i < self.members.len()
            invariant
                i <= self.members.len(),
                self@.len() == self.members@.len(),
                body@ == spaced(other_names(self@.take(i as int), to)),
                count == other_names(self@.take(i as int), to).len(),
                count <= i,
            decreases self.members.len() - i,
        {
            assert(self@.take(i + 1).drop_last() == self@.take(i as int));
            assert(self@[i as int] == (self.members@[i as int].0, self.members@[i as int].1@));
            if self.members[i].0 != to {
                let ghost names = other_names(self@.take(i as int), to);
                append_str(&mut body, " ");
                append_chars(&mut body, &self.members[i].1);
                assert(names.push(self@[i as int].1).drop_last() == names);
                count += 1;
            }
            i += 1;
        }
        assert(self@.take(self.members.len() as int) == self@);
        match self.position(to) {
            Some(_) => {
                let mut line = chars_of("LIST CLIENTS ");
                push_decimal(&mut line, count);
                append_chars(&mut line, &body);
                Some(string_of(&line))
            },
            None => None,
        }
    }
}

/// Whether the first four bytes of `msg` can be cut off without splitting a
/// character (the server slices them to test for `MSG `).
pub fn splits_at_four_bytes(msg: &str) -> (r: bool)
    ensures
        r == splits_at_four(msg@),
{
    let v = chars_of(msg);
    let mut k: usize = 0;
    while k <= 4 && k <= v.len()
        invariant
            v@ == msg@,
            forall|j: int| 0 <= j < k && j <= v.len() ==> #[trigger] byte_len(msg@.take(j)) != 4,
        decreases 5 - k,
    {
        let mut prefix: Vec<char> = Vec::new();
        let mut p: usize = 0;
        while p < k
            invariant
                p <= k <= v.len(),
                prefix@ == v@.take(p as int),
            decreases k - p,
        {
            prefix.push(v[p]);
            p += 1;
            assert(v@.take(p as int) == v@.take(p - 1).push(v@[p - 1]));
        }
        if utf8_len(&prefix) == 4 {
            return true;
        }
        k += 1;
    }
    proof {
        assert forall|j: int| 0 <= j <= msg@.len() implies #[trigger] byte_len(msg@.take(j)) != 4 by {
            if j > 4 {
                lemma_byte_len_at_least_len(msg@.take(j));
            }
        }
    }
    false
}

/// The line that goes out for `msg` from a user called `sender`.
fn outgoing_chars(msg: &Vec<char>, sender: &Vec<char>) -> (r: Vec<char>)
    ensures
        r@ == outgoing_line(msg@, sender@),
{
    let mut is_chat = false;
    if msg.len() >= 4 {
        let mut head: Vec<char> = Vec::new();
        head.push(msg[0]);
        head.push(msg[1]);
        head.push(msg[2]);
        head.push(msg[3]);
        assert(head@ =~= msg@.take(4));
        is_chat = chars_are(&head, "MSG ");
    }
    if is_chat {
        let mut line = chars_of("FROM ");
        append_chars(&mut line, sender);
        append_str(&mut line, " ");
        append_chars(&mut line, msg);
        line
    } else {
        msg.clone()
    }
}

} // verus!
