//! The connection registry and the per-line dispatch rules.
//!
//! The registry maps each live connection id to its optional identity.  One
//! received line either updates the registry (a login), produces an error
//! reply for the sender (a parse failure), produces a broadcast to every
//! other identified connection (a chat message from an identified sender), or
//! does nothing at all (an inert command, or a message from a connection that
//! never logged in).

use vstd::prelude::*;
use vstd::string::StringExecFns;

use crate::commands::parse_spec;
use crate::commands::uuid_ok;
use crate::commands::Command;
use crate::commands::ParsedCommand;
use crate::error::error_text;
use crate::error::Error;

verus! {

/// The identity a record holds, as an optional character sequence.
pub open spec fn opt_view(o: Option<String>) -> Option<Seq<char>> {
    match o {
        Some(s) => Some(s@),
        None => None,
    }
}

/// The mapping an entry sequence stands for: the last entry with a given id
/// wins, though a well-formed registry never holds an id twice.
pub open spec fn entries_map(s: Seq<(u64, Option<String>)>) -> Map<u64, Option<Seq<char>>>
    decreases s.len(),
{
    if s.len() == 0 {
        Map::empty()
    } else {
        entries_map(s.drop_last()).insert(s.last().0, opt_view(s.last().1))
    }
}

/// No connection id occurs twice.
pub open spec fn unique_ids(s: Seq<(u64, Option<String>)>) -> bool {
    forall|i: int, j: int| 0 <= i < j < s.len() ==> s[i].0 != s[j].0
}

proof fn lemma_entries_map_push(s: Seq<(u64, Option<String>)>, e: (u64, Option<String>))
    ensures
        entries_map(s.push(e)) == entries_map(s).insert(e.0, opt_view(e.1)),
{
    assert(s.push(e).drop_last() =~= s);
    assert(s.push(e).last() == e);
}

proof fn lemma_entries_map_contains(s: Seq<(u64, Option<String>)>)
    ensures
        forall|id: u64| #[trigger]
            entries_map(s).contains_key(id) <==> exists|k: int| 0 <= k < s.len() && s[k].0 == id,
    decreases s.len(),
{
    if s.len() > 0 {
        lemma_entries_map_contains(s.drop_last());
        let m0 = entries_map(s.drop_last());
        let m = entries_map(s);
        assert forall|id: u64| #[trigger]
            m.contains_key(id) <==> (exists|k: int| 0 <= k < s.len() && s[k].0 == id) by {
            if m.contains_key(id) {
                if id == s.last().0 {
                    assert(s[s.len() - 1].0 == id);
                } else {
                    assert(m0.contains_key(id));
                    let k = choose|k: int| 0 <= k < s.drop_last().len() && s.drop_last()[k].0 == id;
                    assert(s[k].0 == id);
                }
            }
            if exists|k: int| 0 <= k < s.len() && s[k].0 == id {
                let k = choose|k: int| 0 <= k < s.len() && s[k].0 == id;
                if k == s.len() - 1 {
                    assert(m.contains_key(id));
                } else {
                    assert(s.drop_last()[k].0 == id);
                    assert(m0.contains_key(id));
                    assert(m.contains_key(id));
                }
            }
        }
    }
}

proof fn lemma_entries_map_index(s: Seq<(u64, Option<String>)>)
    requires
        unique_ids(s),
    ensures
        forall|k: int|
            0 <= k < s.len() ==> entries_map(s).contains_key(#[trigger] s[k].0) && entries_map(
                s,
            )[s[k].0] == opt_view(s[k].1),
    decreases s.len(),
{
    if s.len() > 0 {
        assert forall|i: int, j: int| 0 <= i < j < s.drop_last().len() implies s.drop_last()[i].0
            != s.drop_last()[j].0 by {
            assert(s.drop_last()[i] == s[i] && s.drop_last()[j] == s[j]);
        }
        lemma_entries_map_index(s.drop_last());
        assert forall|k: int|
            0 <= k < s.len() implies entries_map(s).contains_key(#[trigger] s[k].0) && entries_map(
            s,
        )[s[k].0] == opt_view(s[k].1) by {
            if k < s.len() - 1 {
                assert(s.drop_last()[k] == s[k]);
                assert(s[k].0 != s.last().0);
            }
        }
    }
}

proof fn lemma_entries_map_remove(s: Seq<(u64, Option<String>)>, k: int)
    requires
        unique_ids(s),
        0 <= k < s.len(),
    ensures
        entries_map(s.remove(k)) == entries_map(s).remove(s[k].0),
    decreases s.len(),
{
    lemma_entries_map_contains(s.drop_last());
    if k == s.len() - 1 {
        assert(s.remove(k) =~= s.drop_last());
        assert(forall|j: int| 0 <= j < s.drop_last().len() ==> s.drop_last()[j].0 != s[k].0);
        assert(!entries_map(s.drop_last()).contains_key(s[k].0));
        assert(entries_map(s.drop_last()).insert(s.last().0, opt_view(s.last().1)).remove(s[k].0)
            =~= entries_map(s.drop_last()));
    } else {
        assert forall|i: int, j: int| 0 <= i < j < s.drop_last().len() implies s.drop_last()[i].0
            != s.drop_last()[j].0 by {
            assert(s.drop_last()[i] == s[i] && s.drop_last()[j] == s[j]);
        }
        assert(s.drop_last()[k] == s[k]);
        lemma_entries_map_remove(s.drop_last(), k);
        assert(s.remove(k).drop_last() =~= s.drop_last().remove(k));
        assert(s.remove(k).last() == s.last());
        assert(s.last().0 != s[k].0);
        assert(entries_map(s.drop_last()).remove(s[k].0).insert(s.last().0, opt_view(s.last().1))
            =~= entries_map(s.drop_last()).insert(s.last().0, opt_view(s.last().1)).remove(
            s[k].0,
        ));
    }
}

/// Removing one entry keeps the remaining ids unique, and none of them is
/// the removed entry's id.
proof fn lemma_unique_ids_remove(s: Seq<(u64, Option<String>)>, k: int)
    requires
        unique_ids(s),
        0 <= k < s.len(),
    ensures
        unique_ids(s.remove(k)),
        forall|j: int| 0 <= j < s.remove(k).len() ==> (#[trigger] s.remove(k)[j]).0 != s[k].0,
{
    assert forall|i: int, j: int|
        0 <= i < j < s.remove(k).len() implies s.remove(k)[i].0 != s.remove(k)[j].0 by {
        let (a, b) = (if i < k { i } else { i + 1 }, if j < k { j } else { j + 1 });
        assert(s.remove(k)[i] == s[a] && s.remove(k)[j] == s[b]);
    }
    assert forall|j: int| 0 <= j < s.remove(k).len() implies (#[trigger] s.remove(k)[j]).0
        != s[k].0 by {
        let a = if j < k { j } else { j + 1 };
        assert(s.remove(k)[j] == s[a]);
    }
}

/// One line a broadcast will write to one peer connection.
pub struct Delivery {
    pub to: u64,
    pub line: String,
}

/// What handling one received line asks the caller to do on the wire.
pub enum Outcome {
    /// Nothing to send: a login, an inert command, or a gated message.
    Silent,
    /// A parse failure: report this text back to the offending connection.
    Reply(String),
    /// A chat message: write the line to each listed peer connection.
    Deliver(Vec<Delivery>),
}

/// The line a peer sees for a chat message: `<identity>: <text>`.
pub open spec fn chat_line(sender: Seq<char>, text: Seq<char>) -> Seq<char> {
    sender + ": "@ + text
}

/// What a correct broadcast fan-out is: one delivery of `line` to exactly
/// every registered, identified connection other than the sender, each at
/// most once, in no fixed order.
pub open spec fn deliveries_ok(
    m: Map<u64, Option<Seq<char>>>,
    sender: u64,
    line: Seq<char>,
    ds: Seq<Delivery>,
) -> bool {
    &&& forall|k: int|
        #![trigger ds[k]]
        0 <= k < ds.len() ==> {
            &&& ds[k].to != sender
            &&& m.contains_key(ds[k].to)
            &&& m[ds[k].to] is Some
            &&& ds[k].line@ == line
        }
    &&& forall|k1: int, k2: int| 0 <= k1 < k2 < ds.len() ==> ds[k1].to != ds[k2].to
    &&& forall|id: u64|
        #[trigger] m.contains_key(id) && id != sender && m[id] is Some ==> exists|k: int|
            0 <= k < ds.len() && ds[k].to == id
}

/// The registry after one line from `conn`: only a parsed login changes it,
/// overwriting the connection's identity.
pub open spec fn registry_after(
    m: Map<u64, Option<Seq<char>>>,
    conn: u64,
    s: Seq<char>,
) -> Map<u64, Option<Seq<char>>> {
    match parse_spec(s) {
        Ok(ParsedCommand::Login { id }) => m.insert(conn, Some(id)),
        _ => m,
    }
}

/// What one line from `conn` sends, given the registry `m` it arrived at:
/// a parse failure is reported back; a chat message from an identified
/// sender fans out to the other identified connections; everything else,
/// including a message from a connection that never logged in, is silent.
pub open spec fn outcome_ok(
    m: Map<u64, Option<Seq<char>>>,
    conn: u64,
    s: Seq<char>,
    out: Outcome,
) -> bool {
    match parse_spec(s) {
        Err(e) => out matches Outcome::Reply(msg) && msg@ == error_text(e),
        Ok(pc) => match pc {
            ParsedCommand::Message { text } => {
                match m[conn] {
                    Some(sender_name) => out matches Outcome::Deliver(ds) && deliveries_ok(
                        m,
                        conn,
                        chat_line(sender_name, text),
                        ds@,
                    ),
                    None => out is Silent,
                }
            },
            _ => out is Silent,
        },
    }
}

/// Logging in overwrites: after two logins on one connection, the registry
/// holds only the most recent identity.
pub proof fn lemma_login_overwrites(
    m: Map<u64, Option<Seq<char>>>,
    conn: u64,
    line1: Seq<char>,
    line2: Seq<char>,
    id1: Seq<char>,
    id2: Seq<char>,
)
    requires
        parse_spec(line1) == Ok::<ParsedCommand, Error>(ParsedCommand::Login { id: id1 }),
        parse_spec(line2) == Ok::<ParsedCommand, Error>(ParsedCommand::Login { id: id2 }),
    ensures
        registry_after(registry_after(m, conn, line1), conn, line2) == registry_after(
            m,
            conn,
            line2,
        ),
        registry_after(registry_after(m, conn, line1), conn, line2)[conn] == Some(id2),
{
    assert(m.insert(conn, Some(id1)).insert(conn, Some(id2)) =~= m.insert(conn, Some(id2)));
}

/// Broadcast attribution: every delivery of an identified sender's message
/// carries the identity currently recorded for the sender.
pub proof fn lemma_attribution(
    m: Map<u64, Option<Seq<char>>>,
    conn: u64,
    line: Seq<char>,
    text: Seq<char>,
    name: Seq<char>,
    out: Outcome,
)
    requires
        m.contains_key(conn),
        m[conn] == Some(name),
        parse_spec(line) == Ok::<ParsedCommand, Error>(ParsedCommand::Message { text }),
        outcome_ok(m, conn, line, out),
    ensures
        out matches Outcome::Deliver(ds) && forall|k: int|
            0 <= k < ds@.len() ==> (#[trigger] ds@[k]).line@ == chat_line(name, text),
{
}

/// The login gate: a chat message from a connection with no recorded
/// identity reaches zero peers and draws no error.
pub proof fn lemma_login_gate(
    m: Map<u64, Option<Seq<char>>>,
    conn: u64,
    line: Seq<char>,
    text: Seq<char>,
    out: Outcome,
)
    requires
        m.contains_key(conn),
        m[conn] is None,
        parse_spec(line) == Ok::<ParsedCommand, Error>(ParsedCommand::Message { text }),
        outcome_ok(m, conn, line, out),
    ensures
        out is Silent,
{
}

/// No self-delivery: a broadcast fan-out never targets its own sender.
pub proof fn lemma_no_self_delivery(
    m: Map<u64, Option<Seq<char>>>,
    sender: u64,
    line: Seq<char>,
    ds: Seq<Delivery>,
    k: int,
)
    requires
        deliveries_ok(m, sender, line, ds),
        0 <= k < ds.len(),
    ensures
        ds[k].to != sender,
{
}

/// A broadcast writes only to connections the registry holds and that are
/// identified; a removed connection is never written to.
pub proof fn lemma_deliveries_only_to_live(
    m: Map<u64, Option<Seq<char>>>,
    sender: u64,
    line: Seq<char>,
    ds: Seq<Delivery>,
    k: int,
)
    requires
        deliveries_ok(m, sender, line, ds),
        0 <= k < ds.len(),
    ensures
        m.contains_key(ds[k].to),
        m[ds[k].to] is Some,
{
}

/// The two-connection exchange: with exactly connections `a` and `b`
/// registered, both identified, a chat message from `a` is delivered exactly
/// once — to `b`, as `<a's identity>: <text>` — and never to `a` itself.
pub proof fn lemma_two_connection_exchange(
    a: u64,
    b: u64,
    name_a: Seq<char>,
    name_b: Seq<char>,
    line: Seq<char>,
    text: Seq<char>,
    out: Outcome,
)
    requires
        a != b,
        parse_spec(line) == Ok::<ParsedCommand, Error>(ParsedCommand::Message { text }),
        outcome_ok(
            Map::<u64, Option<Seq<char>>>::empty().insert(a, Some(name_a)).insert(b, Some(name_b)),
            a,
            line,
            out,
        ),
    ensures
        out matches Outcome::Deliver(ds) && ds@.len() == 1 && ds@[0].to == b && ds@[0].line@
            == chat_line(name_a, text),
{
    let m = Map::<u64, Option<Seq<char>>>::empty().insert(a, Some(name_a)).insert(b, Some(name_b));
    assert(m[a] == Some(name_a));
    match out {
        Outcome::Deliver(ds) => {
            assert(deliveries_ok(m, a, chat_line(name_a, text), ds@));
            assert(m.contains_key(b) && b != a && m[b] is Some);
            assert(exists|k: int| 0 <= k < ds@.len() && ds@[k].to == b);
            assert forall|k: int| 0 <= k < ds@.len() implies ds@[k].to == b by {
                assert(m.contains_key(ds@[k].to));
                assert(ds@[k].to == a || ds@[k].to == b);
            }
            if ds@.len() >= 2 {
                assert(ds@[0].to == b && ds@[1].to == b);
                assert(false);
            }
        },
        _ => {
            assert(false);
        },
    }
}

/// The malformed `%add_user` scenario: a bad UUID token leaves the registry
/// exactly as it was, and the outcome is one reply holding the `invalid
/// uuid` text for the sender alone — no peer is written to.
pub proof fn lemma_bad_uuid_draws_one_reply(
    m: Map<u64, Option<Seq<char>>>,
    conn: u64,
    tok: Seq<char>,
    kind: Seq<char>,
    out: Outcome,
)
    requires
        forall|j: int| 0 <= j < tok.len() ==> tok[j] != ' ',
        !uuid_ok(tok),
        outcome_ok(m, conn, "%add_user "@ + tok + seq![' '] + kind, out),
    ensures
        registry_after(m, conn, "%add_user "@ + tok + seq![' '] + kind) == m,
        out matches Outcome::Reply(msg) && msg@ == error_text(Error::InvalidUuid),
{
    crate::commands::lemma_add_user_bad_uuid(tok, kind);
}

/// The shared registry of live connections, keyed by connection id.
pub struct Registry {
    entries: Vec<(u64, Option<String>)>,
}

impl View for Registry {
    type V = Map<u64, Option<Seq<char>>>;

    closed spec fn view(&self) -> Map<u64, Option<Seq<char>>> {
        entries_map(self.entries@)
    }
}

impl Registry {
    /// The registry's internal invariant: ids are unique.  Constructors
    /// establish it and every method preserves it.
    pub closed spec fn wf(self) -> bool {
        unique_ids(self.entries@)
    }

    /// An empty registry: no connections, no identities.
    pub fn new() -> (r: Registry)
        ensures
            r.wf(),
            r@ == Map::<u64, Option<Seq<char>>>::empty(),
    {
        Registry { entries: Vec::new() }
    }

    fn find_index(&self, id: u64) -> (r: Option<usize>)
        ensures
            match r {
                Some(k) => k < self.entries@.len() && self.entries@[k as int].0 == id,
                None => forall|k: int| 0 <= k < self.entries@.len() ==> self.entries@[k].0 != id,
            },
    {
        let n = self.entries.len();
        let mut k: usize = 0;
        while k < n
            invariant
                k <= n,
                n == self.entries@.len(),
                forall|j: int| 0 <= j < k ==> self.entries@[j].0 != id,
            decreases n - k,
        {
            if self.entries[k].0 == id {
                return Some(k);
            }
            k += 1;
        }
        None
    }

    /// Whether `id` is a live connection.
    pub fn contains(&self, id: u64) -> (r: bool)
        requires
            self.wf(),
        ensures
            r == self@.contains_key(id),
    {
        proof {
            lemma_entries_map_contains(self.entries@);
        }
        match self.find_index(id) {
            Some(_) => true,
            None => false,
        }
    }

    /// Records a freshly accepted connection with no identity yet; an id
    /// already present is reset to an identityless record.
    pub fn insert(&mut self, id: u64)
        requires
            old(self).wf(),
        ensures
            final(self).wf(),
            final(self)@ == old(self)@.insert(id, None),
    {
        let ghost s0 = self.entries@;
        match self.find_index(id) {
            Some(k) => {
                self.entries.remove(k);
                proof {
                    lemma_entries_map_remove(s0, k as int);
                    lemma_unique_ids_remove(s0, k as int);
                }
                let ghost s1 = self.entries@;
                self.entries.push((id, None));
                proof {
                    lemma_entries_map_push(s1, (id, None));
                    assert(entries_map(s0).remove(id).insert(id, None) =~= entries_map(s0).insert(
                        id,
                        None,
                    ));
                }
            },
            None => {
                self.entries.push((id, None));
                proof {
                    lemma_entries_map_push(s0, (id, None));
                }
            },
        }
    }

    /// Forgets a connection; removing an absent id leaves the registry as it
    /// was.
    pub fn remove(&mut self, id: u64)
        requires
            old(self).wf(),
        ensures
            final(self).wf(),
            final(self)@ == old(self)@.remove(id),
    {
        proof {
            lemma_entries_map_contains(self.entries@);
        }
        let ghost s0 = self.entries@;
        match self.find_index(id) {
            Some(k) => {
                self.entries.remove(k);
                proof {
                    lemma_entries_map_remove(s0, k as int);
                    lemma_unique_ids_remove(s0, k as int);
                }
            },
            None => {
                proof {
                    assert(!entries_map(s0).contains_key(id));
                    assert(entries_map(s0).remove(id) =~= entries_map(s0));
                }
            },
        }
    }

    /// Sets the identity of a live connection, overwriting any earlier one.
    pub fn login(&mut self, id: u64, name: String)
        requires
            old(self).wf(),
            old(self)@.contains_key(id),
        ensures
            final(self).wf(),
            final(self)@ == old(self)@.insert(id, Some(name@)),
    {
        proof {
            lemma_entries_map_contains(self.entries@);
        }
        let ghost s0 = self.entries@;
        match self.find_index(id) {
            Some(k) => {
                self.entries.remove(k);
                proof {
                    lemma_entries_map_remove(s0, k as int);
                    lemma_unique_ids_remove(s0, k as int);
                }
                let ghost s1 = self.entries@;
                self.entries.push((id, Some(name)));
                proof {
                    lemma_entries_map_push(s1, (id, Some(name)));
                    assert(entries_map(s0).remove(id).insert(id, Some(name@)) =~= entries_map(
                        s0,
                    ).insert(id, Some(name@)));
                }
            },
            None => {
                proof {
                    assert(false);
                }
            },
        }
    }

    /// The identity recorded for `id`, if `id` is live and has one.
    pub fn identity_of(&self, id: u64) -> (r: Option<String>)
        requires
            self.wf(),
        ensures
            match r {
                Some(name) => self@.contains_key(id) && self@[id] == Some(name@),
                None => !self@.contains_key(id) || self@[id] is None,
            },
    {
        proof {
            lemma_entries_map_contains(self.entries@);
            lemma_entries_map_index(self.entries@);
        }
        match self.find_index(id) {
            Some(k) => match &self.entries[k].1 {
                Some(name) => Some(name.clone()),
                None => None,
            },
            None => None,
        }
    }

    /// The fan-out of one chat line: a delivery of `line` to every identified
    /// connection other than `sender`.
    fn broadcast(&self, sender: u64, line: &String) -> (ds: Vec<Delivery>)
        requires
            self.wf(),
        ensures
            deliveries_ok(self@, sender, line@, ds@),
    {
        proof {
            lemma_entries_map_contains(self.entries@);
            lemma_entries_map_index(self.entries@);
        }
        let n = self.entries.len();
        let mut ds: Vec<Delivery> = Vec::new();
        let mut k: usize = 0;
        while k < n
            invariant
                k <= n,
                n == self.entries@.len(),
                unique_ids(self.entries@),
                self@ == entries_map(self.entries@),
                forall|id: u64| #[trigger]
                    self@.contains_key(id) <==> exists|j: int|
                        0 <= j < self.entries@.len() && self.entries@[j].0 == id,
                forall|j: int|
                    0 <= j < self.entries@.len() ==> self@.contains_key(
                        #[trigger] self.entries@[j].0,
                    ) && self@[self.entries@[j].0] == opt_view(self.entries@[j].1),
                forall|a: int|
                    #![trigger ds@[a]]
                    0 <= a < ds@.len() ==> {
                        &&& ds@[a].to != sender
                        &&& ds@[a].line@ == line@
                        &&& exists|j: int|
                            0 <= j < k && ds@[a].to == self.entries@[j].0 && self.entries@[j].1
                                is Some
                    },
                forall|a1: int, a2: int| 0 <= a1 < a2 < ds@.len() ==> ds@[a1].to != ds@[a2].to,
                forall|j: int|
                    0 <= j < k && (#[trigger] self.entries@[j].0) != sender && self.entries@[j].1
                        is Some ==> exists|a: int| 0 <= a < ds@.len() && ds@[a].to
                        == self.entries@[j].0,
            decreases n - k,
        {
            let e = &self.entries[k];
            if e.0 != sender {
                match &e.1 {
                    Some(_) => {
                        let ghost ds0 = ds@;
                        ds.push(Delivery { to: e.0, line: line.clone() });
                        proof {
                            assert(ds@ == ds0.push(ds@[ds@.len() - 1]));
                            assert(ds@[ds@.len() - 1].to == self.entries@[k as int].0);
                            assert(ds@[ds@.len() - 1].line@ == line@);
                            assert forall|a1: int, a2: int|
                                0 <= a1 < a2 < ds@.len() implies ds@[a1].to != ds@[a2].to by {
                                if a2 == ds@.len() - 1 {
                                    let j = choose|j: int|
                                        0 <= j < k && ds0[a1].to == self.entries@[j].0
                                            && self.entries@[j].1 is Some;
                                    assert(self.entries@[j].0 != self.entries@[k as int].0);
                                }
                            }
                            assert forall|j: int|
                                0 <= j < k + 1 && (#[trigger] self.entries@[j].0) != sender
                                    && self.entries@[j].1 is Some implies exists|a: int|
                                0 <= a < ds@.len() && ds@[a].to == self.entries@[j].0 by {
                                if j < k {
                                    let a = choose|a: int|
                                        0 <= a < ds0.len() && ds0[a].to == self.entries@[j].0;
                                    assert(ds@[a].to == self.entries@[j].0);
                                } else {
                                    assert(ds@[ds@.len() - 1].to == self.entries@[j].0);
                                }
                            }
                        }
                    },
                    None => {},
                }
            }
            k += 1;
        }
        proof {
            assert forall|id: u64|
                #[trigger] self@.contains_key(id) && id != sender && self@[id]
                    is Some implies exists|a: int| 0 <= a < ds@.len() && ds@[a].to == id by {
                let j = choose|j: int|
                    0 <= j < self.entries@.len() && self.entries@[j].0 == id;
                assert(self@[self.entries@[j].0] == opt_view(self.entries@[j].1));
            }
        }
        ds
    }

    /// Handles one complete line received from connection `conn_id`: parses
    /// it, applies a login to the registry, and says what to put on the wire.
    pub fn handle_line(&mut self, conn_id: u64, line: &str) -> (out: Outcome)
        requires
            old(self).wf(),
            old(self)@.contains_key(conn_id),
        ensures
            final(self).wf(),
            final(self)@ == registry_after(old(self)@, conn_id, line@),
            outcome_ok(old(self)@, conn_id, line@, out),
    {
        match Command::new(line) {
            Err(e) => Outcome::Reply(e.message()),
            Ok(cmd) => match cmd {
                Command::Login(l) => {
                    self.login(conn_id, l.id);
                    Outcome::Silent
                },
                Command::Message(msg) => {
                    match self.identity_of(conn_id) {
                        None => Outcome::Silent,
                        Some(name) => {
                            let out_line = name.concat(": ").concat(msg.message.as_str());
                            proof {
                                assert(out_line@ =~= chat_line(
                                    old(self)@[conn_id]->Some_0,
                                    msg.message@,
                                ));
                            }
                            Outcome::Deliver(self.broadcast(conn_id, &out_line))
                        },
                    }
                },
                _ => Outcome::Silent,
            },
        }
    }
}

} // verus!
