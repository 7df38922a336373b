//! The mailbox: an append-only, newest-first store of message strings, and
//! the snapshot text format `<entry1>;<entry2>;...;` that carries it over the
//! wire.
//!
//! The store itself is sequential; the server shares one instance across
//! connections behind a single lock, so every append and every snapshot acts
//! on it atomically, exactly as these contracts describe.

use vstd::prelude::*;
use vstd::string::StrSliceExecFns;
use vstd::string::StringExecFns;

use crate::text::push_char;

verus! {

/// The snapshot text of a sequence of entries: each entry in order, each
/// immediately followed by one `;`, the last one included.
pub open spec fn spec_snapshot(entries: Seq<Seq<char>>) -> Seq<char>
    decreases entries.len(),
{
    if entries.len() == 0 {
        Seq::empty()
    } else {
        entries.first() + seq![';'] + spec_snapshot(entries.drop_first())
    }
}

/// Splitting on a delimiter, as collaborating clients do: one token more than
/// there are delimiters, empty tokens kept.
pub open spec fn spec_split(s: Seq<char>, d: char) -> Seq<Seq<char>>
    decreases s.len(),
{
    if s.len() == 0 {
        seq![Seq::empty()]
    } else {
        let rest = spec_split(s.drop_first(), d);
        if s[0] == d {
            seq![Seq::<char>::empty()] + rest
        } else {
            seq![seq![s[0]] + rest.first()] + rest.drop_first()
        }
    }
}

/// `spec_split` never returns an empty token list.
pub proof fn lemma_split_len(s: Seq<char>, d: char)
    ensures
        spec_split(s, d).len() >= 1,
    decreases s.len(),
{
    if s.len() > 0 {
        lemma_split_len(s.drop_first(), d);
    }
}

/// The in-memory mailbox, newest entry first.
pub struct Mailbox {
    entries: Vec<String>,
}

impl View for Mailbox {
    type V = Seq<Seq<char>>;

    /// The stored entries, newest first.
    closed spec fn view(&self) -> Seq<Seq<char>> {
        Seq::new(self.entries@.len(), |i: int| self.entries@[i]@)
    }
}

impl Mailbox {
    /// An empty mailbox.
    pub fn new() -> (m: Mailbox)
        ensures
            m@ == Seq::<Seq<char>>::empty(),
    {
        let m = Mailbox { entries: Vec::new() };
        proof {
            assert(m@ =~= Seq::<Seq<char>>::empty());
        }
        m
    }

    /// Insert `message` as the new most-recent entry.  No entry is ever
    /// removed or reordered: the old contents follow the new entry unchanged.
    pub fn append(&mut self, message: &str)
        ensures
            final(self)@ == old(self)@.insert(0, message@),
    {
        self.entries.insert(0, message.to_owned());
        proof {
            assert(self@ =~= old(self)@.insert(0, message@));
        }
    }

    /// Render every entry, newest first, each followed by `;` — also the last
    /// one, and an empty mailbox yields the empty string.
    pub fn snapshot(&self) -> (r: String)
        ensures
            r@ == spec_snapshot(self@),
    {
        let ghost all = self@;
        let mut acc = String::new();
        let mut i: usize = 0;
        let n = self.entries.len();
        while i < n
            invariant
                n == self.entries@.len(),
                all == self@,
                n == all.len(),
                0 <= i <= n,
                acc@ == spec_snapshot(all.take(i as int)),
            decreases n - i,
        {
            acc.append(self.entries[i].as_str());
            push_char(&mut acc, ';');
            proof {
                lemma_snapshot_push(all.take(i as int), all[i as int]);
                assert(all.take(i + 1 as int) =~= all.take(i as int).push(all[i as int]));
            }
            i += 1;
        }
        proof {
            assert(all.take(n as int) =~= all);
        }
        acc
    }
}

/// Appending one entry extends the snapshot text by that entry and one `;`.
pub proof fn lemma_snapshot_push(entries: Seq<Seq<char>>, e: Seq<char>)
    ensures
        spec_snapshot(entries.push(e)) == spec_snapshot(entries) + e + seq![';'],
    decreases entries.len(),
{
    if entries.len() == 0 {
        assert(entries.push(e).first() == e);
        assert(entries.push(e).drop_first() =~= Seq::<Seq<char>>::empty());
        assert(spec_snapshot(Seq::<Seq<char>>::empty()) == Seq::<char>::empty());
        assert(spec_snapshot(entries.push(e)) == e + seq![';'] + Seq::<char>::empty());
        assert(e + seq![';'] + Seq::<char>::empty() =~= e + seq![';']);
        assert(spec_snapshot(entries) + e + seq![';'] =~= e + seq![';']);
    } else {
        assert(entries.push(e).drop_first() =~= entries.drop_first().push(e));
        lemma_snapshot_push(entries.drop_first(), e);
        assert(spec_snapshot(entries.push(e)) == entries.first() + seq![';'] + (spec_snapshot(
            entries.drop_first(),
        ) + e + seq![';']));
        assert(entries.first() + seq![';'] + (spec_snapshot(entries.drop_first()) + e + seq![';'])
            =~= spec_snapshot(entries) + e + seq![';']);
    }
}

/// Splitting text that starts with a delimiter-free, `;`-terminated token
/// peels exactly that token off.
pub proof fn lemma_split_peel(x: Seq<char>, t: Seq<char>)
    requires
        !x.contains(';'),
    ensures
        spec_split(x + seq![';'] + t, ';') == seq![x] + spec_split(t, ';'),
    decreases x.len(),
{
    let s = x + seq![';'] + t;
    if x.len() == 0 {
        assert(s[0] == ';');
        assert(s.drop_first() =~= t);
        assert(x =~= Seq::<char>::empty());
        assert(spec_split(s, ';') == seq![x] + spec_split(t, ';'));
    } else {
        assert(s[0] == x[0]);
        assert(x[0] != ';') by {
            if x[0] == ';' {
                assert(x.contains(';'));
            }
        }
        assert(s.drop_first() =~= x.drop_first() + seq![';'] + t);
        assert(!x.drop_first().contains(';')) by {
            if x.drop_first().contains(';') {
                let j = choose|j: int|
                    0 <= j < x.drop_first().len() && x.drop_first()[j] == ';';
                assert(x[j + 1] == ';');
                assert(x.contains(';'));
            }
        }
        lemma_split_peel(x.drop_first(), t);
        lemma_split_len(t, ';');
        let rest = spec_split(s.drop_first(), ';');
        assert(rest.first() == x.drop_first());
        assert(spec_split(s, ';') == seq![seq![s[0]] + rest.first()] + rest.drop_first());
        assert(seq![s[0]] + rest.first() =~= x);
        assert(rest.drop_first() =~= spec_split(t, ';'));
        assert(seq![seq![s[0]] + rest.first()] + rest.drop_first() =~= seq![x] + spec_split(
            t,
            ';',
        ));
    }
}

/// The snapshot text is lossless: when no entry contains the delimiter,
/// splitting the snapshot on `;` gives back exactly the entries, in order,
/// followed by the one empty token after the final delimiter.  In particular
/// no appended message is lost or duplicated on the way to a client.
pub proof fn lemma_snapshot_split_roundtrip(entries: Seq<Seq<char>>)
    requires
        forall|k: int| 0 <= k < entries.len() ==> !(#[trigger] entries[k]).contains(';'),
    ensures
        spec_split(spec_snapshot(entries), ';') == entries.push(Seq::<char>::empty()),
    decreases entries.len(),
{
    if entries.len() == 0 {
        assert(spec_snapshot(entries) == Seq::<char>::empty());
        assert(entries.push(Seq::<char>::empty()) =~= seq![Seq::<char>::empty()]);
    } else {
        assert(forall|k: int|
            0 <= k < entries.drop_first().len() ==> entries.drop_first()[k] == entries[k + 1]);
        lemma_snapshot_split_roundtrip(entries.drop_first());
        assert(entries.first() == entries[0]);
        lemma_split_peel(entries.first(), spec_snapshot(entries.drop_first()));
        assert(seq![entries.first()] + entries.drop_first().push(Seq::<char>::empty())
            =~= entries.push(Seq::<char>::empty()));
    }
}

/// What a retrieving client gets back holds every stored entry exactly once:
/// when no entry contains the delimiter, the tokens before the final empty
/// one carry the same multiset of messages as the mailbox, however the
/// appends that produced it were interleaved.
pub proof fn lemma_snapshot_complete(entries: Seq<Seq<char>>)
    requires
        forall|k: int| 0 <= k < entries.len() ==> !(#[trigger] entries[k]).contains(';'),
    ensures
        spec_split(spec_snapshot(entries), ';').drop_last().to_multiset() == entries.to_multiset(),
{
    lemma_snapshot_split_roundtrip(entries);
    assert(entries.push(Seq::<char>::empty()).drop_last() =~= entries);
}

/// The first token of a split, still waiting for its leading characters.
pub open spec fn prepend_first(c: Seq<char>, ss: Seq<Seq<char>>) -> Seq<Seq<char>>
    recommends
        ss.len() >= 1,
{
    seq![c + ss.first()] + ss.drop_first()
}

/// Split `s` on `;`, keeping empty tokens, as collaborating clients do.
pub fn split_tokens(s: &str) -> (r: Vec<String>)
    ensures
        r.deep_view() == spec_split(s@, ';'),
{
    let n = s.unicode_len();
    let mut done: Vec<String> = Vec::new();
    let mut cur: String = String::new();
    let mut j: usize = 0;
    proof {
        assert(s@.skip(0) =~= s@);
        lemma_split_len(s@, ';');
        assert(prepend_first(cur@, spec_split(s@, ';')) =~= spec_split(s@, ';'));
        assert(done.deep_view() =~= Seq::<Seq<char>>::empty());
    }
    while j < n
        invariant
            n == s@.len(),
            0 <= j <= n,
            spec_split(s@.skip(j as int), ';').len() >= 1,
            spec_split(s@, ';') == done.deep_view() + prepend_first(
                cur@,
                spec_split(s@.skip(j as int), ';'),
            ),
        decreases n - j,
    {
        let ghost pre = s@.skip(j as int);
        let ghost post = s@.skip(j as int + 1);
        let ghost old_done = done.deep_view();
        let ghost old_cur = cur@;
        proof {
            assert(pre.len() > 0);
            assert(pre[0] == s@[j as int]);
            assert(pre.drop_first() =~= post);
            lemma_split_len(post, ';');
        }
        let c = s.get_char(j);
        if c == ';' {
            let finished = cur;
            cur = String::new();
            done.push(finished);
            proof {
                assert(spec_split(pre, ';') == seq![Seq::<char>::empty()] + spec_split(post, ';'));
                assert(prepend_first(old_cur, spec_split(pre, ';')) =~= seq![old_cur] + spec_split(
                    post,
                    ';',
                ));
                assert(prepend_first(cur@, spec_split(post, ';')) =~= spec_split(post, ';'));
                assert(done.deep_view() =~= old_done.push(old_cur));
                assert(done.deep_view() + prepend_first(cur@, spec_split(post, ';')) =~= old_done
                    + prepend_first(old_cur, spec_split(pre, ';')));
            }
        } else {
            push_char(&mut cur, c);
            proof {
                let ss = spec_split(post, ';');
                assert(spec_split(pre, ';') == prepend_first(seq![pre[0]], ss));
                assert(prepend_first(seq![pre[0]], ss).first() == seq![pre[0]] + ss.first());
                assert(prepend_first(seq![pre[0]], ss).drop_first() =~= ss.drop_first());
                assert(cur@ =~= old_cur + seq![pre[0]]);
                assert(old_cur + (seq![pre[0]] + ss.first()) =~= cur@ + ss.first());
                assert(prepend_first(old_cur, prepend_first(seq![pre[0]], ss)) =~= prepend_first(
                    cur@,
                    ss,
                ));
            }
        }
        j += 1;
    }
    proof {
        assert(s@.skip(n as int) =~= Seq::<char>::empty());
        assert(spec_split(Seq::<char>::empty(), ';') == seq![Seq::<char>::empty()]);
        assert(prepend_first(cur@, seq![Seq::<char>::empty()]) =~= seq![cur@]);
    }
    let ghost old_done = done.deep_view();
    let ghost last = cur@;
    done.push(cur);
    proof {
        assert(done.deep_view() =~= old_done.push(last));
        assert(old_done.push(last) =~= old_done + seq![last]);
    }
    done
}

/// The line with one trailing newline removed, when it has one.
pub open spec fn spec_chomp(s: Seq<char>) -> Seq<char> {
    if s.len() > 0 && s.last() == '\n' {
        s.drop_last()
    } else {
        s
    }
}

/// Decode one snapshot response line the way the terminal client keeps it:
/// drop the line's trailing newline, split on `;`, then reverse, so the
/// oldest entry comes first.
pub fn snapshot_entries(line: &str) -> (r: Vec<String>)
    ensures
        r.deep_view() == spec_split(spec_chomp(line@), ';').reverse(),
{
    let n = line.unicode_len();
    let body = if n > 0 && line.get_char(n - 1) == '\n' {
        line.substring_char(0, n - 1)
    } else {
        line
    };
    proof {
        assert(body@ =~= spec_chomp(line@));
    }
    let toks = split_tokens(body);
    let m = toks.len();
    let mut r: Vec<String> = Vec::new();
    let mut i: usize = m;
    while i > 0
        invariant
            m == toks@.len(),
            0 <= i <= m,
            toks.deep_view() == spec_split(spec_chomp(line@), ';'),
            r@.len() == m - i,
            forall|k: int| 0 <= k < m - i ==> #[trigger] r.deep_view()[k] == toks.deep_view()[m - 1
                - k],
        decreases i,
    {
        i -= 1;
        let ghost old_rdv = r.deep_view();
        let e = toks[i].clone();
        proof {
            assert(e@ == toks.deep_view()[i as int]);
        }
        r.push(e);
        proof {
            assert forall|k: int| 0 <= k < m - i implies #[trigger] r.deep_view()[k]
                == toks.deep_view()[m - 1 - k] by {
                if k < m - i - 1 {
                    assert(r.deep_view()[k] == old_rdv[k]);
                } else {
                    assert(r.deep_view()[k] == e@);
                }
            }
        }
    }
    proof {
        assert(r.deep_view() =~= toks.deep_view().reverse());
    }
    r
}

} // verus!
