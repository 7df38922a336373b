//! The terminal client's model: the email being composed, the selected
//! channel, and the emails last retrieved from the server, together with the
//! channel listing derived from them.

use itertools::Itertools;
use vstd::prelude::*;
use vstd::string::StrSliceExecFns;
use vstd::string::StringExecFns;

use crate::text::find_char;
use crate::text::lemma_find_is_first;
use crate::text::lemma_find_none;
use crate::text::lemma_find_props;
use crate::text::lemma_lex_le_antisymmetric;
use crate::text::lex_le;
use crate::text::owned_substring;
use crate::text::push_char;
use crate::text::spec_find;
use crate::text::str_eq;

verus! {

/// The channel an email is filed under: the text before its first `:`, or
/// `misc` when it has none.
pub open spec fn spec_channel_of(email: Seq<char>) -> Seq<char> {
    match spec_find(email, ':') {
        Some(i) => email.take(i),
        None => "misc"@,
    }
}

/// Channel of one email.
fn email_channel(email: &str) -> (r: String)
    ensures
        r@ == spec_channel_of(email@),
{
    let f = find_char(email, ':');
    proof {
        lemma_find_props(email@, ':');
    }
    match f {
        Some(i) => owned_substring(email, 0, i),
        None => String::from_str("misc"),
    }
}

/// What itertools' `unique` keeps: the first occurrence of each element, in
/// their original order.
pub open spec fn spec_dedup_first(s: Seq<Seq<char>>) -> Seq<Seq<char>>
    decreases s.len(),
{
    if s.len() == 0 {
        Seq::empty()
    } else {
        let rest = spec_dedup_first(s.drop_last());
        if s.drop_last().contains(s.last()) {
            rest
        } else {
            rest.push(s.last())
        }
    }
}

/// Whether two listings hold exactly the same names.
pub open spec fn same_members(a: Seq<Seq<char>>, b: Seq<Seq<char>>) -> bool {
    forall|x: Seq<char>| #[trigger] a.contains(x) <==> #[trigger] b.contains(x)
}

/// Deduplication keeps membership and leaves no duplicates behind.
pub proof fn lemma_dedup_first_props(s: Seq<Seq<char>>)
    ensures
        spec_dedup_first(s).no_duplicates(),
        same_members(spec_dedup_first(s), s),
    decreases s.len(),
{
    if s.len() > 0 {
        lemma_dedup_first_props(s.drop_last());
        let rest = spec_dedup_first(s.drop_last());
        let last = s.last();
        assert forall|x: Seq<char>| #[trigger] s.contains(x) implies s.drop_last().contains(x) || x
            == last by {
            let idx = choose|idx: int| 0 <= idx < s.len() && s[idx] == x;
            if idx < s.len() - 1 {
                assert(s.drop_last()[idx] == x);
                assert(s.drop_last().contains(x));
            }
        }
        assert forall|x: Seq<char>| s.drop_last().contains(x) implies #[trigger] s.contains(x) by {
            let idx = choose|idx: int| 0 <= idx < s.drop_last().len() && s.drop_last()[idx] == x;
            assert(s[idx] == x);
        }
        assert(s[s.len() - 1] == last);
        assert(s.contains(last));
        if s.drop_last().contains(last) {
            assert(same_members(rest, s));
        } else {
            let p = rest.push(last);
            assert forall|x: Seq<char>| #[trigger] p.contains(x) implies rest.contains(x) || x
                == last by {
                let idx = choose|idx: int| 0 <= idx < p.len() && p[idx] == x;
                if idx < rest.len() {
                    assert(rest[idx] == x);
                    assert(rest.contains(x));
                }
            }
            assert forall|x: Seq<char>| rest.contains(x) || x == last implies #[trigger] p.contains(
                x,
            ) by {
                if rest.contains(x) {
                    let idx = choose|idx: int| 0 <= idx < rest.len() && rest[idx] == x;
                    assert(p[idx] == x);
                } else {
                    assert(p[rest.len() as int] == last);
                }
            }
            assert(!rest.contains(last));
            assert forall|i: int, j: int|
                0 <= i < p.len() && 0 <= j < p.len() && i != j implies p[i] != p[j] by {
                if i < rest.len() && j < rest.len() {
                    assert(rest[i] != rest[j]);
                } else if i == rest.len() as int && j < rest.len() {
                    if p[i] == p[j] {
                        assert(rest[j] == last);
                        assert(rest.contains(last));
                    }
                } else if j == rest.len() as int && i < rest.len() {
                    if p[i] == p[j] {
                        assert(rest[i] == last);
                        assert(rest.contains(last));
                    }
                }
            }
            assert(p.no_duplicates());
            assert(same_members(p, s));
        }
    }
}

/// Strictly a listing: free of duplicates and ascending in `lex_le`.
pub open spec fn is_channel_order(s: Seq<Seq<char>>) -> bool {
    s.no_duplicates() && (forall|i: int, j: int|
        0 <= i < j < s.len() ==> lex_le(#[trigger] s[i], #[trigger] s[j]))
}

/// There is only one ordered, duplicate-free listing of a given set of names.
pub proof fn lemma_channel_order_unique(s1: Seq<Seq<char>>, s2: Seq<Seq<char>>)
    requires
        is_channel_order(s1),
        is_channel_order(s2),
        same_members(s1, s2),
    ensures
        s1 == s2,
    decreases s1.len(),
{
    if s1.len() == 0 {
        if s2.len() > 0 {
            assert(s2.contains(s2[0]));
            assert(s1.contains(s2[0]));
            assert(false);
        }
        assert(s1 =~= s2);
    } else {
        assert(s1.contains(s1[0]));
        assert(s2.contains(s1[0]));
        if s2.len() == 0 {
            assert(false);
        }
        let k1 = choose|k: int| 0 <= k < s2.len() && s2[k] == s1[0];
        if k1 > 0 {
            assert(lex_le(s2[0], s2[k1]));
        } else {
            crate::text::lemma_lex_le_refl(s1[0]);
        }
        assert(lex_le(s2[0], s1[0]));
        assert(s2.contains(s2[0]));
        assert(s1.contains(s2[0]));
        let k2 = choose|k: int| 0 <= k < s1.len() && s1[k] == s2[0];
        if k2 > 0 {
            assert(lex_le(s1[0], s1[k2]));
        } else {
            crate::text::lemma_lex_le_refl(s2[0]);
        }
        assert(lex_le(s1[0], s2[0]));
        lemma_lex_le_antisymmetric(s1[0], s2[0]);
        let t1 = s1.drop_first();
        let t2 = s2.drop_first();
        assert(forall|i: int| 0 <= i < t1.len() ==> t1[i] == s1[i + 1]);
        assert(forall|i: int| 0 <= i < t2.len() ==> t2[i] == s2[i + 1]);
        assert(is_channel_order(t1));
        assert(is_channel_order(t2));
        assert forall|x: Seq<char>| #[trigger] t1.contains(x) implies t2.contains(x) by {
            let i = choose|i: int| 0 <= i < t1.len() && t1[i] == x;
            assert(s1[i + 1] == x);
            assert(s1.contains(x));
            assert(x != s1[0]);
            assert(s2.contains(x));
            let k = choose|k: int| 0 <= k < s2.len() && s2[k] == x;
            assert(k != 0);
            assert(t2[k - 1] == x);
        }
        assert forall|x: Seq<char>| #[trigger] t2.contains(x) implies t1.contains(x) by {
            let i = choose|i: int| 0 <= i < t2.len() && t2[i] == x;
            assert(s2[i + 1] == x);
            assert(s2.contains(x));
            assert(x != s2[0]);
            assert(s1.contains(x));
            let k = choose|k: int| 0 <= k < s1.len() && s1[k] == x;
            assert(k != 0);
            assert(t1[k - 1] == x);
        }
        lemma_channel_order_unique(t1, t2);
        assert forall|i: int| 0 <= i < s1.len() implies s1[i] == s2[i] by {
            if i > 0 {
                assert(t1[i - 1] == s1[i]);
                assert(t2[i - 1] == s2[i]);
                assert(t1[i - 1] == t2[i - 1]);
            }
        }
        assert(s1 =~= s2);
    }
}

/// The one ordered, duplicate-free listing of the given names.
pub open spec fn spec_unique_sorted(s: Seq<Seq<char>>) -> Seq<Seq<char>> {
    choose|r: Seq<Seq<char>>| is_channel_order(r) && same_members(r, s)
}

/// Any ordered, duplicate-free listing with the right members is the one.
pub proof fn lemma_unique_sorted_is(s: Seq<Seq<char>>, r: Seq<Seq<char>>)
    requires
        is_channel_order(r),
        same_members(r, s),
    ensures
        spec_unique_sorted(s) == r,
{
    let w = spec_unique_sorted(s);
    assert(is_channel_order(w) && same_members(w, s));
    assert forall|x: Seq<char>| #[trigger] w.contains(x) <==> #[trigger] r.contains(x) by {
        assert(w.contains(x) <==> s.contains(x));
        assert(r.contains(x) <==> s.contains(x));
    }
    lemma_channel_order_unique(w, r);
}

/// Relies on itertools' `unique`: it keeps the first occurrence of each
/// string and drops later duplicates, preserving their order.
#[verifier::external_body]
fn unique_strings(v: Vec<String>) -> (r: Vec<String>)
    ensures
        r.deep_view() == spec_dedup_first(v.deep_view()),
{
    v.into_iter().unique().collect()
}

/// Relies on itertools' `sorted`: it returns the same strings rearranged
/// into ascending `Ord` order, which std documents to be lexicographic by
/// code point.
#[verifier::external_body]
fn sorted_strings(v: Vec<String>) -> (r: Vec<String>)
    ensures
        r.deep_view().to_multiset() == v.deep_view().to_multiset(),
        forall|i: int, j: int|
            0 <= i < j < r.deep_view().len() ==> lex_le(
                #[trigger] r.deep_view()[i],
                #[trigger] r.deep_view()[j],
            ),
{
    v.into_iter().sorted().collect()
}

/// The state behind the terminal client.
pub struct Model {
    pub composed_email_content: String,
    pub selected_channel_name: String,
    pub emails: Vec<String>,
}

/// The channel listing a model offers: each email's channel, deduplicated
/// and sorted ascending, then the `+` entry for creating a new channel.
pub open spec fn spec_channels(m: Model) -> Seq<Seq<char>> {
    spec_unique_sorted(m.emails.deep_view().map_values(|e: Seq<char>| spec_channel_of(e))).push(
        "+"@,
    )
}

/// Where the selected channel stands in the listing: the first index holding
/// it, or the listing's length when it is absent.
pub open spec fn spec_selected_idx(m: Model) -> int {
    match spec_find(spec_channels(m), m.selected_channel_name@) {
        Some(i) => i,
        None => spec_channels(m).len() as int,
    }
}

impl Model {
    /// A fresh model: nothing composed, the `+` entry selected, no emails.
    pub fn default() -> (m: Model)
        ensures
            m.composed_email_content@ == Seq::<char>::empty(),
            m.selected_channel_name@ == "+"@,
            m.emails@ == Seq::<String>::empty(),
    {
        Model {
            composed_email_content: String::new(),
            selected_channel_name: String::from_str("+"),
            emails: Vec::new(),
        }
    }

    /// Replace the retrieved emails wholesale.
    pub fn replace_emails(&mut self, emails: Vec<String>)
        ensures
            final(self).emails == emails,
            final(self).composed_email_content == old(self).composed_email_content,
            final(self).selected_channel_name == old(self).selected_channel_name,
    {
        self.emails = emails;
    }

    /// The email text composed so far.
    pub fn composed(&self) -> (r: String)
        ensures
            r@ == self.composed_email_content@,
    {
        self.composed_email_content.clone()
    }

    /// Remove the last composed character, when there is one.
    pub fn composed_backspace(&mut self)
        ensures
            old(self).composed_email_content@.len() > 0 ==> final(self).composed_email_content@
                == old(self).composed_email_content@.drop_last(),
            old(self).composed_email_content@.len() == 0 ==> final(self).composed_email_content
                == old(self).composed_email_content,
            final(self).selected_channel_name == old(self).selected_channel_name,
            final(self).emails == old(self).emails,
    {
        let len = self.composed_email_content.as_str().unicode_len();
        if len > 0 {
            let shorter = owned_substring(self.composed_email_content.as_str(), 0, len - 1);
            proof {
                assert(shorter@ =~= old(self).composed_email_content@.drop_last());
            }
            self.composed_email_content = shorter;
        }
    }

    /// Append one character to the composed email.
    pub fn composed_push(&mut self, to_push: char)
        ensures
            final(self).composed_email_content@ == old(self).composed_email_content@.push(to_push),
            final(self).selected_channel_name == old(self).selected_channel_name,
            final(self).emails == old(self).emails,
    {
        push_char(&mut self.composed_email_content, to_push);
    }

    /// Throw the composed email away.
    pub fn composed_clear(&mut self)
        ensures
            final(self).composed_email_content@ == Seq::<char>::empty(),
            final(self).selected_channel_name == old(self).selected_channel_name,
            final(self).emails == old(self).emails,
    {
        self.composed_email_content = String::new();
    }

    /// Select a channel by name.
    pub fn select_channel(&mut self, channel: &str)
        ensures
            final(self).selected_channel_name@ == channel@,
            final(self).composed_email_content == old(self).composed_email_content,
            final(self).emails == old(self).emails,
    {
        self.selected_channel_name = channel.to_owned();
    }

    /// The channel listing: every email's channel, deduplicated, sorted
    /// ascending, with the `+` entry appended last.
    #[verifier::loop_isolation(false)]
    pub fn channels(&self) -> (r: Vec<String>)
        ensures
            r.deep_view() == spec_channels(*self),
    {
        let ghost f = |e: Seq<char>| spec_channel_of(e);
        let mut mapped: Vec<String> = Vec::new();
        let n = self.emails.len();
        let mut i: usize = 0;
        proof {
            assert(mapped.deep_view() =~= self.emails.deep_view().map_values(f).take(0));
        }
        while i < n
            invariant
                n == self.emails@.len(),
                0 <= i <= n,
                mapped.deep_view() == self.emails.deep_view().map_values(f).take(i as int),
            decreases n - i,
        {
            let ghost old_dv = mapped.deep_view();
            let c = email_channel(self.emails[i].as_str());
            let ghost cv = c@;
            mapped.push(c);
            proof {
                assert(mapped.deep_view().len() == mapped@.len());
                assert(old_dv.len() == i as int);
                assert(mapped@.len() == i + 1);
                assert forall|k: int| 0 <= k < i + 1 implies mapped.deep_view()[k]
                    == self.emails.deep_view().map_values(f).take(i as int + 1)[k] by {
                    assert(self.emails.deep_view()[k] == self.emails@[k]@);
                    if k < i {
                        assert(mapped.deep_view()[k] == old_dv[k]);
                    } else {
                        assert(mapped.deep_view()[k] == cv);
                    }
                }
                assert(mapped.deep_view() =~= self.emails.deep_view().map_values(f).take(
                    i as int + 1,
                ));
            }
            i += 1;
        }
        proof {
            assert(self.emails.deep_view().map_values(f).take(n as int)
                =~= self.emails.deep_view().map_values(f));
        }
        let u = unique_strings(mapped);
        let s = sorted_strings(u);
        proof {
            broadcast use vstd::seq_lib::group_to_multiset_ensures;

            lemma_dedup_first_props(self.emails.deep_view().map_values(f));
            u.deep_view().lemma_multiset_has_no_duplicates();
            assert forall|x: Seq<char>| #[trigger] s.deep_view().contains(x) implies u.deep_view()
                .contains(x) by {
                assert(s.deep_view().to_multiset().count(x) > 0);
            }
            assert forall|x: Seq<char>| #[trigger] u.deep_view().contains(x) implies s.deep_view()
                .contains(x) by {
                assert(u.deep_view().to_multiset().count(x) > 0);
            }
            assert forall|x: Seq<char>| s.deep_view().to_multiset().contains(x) implies s.deep_view()
                .to_multiset().count(x) == 1 by {
                assert(u.deep_view().to_multiset().count(x) == s.deep_view().to_multiset().count(
                    x,
                ));
                assert(u.deep_view().contains(x));
            }
            s.deep_view().lemma_multiset_has_no_duplicates_conv();
            assert(is_channel_order(s.deep_view()));
            assert forall|x: Seq<char>| #[trigger] s.deep_view().contains(x)
                <==> #[trigger] self.emails.deep_view().map_values(f).contains(x) by {
                assert(s.deep_view().contains(x) <==> u.deep_view().contains(x));
                assert(u.deep_view().contains(x) <==> self.emails.deep_view().map_values(
                    f,
                ).contains(x));
            }
            lemma_unique_sorted_is(self.emails.deep_view().map_values(f), s.deep_view());
        }
        let mut out = s;
        let ghost sorted_dv = out.deep_view();
        out.push(String::from_str("+"));
        proof {
            assert(out.deep_view() =~= sorted_dv.push("+"@));
        }
        out
    }

    /// Position of the selected channel in the listing; one past the end
    /// when it is not listed.
    pub fn selected_channel_idx(&self) -> (r: usize)
        ensures
            r as int == spec_selected_idx(*self),
    {
        let cs = self.channels();
        let n = cs.len();
        let mut i: usize = 0;
        while i < n
            invariant
                n == cs@.len(),
                0 <= i <= n,
                cs.deep_view() == spec_channels(*self),
                forall|j: int|
                    0 <= j < i ==> #[trigger] spec_channels(*self)[j]
                        != self.selected_channel_name@,
            decreases n - i,
        {
            if str_eq(cs[i].as_str(), self.selected_channel_name.as_str()) {
                proof {
                    lemma_find_is_first(
                        spec_channels(*self),
                        self.selected_channel_name@,
                        i as int,
                    );
                }
                return i;
            }
            i += 1;
        }
        proof {
            lemma_find_none(spec_channels(*self), self.selected_channel_name@);
        }
        n
    }

    /// Name of the selected channel.
    pub fn selected_channel_name(&self) -> (r: String)
        ensures
            r@ == self.selected_channel_name@,
    {
        self.selected_channel_name.clone()
    }

    /// The emails filed under the selected channel, in their stored order.
    #[verifier::loop_isolation(false)]
    pub fn emails_for_selected_channel(&self) -> (r: Vec<String>)
        ensures
            r.deep_view() == self.emails.deep_view().filter(
                |e: Seq<char>| spec_channel_of(e) == self.selected_channel_name@,
            ),
    {
        let ghost pred = |e: Seq<char>| spec_channel_of(e) == self.selected_channel_name@;
        let ghost dv = self.emails.deep_view();
        let mut r: Vec<String> = Vec::new();
        let n = self.emails.len();
        let mut i: usize = 0;
        proof {
            reveal_with_fuel(Seq::<Seq<char>>::filter, 2);
            assert(dv.take(0) =~= Seq::<Seq<char>>::empty());
            assert(r.deep_view() =~= dv.take(0).filter(pred));
        }
        while i < n
            invariant
                n == self.emails@.len(),
                dv == self.emails.deep_view(),
                0 <= i <= n,
                r.deep_view() == dv.take(i as int).filter(pred),
            decreases n - i,
        {
            let ghost old_dv = r.deep_view();
            proof {
                assert(dv[i as int] == self.emails@[i as int]@);
            }
            let ch = email_channel(self.emails[i].as_str());
            let is_selected = str_eq(ch.as_str(), self.selected_channel_name.as_str());
            proof {
                assert(ch@ == spec_channel_of(dv[i as int]));
                assert(is_selected == pred(dv[i as int]));
            }
            if is_selected {
                let e = self.emails[i].clone();
                let ghost ev = e@;
                proof {
                    assert(ev == dv[i as int]);
                }
                r.push(e);
                proof {
                    assert(r.deep_view().len() == r@.len());
                    assert(r@.len() == old_dv.len() + 1);
                    assert forall|k: int| 0 <= k < r.deep_view().len() implies r.deep_view()[k] == (
                    if k < old_dv.len() {
                        old_dv[k]
                    } else {
                        dv[i as int]
                    }) by {
                        if k < old_dv.len() {
                            assert(r.deep_view()[k] == old_dv[k]);
                        } else {
                            assert(r.deep_view()[k] == ev);
                        }
                    }
                    assert(r.deep_view() =~= old_dv.push(dv[i as int]));
                }
            }
            proof {
                reveal_with_fuel(Seq::<Seq<char>>::filter, 2);
                assert(dv.take(i as int + 1).drop_last() =~= dv.take(i as int));
                assert(dv.take(i as int + 1).last() == dv[i as int]);
                if pred(dv[i as int]) {
                    assert(dv.take(i as int + 1).filter(pred) == dv.take(i as int).filter(
                        pred,
                    ).push(dv[i as int]));
                    assert(r.deep_view() == dv.take(i as int + 1).filter(pred));
                } else {
                    assert(dv.take(i as int + 1).filter(pred) == dv.take(i as int).filter(pred));
                    assert(r.deep_view() == dv.take(i as int + 1).filter(pred));
                }
            }
            i += 1;
        }
        proof {
            assert(dv.take(n as int) =~= dv);
        }
        r
    }

    /// Step the selection one entry up the listing, stopping at the first.
    pub fn dec_channel(&mut self)
        ensures
            final(self).composed_email_content == old(self).composed_email_content,
            final(self).emails == old(self).emails,
            final(self).selected_channel_name@ == spec_channels(*old(self))[if spec_selected_idx(
                *old(self),
            ) > 0 {
                spec_selected_idx(*old(self)) - 1
            } else {
                0
            }],
    {
        let idx = self.selected_channel_idx();
        let cs = self.channels();
        proof {
            lemma_find_props(spec_channels(*self), self.selected_channel_name@);
        }
        let new_idx = if idx > 0 {
            idx - 1
        } else {
            0
        };
        let name = cs[new_idx].clone();
        self.selected_channel_name = name;
    }

    /// Step the selection one entry down the listing, stopping at the last.
    pub fn inc_channel(&mut self)
        ensures
            final(self).composed_email_content == old(self).composed_email_content,
            final(self).emails == old(self).emails,
            final(self).selected_channel_name@ == spec_channels(*old(self))[if spec_selected_idx(
                *old(self),
            ) + 1 < spec_channels(*old(self)).len() {
                spec_selected_idx(*old(self)) + 1
            } else {
                spec_channels(*old(self)).len() - 1
            }],
    {
        let idx = self.selected_channel_idx();
        let cs = self.channels();
        proof {
            lemma_find_props(spec_channels(*self), self.selected_channel_name@);
        }
        let last = cs.len() - 1;
        let new_idx = if idx < last {
            idx + 1
        } else {
            last
        };
        let name = cs[new_idx].clone();
        self.selected_channel_name = name;
    }
}

} // verus!
