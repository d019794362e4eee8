//! The corpus dictionary builder: tallies the spellings of the words of a
//! corpus of reference names, picks the dominant spelling of each word, and
//! adds the trustworthy accented ones to the spell checker's dictionary.
use vstd::prelude::*;

use crate::error::PipelineError;
use crate::spelling::{
    errs_view, is_checker_error, knows_competitor, knows_same_accent, Misspelling, SpellCheck,
};
use crate::spelling::{competitor_known, same_accent_known};
use crate::text::{chars_of, has_accent, has_accent_spec, normed, normed_spec};

verus! {

/// What `char::is_whitespace` answers for a character.
pub uninterp spec fn is_space(c: char) -> bool;

/// What `char::is_lowercase` answers for a character.
pub uninterp spec fn is_lower(c: char) -> bool;

/// What `char::is_numeric` answers for a character.
pub uninterp spec fn is_digit_like(c: char) -> bool;

/// Relies on `char::is_whitespace`: the Unicode White_Space property.
#[verifier::external_body]
fn char_is_space(c: char) -> (r: bool)
    ensures
        r == is_space(c),
{
    c.is_whitespace()
}

/// Relies on `char::is_lowercase`: the Unicode Lowercase property.
#[verifier::external_body]
fn char_is_lower(c: char) -> (r: bool)
    ensures
        r == is_lower(c),
{
    c.is_lowercase()
}

/// Relies on `char::is_numeric`: the Unicode numeric general categories.
#[verifier::external_body]
fn char_is_numeric(c: char) -> (r: bool)
    ensures
        r == is_digit_like(c),
{
    c.is_numeric()
}

/// The maximal runs of non-whitespace characters of `s`, in order.
pub open spec fn spaced_words(s: Seq<char>) -> Seq<Seq<char>>
    decreases s.len(),
{
    if s.len() == 0 {
        Seq::empty()
    } else {
        let w = spaced_words(s.drop_last());
        if is_space(s.last()) {
            w
        } else if s.len() >= 2 && !is_space(s[s.len() - 2]) {
            w.update(w.len() - 1, w.last().push(s.last()))
        } else {
            w.push(seq![s.last()])
        }
    }
}

proof fn lemma_spaced_words_len(s: Seq<char>)
    ensures
        spaced_words(s).len() <= s.len(),
        s.len() > 0 && !is_space(s.last()) ==> spaced_words(s).len() > 0,
    decreases s.len(),
{
    if s.len() > 0 {
        let p = s.drop_last();
        lemma_spaced_words_len(p);
        if s.len() >= 2 {
            assert(p.last() == s[s.len() - 2]);
        }
    }
}

/// The whitespace-separated words of `text`.
pub fn split_words<'a>(text: &'a str) -> (r: Vec<&'a str>)
    ensures
        r@.map_values(|w: &str| w@) == spaced_words(text@),
{
    let cs = chars_of(text);
    let n = cs.len();
    let mut r: Vec<&'a str> = Vec::new();
    let mut start: usize = 0;
    let mut in_word = false;
    let mut i: usize = 0;
    while i < n
        invariant
            cs@ == text@,
            n == cs.len(),
            i <= n,
            start <= i,
            in_word <==> (i > 0 && !is_space(cs@[i - 1])),
            in_word ==> forall|k: int| start <= k < i ==> !is_space(#[trigger] cs@[k]),
            in_word ==> start < i && (start == 0 || is_space(cs@[start - 1])),
            !in_word ==> r@.map_values(|w: &str| w@) == spaced_words(text@.take(i as int)),
            in_word ==> r@.map_values(|w: &str| w@).push(text@.subrange(start as int, i as int))
                == spaced_words(text@.take(i as int)),
        decreases n - i,
    {
        let c = cs[i];
        let sp = char_is_space(c);
        let ghost rv = r@.map_values(|w: &str| w@);
        let ghost t = text@.take(i + 1);
        proof {
            assert(t.drop_last() =~= text@.take(i as int));
            assert(t.last() == c);
        }
        if sp {
            if in_word {
                let w = text.substring_char(start, i);
                r.push(w);
                assert(r@.map_values(|w: &str| w@) =~= rv.push(w@));
            }
            in_word = false;
        } else {
            if !in_word {
                start = i;
                in_word = true;
                assert(text@.subrange(start as int, i + 1) =~= seq![c]);
            } else {
                let ghost w0 = spaced_words(text@.take(i as int));
                assert(t[t.len() - 2] == cs@[i - 1]);
                assert(text@.subrange(start as int, i + 1) =~= text@.subrange(
                    start as int,
                    i as int,
                ).push(c));
                assert(rv.push(text@.subrange(start as int, i + 1)) =~= w0.update(
                    w0.len() - 1,
                    w0.last().push(c),
                ));
            }
        }
        i = i + 1;
    }
    if in_word {
        let w = text.substring_char(start, n);
        let ghost rv = r@.map_values(|w: &str| w@);
        r.push(w);
        assert(r@.map_values(|w: &str| w@) =~= rv.push(w@));
    }
    assert(text@.take(n as int) =~= text@);
    r
}

/// The sum of the counts of `vs`.
pub open spec fn sum_counts(vs: Seq<(Seq<char>, u64)>) -> nat
    decreases vs.len(),
{
    if vs.len() == 0 {
        0
    } else {
        sum_counts(vs.drop_last()) + vs.last().1 as nat
    }
}

/// The sum of the counts of all the groups of `gs`.
pub open spec fn sum_groups(gs: Seq<(Seq<char>, Seq<(Seq<char>, u64)>)>) -> nat
    decreases gs.len(),
{
    if gs.len() == 0 {
        0
    } else {
        sum_groups(gs.drop_last()) + sum_counts(gs.last().1)
    }
}

proof fn lemma_sum_counts_update(vs: Seq<(Seq<char>, u64)>, i: int, x: (Seq<char>, u64))
    requires
        0 <= i < vs.len(),
    ensures
        sum_counts(vs.update(i, x)) + vs[i].1 == sum_counts(vs) + x.1,
        vs[i].1 <= sum_counts(vs),
    decreases vs.len(),
{
    let u = vs.update(i, x);
    if i < vs.len() - 1 {
        lemma_sum_counts_update(vs.drop_last(), i, x);
        assert(u.drop_last() =~= vs.drop_last().update(i, x));
    } else {
        assert(u.drop_last() =~= vs.drop_last());
    }
}

proof fn lemma_sum_groups_update(
    gs: Seq<(Seq<char>, Seq<(Seq<char>, u64)>)>,
    i: int,
    x: (Seq<char>, Seq<(Seq<char>, u64)>),
)
    requires
        0 <= i < gs.len(),
    ensures
        sum_groups(gs.update(i, x)) + sum_counts(gs[i].1) == sum_groups(gs) + sum_counts(x.1),
        sum_counts(gs[i].1) <= sum_groups(gs),
    decreases gs.len(),
{
    let u = gs.update(i, x);
    if i < gs.len() - 1 {
        lemma_sum_groups_update(gs.drop_last(), i, x);
        assert(u.drop_last() =~= gs.drop_last().update(i, x));
    } else {
        assert(u.drop_last() =~= gs.drop_last());
    }
}

/// Whether a word of the corpus is counted: it has a lowercase letter and no
/// numeric character (acronyms in capitals and numbers are left out).
pub open spec fn countable(w: Seq<char>) -> bool {
    &&& exists|i: int| 0 <= i < w.len() && is_lower(#[trigger] w[i])
    &&& forall|i: int| 0 <= i < w.len() ==> !is_digit_like(#[trigger] w[i])
}

/// Whether the corpus counts the word `w` (see `countable`).
pub fn is_countable(w: &str) -> (r: bool)
    ensures
        r == countable(w@),
{
    let cs = chars_of(w);
    let mut has_lower = false;
    let mut i: usize = 0;
    while i < cs.len()
        invariant
            cs@ == w@,
            i <= cs.len(),
            has_lower == exists|k: int| 0 <= k < i && is_lower(#[trigger] cs@[k]),
            forall|k: int| 0 <= k < i ==> !is_digit_like(#[trigger] cs@[k]),
        decreases cs.len() - i,
    {
        if char_is_numeric(cs[i]) {
            return false;
        }
        if char_is_lower(cs[i]) {
            has_lower = true;
        }
        i = i + 1;
    }
    has_lower
}

/// `vs` with one more occurrence of the spelling `w`.
pub open spec fn bump(vs: Seq<(Seq<char>, u64)>, w: Seq<char>) -> Seq<(Seq<char>, u64)> {
    if exists|i: int| 0 <= i < vs.len() && (#[trigger] vs[i]).0 == w {
        let i = choose|i: int| 0 <= i < vs.len() && (#[trigger] vs[i]).0 == w;
        vs.update(i, (w, (vs[i].1 + 1) as u64))
    } else {
        vs.push((w, 1))
    }
}

/// The groups `gs` with one more occurrence of the word `w`, counted under
/// its key.
pub open spec fn tally_word(gs: Seq<(Seq<char>, Seq<(Seq<char>, u64)>)>, w: Seq<char>) -> Seq<
    (Seq<char>, Seq<(Seq<char>, u64)>),
> {
    let k = normed_spec(w);
    if exists|i: int| 0 <= i < gs.len() && (#[trigger] gs[i]).0 == k {
        let i = choose|i: int| 0 <= i < gs.len() && (#[trigger] gs[i]).0 == k;
        gs.update(i, (k, bump(gs[i].1, w)))
    } else {
        gs.push((k, seq![(w, 1u64)]))
    }
}

/// The groups `gs` after counting the countable words of `ws`, in order.
pub open spec fn tally_words(
    gs: Seq<(Seq<char>, Seq<(Seq<char>, u64)>)>,
    ws: Seq<Seq<char>>,
) -> Seq<(Seq<char>, Seq<(Seq<char>, u64)>)>
    decreases ws.len(),
{
    if ws.len() == 0 {
        gs
    } else if countable(ws.last()) {
        tally_word(tally_words(gs, ws.drop_last()), ws.last())
    } else {
        tally_words(gs, ws.drop_last())
    }
}

/// How many words of `ws` are countable.
pub open spec fn countable_len(ws: Seq<Seq<char>>) -> nat
    decreases ws.len(),
{
    if ws.len() == 0 {
        0
    } else {
        countable_len(ws.drop_last()) + if countable(ws.last()) {
            1nat
        } else {
            0nat
        }
    }
}

/// The position of the spelling `w` in `vs`, if it is there.
fn find_spelling(vs: &Vec<(String, u64)>, w: &str) -> (r: Option<usize>)
    ensures
        r is None <==> !exists|i: int| 0 <= i < vs@.len() && (#[trigger] vs@[i]).0@ == w@,
        r matches Some(i) ==> i < vs@.len() && vs@[i as int].0@ == w@,
{
    let mut i: usize = 0;
    while i < vs.len()
        invariant
            i <= vs.len(),
            forall|j: int| 0 <= j < i ==> (#[trigger] vs@[j]).0@ != w@,
        decreases vs.len() - i,
    {
        if vs[i].0 == w.to_string() {
            return Some(i);
        }
        i = i + 1;
    }
    None
}

/// The spellings of `vs` are distinct and all have the key `k`.
pub open spec fn group_wf(k: Seq<char>, vs: Seq<(Seq<char>, u64)>) -> bool {
    &&& vs.len() > 0
    &&& forall|a: int, b: int|
        0 <= a < b < vs.len() ==> (#[trigger] vs[a]).0 != (#[trigger] vs[b]).0
    &&& forall|a: int| 0 <= a < vs.len() ==> normed_spec((#[trigger] vs[a]).0) == k
}

/// The keys of `gs` are distinct and each group is well formed.
pub open spec fn groups_wf(gs: Seq<(Seq<char>, Seq<(Seq<char>, u64)>)>) -> bool {
    &&& forall|i: int, j: int|
        0 <= i < j < gs.len() ==> (#[trigger] gs[i]).0 != (#[trigger] gs[j]).0
    &&& forall|i: int| 0 <= i < gs.len() ==> group_wf((#[trigger] gs[i]).0, gs[i].1)
}

proof fn lemma_bump(k: Seq<char>, vs: Seq<(Seq<char>, u64)>, w: Seq<char>)
    requires
        group_wf(k, vs),
        normed_spec(w) == k,
        sum_counts(vs) < u64::MAX,
    ensures
        group_wf(k, bump(vs, w)),
        sum_counts(bump(vs, w)) == sum_counts(vs) + 1,
{
    if exists|i: int| 0 <= i < vs.len() && (#[trigger] vs[i]).0 == w {
        let i = choose|i: int| 0 <= i < vs.len() && (#[trigger] vs[i]).0 == w;
        lemma_sum_counts_update(vs, i, vs[i]);
        lemma_sum_counts_update(vs, i, (w, (vs[i].1 + 1) as u64));
        assert(vs.update(i, vs[i]) =~= vs);
        let u = bump(vs, w);
        assert forall|a: int, b: int| 0 <= a < b < u.len() implies (#[trigger] u[a]).0 != (
        #[trigger] u[b]).0 by {
            assert(u[a].0 == vs[a].0 && u[b].0 == vs[b].0);
        }
        assert forall|a: int| 0 <= a < u.len() implies normed_spec((#[trigger] u[a]).0) == k by {
            assert(u[a].0 == vs[a].0);
        }
    } else {
        let u = vs.push((w, 1u64));
        assert(u.drop_last() =~= vs);
        assert forall|a: int, b: int| 0 <= a < b < u.len() implies (#[trigger] u[a]).0 != (
        #[trigger] u[b]).0 by {
            if b == vs.len() {
                assert(u[a] == vs[a]);
            } else {
                assert(u[a] == vs[a] && u[b] == vs[b]);
            }
        }
        assert forall|a: int| 0 <= a < u.len() implies normed_spec((#[trigger] u[a]).0) == k by {
            if a < vs.len() {
                assert(u[a] == vs[a]);
            }
        }
    }
}

proof fn lemma_tally_word(gs: Seq<(Seq<char>, Seq<(Seq<char>, u64)>)>, w: Seq<char>)
    requires
        groups_wf(gs),
        sum_groups(gs) < u64::MAX,
    ensures
        groups_wf(tally_word(gs, w)),
        sum_groups(tally_word(gs, w)) == sum_groups(gs) + 1,
{
    let k = normed_spec(w);
    if exists|i: int| 0 <= i < gs.len() && (#[trigger] gs[i]).0 == k {
        let i = choose|i: int| 0 <= i < gs.len() && (#[trigger] gs[i]).0 == k;
        lemma_sum_groups_update(gs, i, gs[i]);
        assert(group_wf(gs[i].0, gs[i].1));
        lemma_bump(k, gs[i].1, w);
        let x = (k, bump(gs[i].1, w));
        lemma_sum_groups_update(gs, i, x);
        let u = tally_word(gs, w);
        assert(u == gs.update(i, x));
        assert forall|a: int, b: int| 0 <= a < b < u.len() implies (#[trigger] u[a]).0 != (
        #[trigger] u[b]).0 by {
            assert(u[a].0 == gs[a].0 && u[b].0 == gs[b].0);
        }
        assert forall|a: int| 0 <= a < u.len() implies group_wf((#[trigger] u[a]).0, u[a].1) by {
            if a != i {
                assert(u[a] == gs[a]);
            }
        }
    } else {
        let x = (k, seq![(w, 1u64)]);
        let u = gs.push(x);
        assert(u.drop_last() =~= gs);
        let one = seq![(w, 1u64)];
        assert(one.drop_last() =~= Seq::<(Seq<char>, u64)>::empty());
        assert(sum_counts(one.drop_last()) == 0);
        assert(one.last().1 == 1u64);
        assert(sum_counts(one) == 1);
        assert forall|a: int, b: int| 0 <= a < b < u.len() implies (#[trigger] u[a]).0 != (
        #[trigger] u[b]).0 by {
            if b == gs.len() {
                assert(u[a] == gs[a]);
            } else {
                assert(u[a] == gs[a] && u[b] == gs[b]);
            }
        }
        assert forall|a: int| 0 <= a < u.len() implies group_wf((#[trigger] u[a]).0, u[a].1) by {
            if a < gs.len() {
                assert(u[a] == gs[a]);
            }
        }
    }
}

/// How often the groups `gs` counted the spelling `w`: the count held under
/// its key, 0 if none.
pub open spec fn count_in(gs: Seq<(Seq<char>, Seq<(Seq<char>, u64)>)>, w: Seq<char>) -> u64 {
    if exists|i: int, a: int|
        0 <= i < gs.len() && 0 <= a < gs[i].1.len() && gs[i].0 == normed_spec(w) && (
        #[trigger] gs[i].1[a]).0 == w {
        let (i, a) = choose|i: int, a: int|
            0 <= i < gs.len() && 0 <= a < gs[i].1.len() && gs[i].0 == normed_spec(w) && (
            #[trigger] gs[i].1[a]).0 == w;
        gs[i].1[a].1
    } else {
        0
    }
}

/// How often each spelling of each word occurs in a corpus: the spellings
/// are grouped by their key (see `normed`), both in order of first occurrence.
pub struct CorpusTally {
    groups: Vec<(String, Vec<(String, u64)>)>,
    total: u64,
}

impl CorpusTally {
    /// The groups: each key, with its spellings and their counts.
    pub closed spec fn groups(&self) -> Seq<(Seq<char>, Seq<(Seq<char>, u64)>)> {
        self.groups@.map_values(
            |g: (String, Vec<(String, u64)>)|
                (g.0@, g.1@.map_values(|e: (String, u64)| (e.0@, e.1))),
        )
    }

    /// The number of words counted so far: the corpus size.
    pub closed spec fn total(&self) -> nat {
        self.total as nat
    }

    /// Keys are distinct, each group holds distinct spellings of its key, and
    /// the counts add up to the total.
    pub open spec fn wf(&self) -> bool {
        &&& groups_wf(self.groups())
        &&& self.total() == sum_groups(self.groups())
    }

    /// An empty tally.
    pub fn new() -> (r: Self)
        ensures
            r.wf(),
            r.groups() == Seq::<(Seq<char>, Seq<(Seq<char>, u64)>)>::empty(),
            r.total() == 0,
    {
        let r = CorpusTally { groups: Vec::new(), total: 0 };
        assert(r.groups() =~= Seq::<(Seq<char>, Seq<(Seq<char>, u64)>)>::empty());
        r
    }

    /// The position of the group of key `k`, if there is one.
    fn find_group(&self, k: &String) -> (r: Option<usize>)
        requires
            self.wf(),
        ensures
            r is None <==> !exists|i: int|
                0 <= i < self.groups().len() && (#[trigger] self.groups()[i]).0 == k@,
            r matches Some(i) ==> i < self.groups().len() && self.groups()[i as int].0 == k@,
    {
        let mut i: usize = 0;
        while i < self.groups.len()
            invariant
                i <= self.groups.len(),
                self.groups().len() == self.groups@.len(),
                forall|j: int| 0 <= j < i ==> (#[trigger] self.groups()[j]).0 != k@,
            decreases self.groups.len() - i,
        {
            if self.groups[i].0 == *k {
                assert(self.groups()[i as int].0 == k@);
                return Some(i);
            }
            i = i + 1;
        }
        None
    }

    /// Counts one more occurrence of `w`, under its key.
    pub fn count_word(&mut self, w: &str)
        requires
            old(self).wf(),
            old(self).total() < u64::MAX,
        ensures
            final(self).wf(),
            final(self).groups() == tally_word(old(self).groups(), w@),
            final(self).total() == old(self).total() + 1,
    {
        let ghost gs = self.groups();
        proof {
            lemma_tally_word(gs, w@);
        }
        let k = normed(w);
        match self.find_group(&k) {
            Some(gi) => {
                let mut g: (String, Vec<(String, u64)>) = (String::new(), Vec::new());
                self.groups.set_and_swap(gi, &mut g);
                let ghost vs = gs[gi as int].1;
                assert(vs == g.1@.map_values(|e: (String, u64)| (e.0@, e.1)));
                proof {
                    lemma_sum_groups_update(gs, gi as int, gs[gi as int]);
                }
                match find_spelling(&g.1, w) {
                    Some(vi) => {
                        let c = g.1[vi].1;
                        proof {
                            lemma_sum_counts_update(vs, vi as int, vs[vi as int]);
                        }
                        g.1.set(vi, (w.to_string(), c + 1));
                    },
                    None => {
                        g.1.push((w.to_string(), 1));
                    },
                }
                let ghost nvs = g.1@.map_values(|e: (String, u64)| (e.0@, e.1));
                assert(nvs == bump(vs, w@));
                self.groups.set(gi, g);
                assert(self.groups() =~= gs.update(gi as int, (k@, nvs)));
                assert(self.groups() == tally_word(gs, w@));
            },
            None => {
                let mut vs: Vec<(String, u64)> = Vec::new();
                vs.push((w.to_string(), 1));
                let ghost nvs = vs@.map_values(|e: (String, u64)| (e.0@, e.1));
                assert(nvs =~= seq![(w@, 1u64)]);
                self.groups.push((k, vs));
                assert(self.groups() =~= gs.push((normed_spec(w@), seq![(w@, 1u64)])));
            },
        }
        self.total = self.total + 1;
    }

    /// Counts the countable whitespace-separated words of `text` (see
    /// `countable`), in order.
    pub fn add_text(&mut self, text: &str)
        requires
            old(self).wf(),
            old(self).total() + text@.len() <= u64::MAX,
        ensures
            final(self).wf(),
            final(self).groups() == tally_words(old(self).groups(), spaced_words(text@)),
            final(self).total() == old(self).total() + countable_len(spaced_words(text@)),
    {
        let words = split_words(text);
        let ghost ws = words@.map_values(|w: &str| w@);
        proof {
            lemma_spaced_words_len(text@);
        }
        let mut i: usize = 0;
        while i < words.len()
            invariant
                i <= words.len(),
                ws == words@.map_values(|w: &str| w@),
                ws == spaced_words(text@),
                ws.len() <= text@.len(),
                old(self).total() + text@.len() <= u64::MAX,
                self.wf(),
                self.groups() == tally_words(old(self).groups(), ws.take(i as int)),
                self.total() == old(self).total() + countable_len(ws.take(i as int)),
                countable_len(ws.take(i as int)) <= i,
            decreases words.len() - i,
        {
            proof {
                assert(ws.take(i + 1).drop_last() =~= ws.take(i as int));
                assert(ws.take(i + 1).last() == words@[i as int]@);
            }
            if is_countable(words[i]) {
                self.count_word(words[i]);
            }
            i = i + 1;
        }
        assert(ws.take(words.len() as int) =~= ws);
    }

    /// The number of distinct keys counted so far.
    pub fn key_count(&self) -> (r: usize)
        ensures
            r == self.groups().len(),
    {
        self.groups.len()
    }

    /// How often the spelling `w` was counted.
    pub fn count_of(&self, w: &str) -> (r: u64)
        requires
            self.wf(),
        ensures
            r == count_in(self.groups(), w@),
    {
        let k = normed(w);
        match self.find_group(&k) {
            Some(gi) => {
                let vs = &self.groups[gi].1;
                let ghost gv = self.groups()[gi as int];
                assert(gv.1 == vs@.map_values(|e: (String, u64)| (e.0@, e.1)));
                match find_spelling(vs, w) {
                    Some(vi) => {
                        assert(gv.1[vi as int].0 == w@);
                        vs[vi].1
                    },
                    None => {
                        assert forall|a: int| 0 <= a < gv.1.len() implies (#[trigger] gv.1[a]).0
                            != w@ by {
                            assert(gv.1[a].0 == vs@[a].0@);
                        }
                        0
                    },
                }
            },
            None => 0,
        }
    }

    /// The number of words counted so far.
    pub fn corpus_size(&self) -> (r: u64)
        ensures
            r == self.total(),
    {
        self.total
    }
}

/// The position of the first of the highest counts of `vs`.
pub open spec fn first_max_index(vs: Seq<(Seq<char>, u64)>) -> int
    decreases vs.len(),
{
    if vs.len() <= 1 {
        0
    } else {
        let f = first_max_index(vs.drop_last());
        if vs.last().1 > vs[f].1 {
            vs.len() - 1
        } else {
            f
        }
    }
}

/// The highest count of `vs` at a position other than `skip` (0 if none).
pub open spec fn max_count_except(vs: Seq<(Seq<char>, u64)>, skip: int) -> u64
    decreases vs.len(),
{
    if vs.len() == 0 {
        0
    } else {
        let m = max_count_except(vs.drop_last(), skip);
        if vs.len() - 1 == skip || vs.last().1 <= m {
            m
        } else {
            vs.last().1
        }
    }
}

/// The dominant spelling among the counted spellings `vs`: the first of the
/// most frequent, where the runner-up count is 0 or at most a quarter of it
/// (in integer division: `first / second >= 4`).
pub open spec fn interesting_word(vs: Seq<(Seq<char>, u64)>) -> Option<Seq<char>> {
    let f = first_max_index(vs);
    let second = max_count_except(vs, f);
    if second == 0 || vs[f].1 / second >= 4 {
        Some(vs[f].0)
    } else {
        None
    }
}

proof fn lemma_first_max(vs: Seq<(Seq<char>, u64)>)
    requires
        vs.len() > 0,
    ensures
        0 <= first_max_index(vs) < vs.len(),
        forall|j: int| 0 <= j < vs.len() ==> (#[trigger] vs[j]).1 <= vs[first_max_index(vs)].1,
        forall|j: int|
            0 <= j < first_max_index(vs) ==> (#[trigger] vs[j]).1 < vs[first_max_index(vs)].1,
        max_count_except(vs, vs.len() as int) == vs[first_max_index(vs)].1,
    decreases vs.len(),
{
    let n = vs.len() as int;
    if n == 1 {
        assert(vs.drop_last().len() == 0);
        assert(max_count_except(vs.drop_last(), n) == 0);
    } else {
        let p = vs.drop_last();
        lemma_first_max(p);
        lemma_max_except_beyond(p, n);
        let f = first_max_index(p);
        assert(forall|j: int| 0 <= j < p.len() ==> p[j] == vs[j]);
        if vs.last().1 > vs[f].1 {
            assert(first_max_index(vs) == n - 1);
        } else {
            assert(first_max_index(vs) == f);
        }
    }
}

proof fn lemma_max_except_beyond(vs: Seq<(Seq<char>, u64)>, skip: int)
    requires
        skip >= vs.len(),
    ensures
        max_count_except(vs, skip) == max_count_except(vs, vs.len() as int),
    decreases vs.len(),
{
    if vs.len() > 0 {
        lemma_max_except_beyond(vs.drop_last(), skip);
        lemma_max_except_beyond(vs.drop_last(), vs.len() as int);
        lemma_max_except_beyond(vs.drop_last(), vs.len() - 1);
    }
}

/// The dominant spelling among `map`'s spellings and counts (see
/// `interesting_word`).
pub fn get_interesting_word(map: &Vec<(String, u64)>) -> (r: Option<String>)
    requires
        map.len() > 0,
    ensures
        r matches Some(w) ==> interesting_word(map@.map_values(|e: (String, u64)| (e.0@, e.1)))
            == Some(w@),
        r is None ==> interesting_word(map@.map_values(|e: (String, u64)| (e.0@, e.1))) is None,
{
    let ghost vs = map@.map_values(|e: (String, u64)| (e.0@, e.1));
    let mut first: usize = 0;
    let mut second_max_count: u64 = 0;
    let mut i: usize = 1;
    proof {
        assert(vs.take(1).drop_last() =~= Seq::<(Seq<char>, u64)>::empty());
        assert(max_count_except(Seq::<(Seq<char>, u64)>::empty(), 0) == 0);
    }
    while i < map.len()
        invariant
            1 <= i <= map.len(),
            vs == map@.map_values(|e: (String, u64)| (e.0@, e.1)),
            first == first_max_index(vs.take(i as int)),
            second_max_count == max_count_except(vs.take(i as int), first as int),
        decreases map.len() - i,
    {
        let ghost p = vs.take(i as int);
        let ghost q = vs.take(i + 1);
        proof {
            assert(q.drop_last() =~= p);
            assert(q.last() == vs[i as int]);
            lemma_first_max(p);
            assert(p[first as int] == vs[first as int]);
        }
        let c = map[i].1;
        if c > map[first].1 {
            proof {
                lemma_max_except_beyond(p, i as int);
                assert(max_count_except(q, i as int) == max_count_except(p, i as int));
            }
            second_max_count = map[first].1;
            first = i;
        } else if c > second_max_count {
            second_max_count = c;
        }
        i = i + 1;
    }
    proof {
        assert(vs.take(map.len() as int) =~= vs);
        lemma_first_max(vs);
    }
    if second_max_count == 0 || map[first].1 / second_max_count >= 4 {
        Some(map[first].0.clone())
    } else {
        None
    }
}

/// A dominant spelling that the spell checker already knows in another
/// spelling is still added when it makes at least one word in this many of
/// the corpus.
pub const RARE_WORD_DIVISOR: u64 = 100000;

/// Whether the dominant spelling `word`, seen `count` times in a corpus of
/// `corpus_size` words, goes into the dictionary, given the checker's report
/// `errs` on it: it carries a diacritic, the checker does not know it up to
/// case, and it is frequent enough or the checker knows no spelling of its key.
pub open spec fn should_inject(
    word: Seq<char>,
    count: nat,
    corpus_size: nat,
    errs: Seq<(Seq<char>, Seq<Seq<char>>)>,
) -> bool {
    &&& has_accent_spec(word)
    &&& !knows_same_accent(word, errs)
    &&& (count >= corpus_size / (RARE_WORD_DIVISOR as nat) || !knows_competitor(word, errs))
}

/// Whether `word` goes into the dictionary (see `should_inject`), given the
/// checker's report `errors` on it.
pub fn injection_decision(
    word: &str,
    count: u64,
    corpus_size: u64,
    errors: &Vec<Misspelling>,
) -> (r: bool)
    ensures
        r == should_inject(word@, count as nat, corpus_size as nat, errs_view(errors@)),
        !has_accent_spec(word@) ==> !r,
{
    has_accent(word) && !same_accent_known(word, errors) && (count >= corpus_size
        / RARE_WORD_DIVISOR || !competitor_known(word, errors))
}

/// The dominant spellings of the groups `gs` that carry a diacritic, in
/// group order (see `interesting_word`).
pub open spec fn dominant_accented(gs: Seq<(Seq<char>, Seq<(Seq<char>, u64)>)>) -> Seq<Seq<char>>
    decreases gs.len(),
{
    if gs.len() == 0 {
        Seq::empty()
    } else {
        let d = dominant_accented(gs.drop_last());
        match interesting_word(gs.last().1) {
            Some(v) => if has_accent_spec(v) {
                d.push(v)
            } else {
                d
            },
            None => d,
        }
    }
}

/// The words of a log of decisions.
pub open spec fn log_words(log: Seq<(Seq<char>, Seq<(Seq<char>, Seq<Seq<char>>)>)>) -> Seq<
    Seq<char>,
> {
    log.map_values(|e: (Seq<char>, Seq<(Seq<char>, Seq<Seq<char>>)>)| e.0)
}

/// The words of `log` that go into the dictionary: those that
/// `should_inject` accepts, given their count in `gs`, the corpus size
/// `total` and the report logged with them.
pub open spec fn chosen(
    log: Seq<(Seq<char>, Seq<(Seq<char>, Seq<Seq<char>>)>)>,
    gs: Seq<(Seq<char>, Seq<(Seq<char>, u64)>)>,
    total: nat,
) -> Seq<Seq<char>>
    decreases log.len(),
{
    if log.len() == 0 {
        Seq::empty()
    } else {
        let c = chosen(log.drop_last(), gs, total);
        let e = log.last();
        if should_inject(e.0, count_in(gs, e.0) as nat, total, e.1) {
            c.push(e.0)
        } else {
            c
        }
    }
}

proof fn lemma_chosen_from_log(
    log: Seq<(Seq<char>, Seq<(Seq<char>, Seq<Seq<char>>)>)>,
    gs: Seq<(Seq<char>, Seq<(Seq<char>, u64)>)>,
    total: nat,
)
    ensures
        forall|j: int|
            0 <= j < chosen(log, gs, total).len() ==> exists|k: int|
                0 <= k < log.len() && #[trigger] chosen(log, gs, total)[j] == log[k].0,
    decreases log.len(),
{
    if log.len() > 0 {
        let p = log.drop_last();
        lemma_chosen_from_log(p, gs, total);
        let c = chosen(log, gs, total);
        assert forall|j: int| 0 <= j < c.len() implies exists|k: int|
            0 <= k < log.len() && #[trigger] c[j] == log[k].0 by {
            if j < chosen(p, gs, total).len() {
                assert(c[j] == chosen(p, gs, total)[j]);
                let k = choose|k: int| 0 <= k < p.len() && chosen(p, gs, total)[j] == p[k].0;
                assert(p[k] == log[k]);
            } else {
                assert(c[j] == log[log.len() - 1].0);
            }
        }
    }
}

proof fn lemma_dominant_props(gs: Seq<(Seq<char>, Seq<(Seq<char>, u64)>)>)
    ensures
        forall|j: int|
            0 <= j < dominant_accented(gs).len() ==> has_accent_spec(
                #[trigger] dominant_accented(gs)[j],
            ) && exists|i: int|
                0 <= i < gs.len() && interesting_word(gs[i].1) == Some(dominant_accented(gs)[j]),
    decreases gs.len(),
{
    if gs.len() > 0 {
        let p = gs.drop_last();
        lemma_dominant_props(p);
        let d = dominant_accented(gs);
        let dp = dominant_accented(p);
        assert forall|j: int| 0 <= j < d.len() implies has_accent_spec(#[trigger] d[j]) && exists|
            i: int,
        | 0 <= i < gs.len() && interesting_word(gs[i].1) == Some(d[j]) by {
            if j < dp.len() {
                assert(d[j] == dp[j]);
                let i = choose|i: int| 0 <= i < p.len() && interesting_word(p[i].1) == Some(dp[j]);
                assert(p[i] == gs[i]);
            } else {
                assert(interesting_word(gs[gs.len() - 1].1) == Some(d[j]));
            }
        }
    }
}

proof fn lemma_dominant_grows(gs: Seq<(Seq<char>, Seq<(Seq<char>, u64)>)>, k: int)
    requires
        0 <= k <= gs.len(),
    ensures
        dominant_accented(gs.take(k)).len() <= dominant_accented(gs).len(),
    decreases gs.len() - k,
{
    if k < gs.len() {
        let p = gs.drop_last();
        assert(p.take(k) =~= gs.take(k));
        lemma_dominant_grows(p, k);
    } else {
        assert(gs.take(k) =~= gs);
    }
}

/// Offers the dominant spelling of each key of `tally` that carries a
/// diacritic to `SpellCheck::should_add`, in order, with its count and the
/// corpus size, and adds to the checker's dictionary those it accepts,
/// which are returned in order. A refused addition is ignored; only a
/// failing query stops the run.
pub fn populate_dictionary(tally: &CorpusTally, spell: &mut SpellCheck) -> (r: Result<
    Vec<String>,
    PipelineError,
>)
    requires
        tally.wf(),
    ensures
        final(spell).consulted().len() >= old(spell).consulted().len(),
        final(spell).consulted().take(old(spell).consulted().len() as int) == old(
            spell,
        ).consulted(),
        final(spell).added().len() >= old(spell).added().len(),
        final(spell).added().take(old(spell).added().len() as int) == old(spell).added(),
        final(spell).added().skip(old(spell).added().len() as int) == chosen(
            final(spell).consulted().skip(old(spell).consulted().len() as int),
            tally.groups(),
            tally.total(),
        ),
        r matches Ok(added) ==> log_words(
            final(spell).consulted().skip(old(spell).consulted().len() as int),
        ) == dominant_accented(tally.groups()),
        r matches Ok(added) ==> added@.map_values(|s: String| s@) == final(spell).added().skip(
            old(spell).added().len() as int,
        ),
        r matches Ok(added) ==> forall|j: int|
            0 <= j < added@.len() ==> has_accent_spec((#[trigger] added@[j])@) && exists|i: int|
                0 <= i < tally.groups().len() && interesting_word(tally.groups()[i].1) == Some(
                    added@[j]@,
                ),
        r is Ok <==> final(spell).failures() == old(spell).failures(),
        dominant_accented(tally.groups()).len() == 0 ==> r is Ok,
        r matches Err(e) ==> is_checker_error(e),
{
    let ghost gs = tally.groups();
    let ghost l0 = spell.consulted();
    let ghost a0 = spell.added();
    let size = tally.total;
    let mut added: Vec<String> = Vec::new();
    let mut i: usize = 0;
    while i < tally.groups.len()
        invariant
            tally.wf(),
            gs == tally.groups(),
            i <= tally.groups.len(),
            size == tally.total(),
            l0 == old(spell).consulted(),
            spell.consulted().len() >= l0.len(),
            spell.consulted().take(l0.len() as int) == l0,
            log_words(spell.consulted().skip(l0.len() as int)) == dominant_accented(
                gs.take(i as int),
            ),
            added@.map_values(|s: String| s@) == chosen(
                spell.consulted().skip(l0.len() as int),
                gs,
                size as nat,
            ),
            a0 == old(spell).added(),
            spell.added().len() >= a0.len(),
            spell.added().take(a0.len() as int) == a0,
            spell.added().skip(a0.len() as int) == added@.map_values(|s: String| s@),
            spell.failures() == old(spell).failures(),
        decreases tally.groups.len() - i,
    {
        let vs = &tally.groups[i].1;
        let ghost gv = gs[i as int];
        let ghost d0 = spell.consulted().skip(l0.len() as int);
        let ghost av = added@.map_values(|s: String| s@);
        let ghost sa = spell.added();
        assert(gv.1 == vs@.map_values(|e: (String, u64)| (e.0@, e.1)));
        assert(group_wf(gv.0, gv.1));
        assert(gs.take(i + 1).drop_last() =~= gs.take(i as int));
        assert(gs.take(i + 1).last() == gv);
        match get_interesting_word(vs) {
            Some(v) => {
                proof {
                    lemma_first_max(gv.1);
                }
                let ghost f = first_max_index(gv.1);
                assert(vs@[f].0@ == v@);
                assert(gv.1[f].0 == v@);
                match find_spelling(vs, v.as_str()) {
                    Some(vi) => {
                        let count = vs[vi].1;
                        proof {
                            assert(gv.1[vi as int].0 == v@);
                            assert(normed_spec(v@) == gv.0);
                            let (ci, ca) = choose|ci: int, ca: int|
                                0 <= ci < gs.len() && 0 <= ca < gs[ci].1.len() && gs[ci].0
                                    == normed_spec(v@) && (#[trigger] gs[ci].1[ca]).0 == v@;
                            assert(ci == i);
                            assert(ca == vi);
                            assert(count_in(gs, v@) == count);
                        }
                        let decided = spell.should_add(v.as_str(), count, size);
                        let accepted = match decided {
                            Ok(b) => b,
                            Err(e) => {
                                proof {
                                    assert(has_accent_spec(v@));
                                    assert(dominant_accented(gs.take(i + 1)).len() > 0);
                                    lemma_dominant_grows(gs, i + 1);
                                    assert(gs.take(gs.len() as int) =~= gs);
                                }
                                return Err(e);
                            },
                        };
                        let ghost d1 = spell.consulted().skip(l0.len() as int);
                        proof {
                            if has_accent_spec(v@) {
                                assert(d1 =~= d0.push((v@, spell.report())));
                                assert(log_words(d1) =~= log_words(d0).push(v@));
                                assert(d1.drop_last() =~= d0);
                            } else {
                                assert(d1 == d0);
                            }
                        }
                        if accepted {
                            let _ = spell.add_word(v.as_str());
                            added.push(v);
                            assert(added@.map_values(|s: String| s@) =~= av.push(
                                added@.last()@,
                            ));
                            assert(spell.added().skip(a0.len() as int) =~= sa.skip(
                                a0.len() as int,
                            ).push(added@.last()@));
                            assert(spell.added().take(a0.len() as int) =~= sa.take(
                                a0.len() as int,
                            ));
                        }
                    },
                    None => {
                        assert(false);
                    },
                }
            },
            None => {
            },
        }
        i = i + 1;
    }
    assert(gs.take(tally.groups.len() as int) =~= gs);
    proof {
        let log = spell.consulted().skip(l0.len() as int);
        lemma_chosen_from_log(log, gs, size as nat);
        lemma_dominant_props(gs);
        assert forall|j: int| 0 <= j < added@.len() implies has_accent_spec(
            (#[trigger] added@[j])@,
        ) && exists|i: int|
            0 <= i < gs.len() && interesting_word(gs[i].1) == Some(added@[j]@) by {
            assert(added@.map_values(|s: String| s@)[j] == added@[j]@);
            let k = choose|k: int|
                0 <= k < log.len() && chosen(log, gs, size as nat)[j] == log[k].0;
            assert(log_words(log)[k] == log[k].0);
            assert(dominant_accented(gs)[k] == added@[j]@);
        }
    }
    Ok(added)
}

} // verus!
