//! Text primitives: word splitting, case transforms and the comparison key
//! that ignores accents and case.
use vstd::prelude::*;

verus! {

/// What `char::is_alphanumeric` answers for a character.
pub uninterp spec fn is_alnum(c: char) -> bool;

/// Relies on `char::is_alphanumeric`: the Unicode alphabetic or numeric property.
#[verifier::external_body]
fn char_is_alnum(c: char) -> (r: bool)
    ensures
        r == is_alnum(c),
{
    c.is_alphanumeric()
}

/// What `char::to_uppercase` yields for a character.
pub uninterp spec fn upper_char(c: char) -> Seq<char>;

/// What `char::to_lowercase` yields for a character.
pub uninterp spec fn lower_char(c: char) -> Seq<char>;

/// What `str::to_lowercase` returns for a string.
pub uninterp spec fn lower_str(s: Seq<char>) -> Seq<char>;

/// What `str::to_uppercase` returns for a string.
pub uninterp spec fn upper_str(s: Seq<char>) -> Seq<char>;

/// The compatibility decomposition (NFKD) of a string, as `unicode_normalization` computes it.
pub uninterp spec fn nfkd_of(s: Seq<char>) -> Seq<char>;

/// Whether `unicode_normalization` classifies a character as a combining mark.
pub uninterp spec fn is_mark(c: char) -> bool;

/// Relies on `char::to_uppercase`: the uppercase mapping of one character.
#[verifier::external_body]
fn char_upper(c: char) -> (r: String)
    ensures
        r@ == upper_char(c),
{
    c.to_uppercase().collect()
}

/// Relies on `char::to_lowercase`: the lowercase mapping of one character.
#[verifier::external_body]
fn char_lower(c: char) -> (r: String)
    ensures
        r@ == lower_char(c),
{
    c.to_lowercase().collect()
}

/// Relies on `str::to_lowercase`: the lowercase mapping of a string.
#[verifier::external_body]
pub(crate) fn str_lower(s: &str) -> (r: String)
    ensures
        r@ == lower_str(s@),
{
    s.to_lowercase()
}

/// Relies on `str::to_uppercase`: the uppercase mapping of a string.
#[verifier::external_body]
pub(crate) fn str_upper(s: &str) -> (r: String)
    ensures
        r@ == upper_str(s@),
{
    s.to_uppercase()
}

/// Relies on `UnicodeNormalization::nfkd`: the NFKD form of a string.
#[verifier::external_body]
fn nfkd(s: &str) -> (r: String)
    ensures
        r@ == nfkd_of(s@),
{
    unicode_normalization::UnicodeNormalization::nfkd(s).collect()
}

/// Relies on `unicode_normalization::char::is_combining_mark`.
#[verifier::external_body]
fn char_is_mark(c: char) -> (r: bool)
    ensures
        r == is_mark(c),
{
    unicode_normalization::char::is_combining_mark(c)
}

/// Every character of `s` mapped to lowercase, the results joined in order.
pub open spec fn lower_each(s: Seq<char>) -> Seq<char>
    decreases s.len(),
{
    if s.len() == 0 {
        s
    } else {
        lower_each(s.drop_last()) + lower_char(s.last())
    }
}

/// `s` with its first character in uppercase and the rest untouched.
pub open spec fn first_upper_spec(s: Seq<char>) -> Seq<char> {
    if s.len() == 0 {
        s
    } else {
        upper_char(s[0]) + s.drop_first()
    }
}

/// `s` with its first character in uppercase and every other in lowercase.
pub open spec fn title_word(s: Seq<char>) -> Seq<char> {
    if s.len() == 0 {
        s
    } else {
        upper_char(s[0]) + lower_each(s.drop_first())
    }
}

/// Every word of `s` (see `tokens`) title-cased, the words joined in order.
pub open spec fn snake_case_spec(s: Seq<char>) -> Seq<char> {
    tokens(s).map_values(|w: Seq<char>| title_word(w)).flatten()
}

/// The comparison key of a word: its NFKD form without combining marks, in lowercase.
pub open spec fn normed_spec(s: Seq<char>) -> Seq<char> {
    lower_each(nfkd_of(s).filter(|c: char| !is_mark(c)))
}

/// Whether the NFKD form of `s` holds a combining mark.
pub open spec fn has_accent_spec(s: Seq<char>) -> bool {
    exists|i: int| 0 <= i < nfkd_of(s).len() && is_mark(#[trigger] nfkd_of(s)[i])
}

proof fn lemma_filter_keeps_all(s: Seq<char>)
    requires
        forall|i: int| 0 <= i < s.len() ==> !is_mark(#[trigger] s[i]),
    ensures
        s.filter(|c: char| !is_mark(c)) == s,
    decreases s.len(),
{
    if s.len() > 0 {
        let p = s.drop_last();
        assert forall|i: int| 0 <= i < p.len() implies !is_mark(#[trigger] p[i]) by {
            assert(p[i] == s[i]);
        }
        lemma_filter_keeps_all(p);
        assert(p.push(s.last()) =~= s);
        p.lemma_filter_push(s.last(), |c: char| !is_mark(c));
    }
}

proof fn lemma_lower_each_fixed(s: Seq<char>)
    requires
        forall|i: int| 0 <= i < s.len() ==> lower_char(#[trigger] s[i]) == seq![s[i]],
    ensures
        lower_each(s) == s,
    decreases s.len(),
{
    if s.len() > 0 {
        let p = s.drop_last();
        assert forall|i: int| 0 <= i < p.len() implies lower_char(#[trigger] p[i]) == seq![
            p[i],
        ] by {
            assert(p[i] == s[i]);
        }
        lemma_lower_each_fixed(p);
        assert(lower_char(s[s.len() - 1]) == seq![s.last()]);
        assert(p + seq![s.last()] =~= s);
    }
}

/// Taking the comparison key twice gives the key once: `normed(normed(x)) ==
/// normed(x)`. This rests on three facts of Unicode about the key `y` of `x`
/// that the normalization and case-mapping tables decide and that are
/// required here: `y` is already in NFKD form, holds no combining mark, and
/// each of its characters is its own lowercase mapping.
pub proof fn lemma_normed_idempotent(x: Seq<char>)
    requires
        nfkd_of(normed_spec(x)) == normed_spec(x),
        forall|i: int|
            0 <= i < normed_spec(x).len() ==> !is_mark(#[trigger] normed_spec(x)[i]),
        forall|i: int|
            0 <= i < normed_spec(x).len() ==> lower_char(#[trigger] normed_spec(x)[i]) == seq![
                normed_spec(x)[i],
            ],
    ensures
        normed_spec(normed_spec(x)) == normed_spec(x),
{
    let y = normed_spec(x);
    lemma_filter_keeps_all(y);
    lemma_lower_each_fixed(y);
}

/// The maximal runs of `s` whose characters are all alphanumeric or all
/// not alphanumeric, in order. The empty string has one empty run.
pub open spec fn tokens(s: Seq<char>) -> Seq<Seq<char>>
    decreases s.len(),
{
    if s.len() <= 1 {
        seq![s]
    } else {
        let t = tokens(s.drop_last());
        if is_alnum(s.last()) == is_alnum(s[s.len() - 2]) {
            t.update(t.len() - 1, t.last().push(s.last()))
        } else {
            t.push(seq![s.last()])
        }
    }
}

proof fn lemma_tokens_nonempty(s: Seq<char>)
    ensures
        tokens(s).len() >= 1,
    decreases s.len(),
{
    if s.len() > 1 {
        lemma_tokens_nonempty(s.drop_last());
    }
}

proof fn lemma_tokens_flatten_alt(s: Seq<char>)
    ensures
        tokens(s).flatten_alt() == s,
    decreases s.len(),
{
    if s.len() <= 1 {
        assert(seq![s].drop_last() =~= Seq::<Seq<char>>::empty());
        assert(Seq::<Seq<char>>::empty().flatten_alt() == Seq::<char>::empty());
        assert(seq![s].flatten_alt() =~= s);
    } else {
        let p = s.drop_last();
        let t = tokens(p);
        lemma_tokens_flatten_alt(p);
        lemma_tokens_nonempty(p);
        assert(t.flatten_alt() == t.drop_last().flatten_alt() + t.last());
        if is_alnum(s.last()) == is_alnum(s[s.len() - 2]) {
            let u = t.update(t.len() - 1, t.last().push(s.last()));
            assert(u.drop_last() =~= t.drop_last());
            assert(u.last() == t.last().push(s.last()));
            assert(s =~= p.push(s.last()));
            assert(u.flatten_alt() == u.drop_last().flatten_alt() + u.last());
            assert(t.drop_last().flatten_alt() + t.last().push(s.last()) =~= (
            t.drop_last().flatten_alt() + t.last()).push(s.last()));
            assert(u.flatten_alt() =~= s);
        } else {
            let u = t.push(seq![s.last()]);
            assert(u.drop_last() =~= t);
            assert(u.flatten_alt() == u.drop_last().flatten_alt() + u.last());
            assert(u.flatten_alt() =~= s);
        }
    }
}

/// Splitting into words loses nothing: the words of `s`, concatenated in
/// order, give back `s` exactly.
pub proof fn lemma_tokens_round_trip(s: Seq<char>)
    ensures
        tokens(s).flatten() == s,
{
    lemma_tokens_flatten_alt(s);
    tokens(s).lemma_flatten_and_flatten_alt_are_equivalent();
}

/// The characters of `s`, in order.
pub fn chars_of(s: &str) -> (r: Vec<char>)
    ensures
        r@ == s@,
{
    let mut r: Vec<char> = Vec::new();
    for c in it: s.chars()
        invariant
            r@ == it.seq().take(it.index() as int),
    {
        r.push(c);
    }
    r
}

/// Splits `name` into its maximal alphanumeric and non-alphanumeric runs.
pub fn get_words<'a>(name: &'a str) -> (words: Vec<&'a str>)
    ensures
        words@.map_values(|w: &str| w@) == tokens(name@),
{
    let cs = chars_of(name);
    let n = cs.len();
    let mut words: Vec<&'a str> = Vec::new();
    let mut start: usize = 0;
    let mut current = if n > 0 { char_is_alnum(cs[0]) } else { true };
    let mut i: usize = 0;
    while i < n
        invariant
            cs@ == name@,
            n == cs.len(),
            start <= i <= n,
            i == 0 ==> start == 0 && words@.len() == 0,
            i == 0 && n > 0 ==> current == is_alnum(cs@[0]),
            i > 0 ==> current == is_alnum(cs@[i - 1]),
            words@.map_values(|w: &str| w@).push(name@.subrange(start as int, i as int))
                == tokens(name@.subrange(0, i as int)),
        decreases n - i,
    {
        let c = cs[i];
        let a = char_is_alnum(c);
        let ghost prev = words@.map_values(|w: &str| w@);
        let ghost old_start = start;
        let ghost old_current = current;
        if a != current {
            let w = name.substring_char(start, i);
            words.push(w);
            current = a;
            start = i;
        }
        proof {
            let s1 = name@.subrange(0, i + 1);
            assert(s1.drop_last() == name@.subrange(0, i as int));
            let cur = words@.map_values(|w: &str| w@);
            if i == 0 {
                assert(a == current);
                assert(cur =~= prev);
                assert(cur.push(name@.subrange(start as int, i + 1)) =~= tokens(s1));
            } else {
                let t = tokens(s1.drop_last());
                assert(t == prev.push(name@.subrange(old_start as int, i as int)));
                assert(s1.last() == c && s1[s1.len() - 2] == cs@[i - 1]);
                if a == old_current {
                    assert(cur =~= prev);
                    assert(name@.subrange(old_start as int, i + 1) =~= name@.subrange(
                        old_start as int,
                        i as int,
                    ).push(c));
                    assert(cur.push(name@.subrange(start as int, i + 1)) =~= t.update(
                        t.len() - 1,
                        t.last().push(c),
                    ));
                } else {
                    assert(cur =~= prev.push(name@.subrange(old_start as int, i as int)));
                    assert(name@.subrange(start as int, i + 1) =~= seq![c]);
                    assert(cur.push(name@.subrange(start as int, i + 1)) =~= t.push(seq![c]));
                }
            }
        }
        i = i + 1;
    }
    let w = name.substring_char(start, n);
    words.push(w);
    assert(name@.subrange(0, n as int) == name@);
    assert(words@.map_values(|w: &str| w@) =~= tokens(name@));
    words
}

/// `name` with its first character in uppercase.
pub fn first_upper(name: &str) -> (r: String)
    ensures
        r@ == first_upper_spec(name@),
{
    let n = name.unicode_len();
    if n == 0 {
        return String::new();
    }
    let mut r = char_upper(name.get_char(0));
    r.append(name.substring_char(1, n));
    assert(name@.subrange(1, n as int) =~= name@.drop_first());
    r
}

/// Appends the lowercase mapping of every character of `cs[from..]` to `r`.
fn push_lower_from(r: &mut String, cs: &Vec<char>, from: usize)
    requires
        from <= cs.len(),
    ensures
        final(r)@ == old(r)@ + lower_each(cs@.subrange(from as int, cs.len() as int)),
{
    let mut i: usize = from;
    while i < cs.len()
        invariant
            from <= i <= cs.len(),
            r@ == old(r)@ + lower_each(cs@.subrange(from as int, i as int)),
        decreases cs.len() - i,
    {
        let l = char_lower(cs[i]);
        r.append(l.as_str());
        assert(cs@.subrange(from as int, i + 1).drop_last() =~= cs@.subrange(
            from as int,
            i as int,
        ));
        assert(r@ =~= old(r)@ + lower_each(cs@.subrange(from as int, i + 1)));
        i = i + 1;
    }
}

/// `name` with its first character in uppercase and every other in lowercase.
pub fn first_upper_all_lower(name: &str) -> (r: String)
    ensures
        r@ == title_word(name@),
{
    let cs = chars_of(name);
    if cs.len() == 0 {
        return String::new();
    }
    let mut r = char_upper(cs[0]);
    push_lower_from(&mut r, &cs, 1);
    assert(cs@.subrange(1, cs.len() as int) =~= name@.drop_first());
    r
}

/// Every word of `name` with its first character in uppercase and the others in lowercase.
pub fn snake_case(name: &str) -> (r: String)
    ensures
        r@ == snake_case_spec(name@),
{
    let words = get_words(name);
    let ghost ws = words@.map_values(|w: &str| w@);
    let mut r = String::new();
    let mut i: usize = 0;
    while i < words.len()
        invariant
            i <= words.len(),
            ws == words@.map_values(|w: &str| w@),
            r@ == ws.take(i as int).map_values(|w: Seq<char>| title_word(w)).flatten(),
        decreases words.len() - i,
    {
        let t = first_upper_all_lower(words[i]);
        r.append(t.as_str());
        proof {
            let f = |w: Seq<char>| title_word(w);
            assert(ws.take(i + 1).map_values(f) =~= ws.take(i as int).map_values(f).push(t@));
            ws.take(i as int).map_values(f).lemma_flatten_push(t@);
        }
        i = i + 1;
    }
    assert(ws.take(words.len() as int) =~= ws);
    r
}

/// The comparison key of `word`: decomposed, stripped of combining marks, in lowercase.
pub fn normed(word: &str) -> (r: String)
    ensures
        r@ == normed_spec(word@),
{
    let d = nfkd(word);
    let cs = chars_of(d.as_str());
    let ghost keep = |c: char| !is_mark(c);
    let mut r = String::new();
    let mut i: usize = 0;
    while i < cs.len()
        invariant
            i <= cs.len(),
            cs@ == nfkd_of(word@),
            keep == (|c: char| !is_mark(c)),
            r@ == lower_each(cs@.take(i as int).filter(keep)),
        decreases cs.len() - i,
    {
        let c = cs[i];
        proof {
            assert(cs@.take(i + 1) =~= cs@.take(i as int).push(c));
            cs@.take(i as int).lemma_filter_push(c, keep);
        }
        if !char_is_mark(c) {
            let l = char_lower(c);
            r.append(l.as_str());
            proof {
                let f = cs@.take(i as int).filter(keep);
                assert(f.push(c).drop_last() =~= f);
                assert(lower_each(f.push(c)) == lower_each(f) + lower_char(c));
                assert(keep(c));
                assert(cs@.take(i as int).push(c).filter(keep) == f.push(c));
                assert(cs@.take(i + 1).filter(keep) == f.push(c));
            }
        } else {
            assert(!keep(c));
            assert(cs@.take(i as int).push(c).filter(keep) == cs@.take(i as int).filter(keep));
            assert(cs@.take(i + 1).filter(keep) == cs@.take(i as int).filter(keep));
        }
        i = i + 1;
    }
    assert(cs@.take(cs.len() as int) =~= cs@);
    r
}

/// Whether `word` carries a diacritic: its NFKD form holds a combining mark.
pub fn has_accent(word: &str) -> (r: bool)
    ensures
        r == has_accent_spec(word@),
{
    let d = nfkd(word);
    let cs = chars_of(d.as_str());
    let mut i: usize = 0;
    while i < cs.len()
        invariant
            i <= cs.len(),
            cs@ == nfkd_of(word@),
            forall|j: int| 0 <= j < i ==> !is_mark(#[trigger] cs@[j]),
        decreases cs.len() - i,
    {
        if char_is_mark(cs[i]) {
            return true;
        }
        i = i + 1;
    }
    false
}

} // verus!
