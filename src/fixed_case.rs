//! Words whose case is fixed: a table from lowercase form to spelling, and the
//! stage that forces listed words to lowercase or uppercase.
use vstd::prelude::*;

use crate::error::PipelineError;
use crate::regex_stage::{
    all_valid, any_ci_match, ci_is_match, ci_valid, compile, compile_all, is_match, matches_any,
    patterns_view,
};
use crate::text::{get_words, lower_str, str_lower, str_upper, tokens, upper_str};

verus! {

/// A table of words with a fixed spelling, keyed by their lowercase form.
pub struct RegexProcessor {
    fixed_case_word: Vec<(String, String)>,
}

/// Whether `entries` holds an entry keyed by `key`.
pub open spec fn has_key(entries: Seq<(Seq<char>, Seq<char>)>, key: Seq<char>) -> bool {
    exists|i: int| 0 <= i < entries.len() && (#[trigger] entries[i]).0 == key
}

/// The spelling that `entries` holds under `key`, if any.
pub open spec fn spelling_of(entries: Seq<(Seq<char>, Seq<char>)>, key: Seq<char>) -> Option<
    Seq<char>,
> {
    if has_key(entries, key) {
        Some(
            entries[choose|i: int| 0 <= i < entries.len() && (#[trigger] entries[i]).0 == key].1,
        )
    } else {
        None
    }
}

impl RegexProcessor {
    /// The entries of the table, in order of insertion: (lowercase form, spelling).
    pub closed spec fn entries(&self) -> Seq<(Seq<char>, Seq<char>)> {
        self.fixed_case_word@.map_values(|e: (String, String)| (e.0@, e.1@))
    }

    /// Each key is the lowercase form of its spelling, and no key occurs twice.
    pub open spec fn wf(&self) -> bool {
        &&& forall|i: int|
            0 <= i < self.entries().len() ==> (#[trigger] self.entries()[i]).0 == lower_str(
                self.entries()[i].1,
            )
        &&& forall|i: int, j: int|
            0 <= i < j < self.entries().len() ==> (#[trigger] self.entries()[i]).0
                != (#[trigger] self.entries()[j]).0
    }

    /// An empty table.
    pub fn new() -> (r: Self)
        ensures
            r.wf(),
            r.entries() == Seq::<(Seq<char>, Seq<char>)>::empty(),
    {
        let r = RegexProcessor { fixed_case_word: Vec::new() };
        assert(r.entries() =~= Seq::<(Seq<char>, Seq<char>)>::empty());
        r
    }

    /// The position of the entry keyed by `key`, if there is one.
    fn find(&self, key: &str) -> (r: Option<usize>)
        requires
            self.wf(),
        ensures
            r is None <==> !has_key(self.entries(), key@),
            r matches Some(i) ==> i < self.entries().len() && self.entries()[i as int].0 == key@
                && spelling_of(self.entries(), key@) == Some(self.entries()[i as int].1),
    {
        let mut i: usize = 0;
        while i < self.fixed_case_word.len()
            invariant
                self.wf(),
                i <= self.fixed_case_word.len(),
                forall|j: int| 0 <= j < i ==> (#[trigger] self.entries()[j]).0 != key@,
            decreases self.fixed_case_word.len() - i,
        {
            if self.fixed_case_word[i].0 == key.to_string() {
                assert(self.entries()[i as int].0 == key@);
                assert(has_key(self.entries(), key@));
                let ghost k = choose|j: int|
                    0 <= j < self.entries().len() && (#[trigger] self.entries()[j]).0 == key@;
                assert(k == i);
                return Some(i);
            }
            i = i + 1;
        }
        None
    }

    /// Adds `fixed` under its lowercase form; refused when a word with the same
    /// lowercase form is already held.
    pub fn add_fixed_case(&mut self, fixed: &str) -> (r: Result<(), PipelineError>)
        requires
            old(self).wf(),
        ensures
            final(self).wf(),
            r is Ok <==> !has_key(old(self).entries(), lower_str(fixed@)),
            r is Ok ==> final(self).entries() == old(self).entries().push(
                (lower_str(fixed@), fixed@),
            ),
            r is Err ==> final(self).entries() == old(self).entries(),
            r is Err ==> (r matches Err(PipelineError::DuplicateFixedCase { existing, added })
                && existing@ == spelling_of(old(self).entries(), lower_str(fixed@))->0 && added@
                == fixed@),
    {
        let fixed_lower = str_lower(fixed);
        match self.find(fixed_lower.as_str()) {
            Some(i) => {
                let existing = self.fixed_case_word[i].1.clone();
                Err(PipelineError::DuplicateFixedCase { existing, added: fixed.to_string() })
            },
            None => {
                self.fixed_case_word.push((fixed_lower, fixed.to_string()));
                assert(self.entries() =~= old(self).entries().push((lower_str(fixed@), fixed@)));
                Ok(())
            },
        }
    }

    /// Appends to `push_on` the spelling held under `lower_processed`, or
    /// `processed` itself when the table holds no such key.
    pub fn fix_case(&self, lower_processed: &str, processed: &str, push_on: &mut String)
        requires
            self.wf(),
        ensures
            final(push_on)@ == old(push_on)@ + match spelling_of(
                self.entries(),
                lower_processed@,
            ) {
                Some(fixed) => fixed,
                None => processed@,
            },
    {
        match self.find(lower_processed) {
            Some(i) => push_on.append(self.fixed_case_word[i].1.as_str()),
            None => push_on.append(processed),
        }
    }
}

/// The case that a fixed-case stage forces on the words of its list.
#[derive(Clone, Copy, Debug, PartialEq, Eq, Structural)]
pub enum CaseSpecifier {
    Lower,
    Upper,
}

/// The stage that forces the words of a list, matched regardless of case, to
/// lowercase or to uppercase.
pub struct FixedcaseProcessor {
    words: RegexProcessor,
    regex: String,
    case: CaseSpecifier,
}

/// The words of `ws` separated by `|`.
pub open spec fn join_alternatives(ws: Seq<Seq<char>>) -> Seq<char>
    decreases ws.len(),
{
    if ws.len() == 0 {
        Seq::empty()
    } else if ws.len() == 1 {
        ws[0]
    } else {
        join_alternatives(ws.drop_last()) + seq!['|'] + ws.last()
    }
}

/// The pattern that matches a whole word equal to one of `ws`: `^(w1|w2|...)$`.
pub open spec fn word_alternation(ws: Seq<Seq<char>>) -> Seq<char> {
    seq!['^', '('] + join_alternatives(ws) + seq![')', '$']
}

/// What the fixed-case stage makes of one word, given the pattern of its
/// list, matched regardless of case.
pub open spec fn fixed_case_token(pattern: Seq<char>, case: CaseSpecifier, w: Seq<char>) -> Seq<
    char,
> {
    if ci_is_match(pattern, w) {
        match case {
            CaseSpecifier::Lower => lower_str(w),
            CaseSpecifier::Upper => upper_str(w),
        }
    } else {
        w
    }
}

/// What the fixed-case stage makes of a name: each word (see `tokens`)
/// handled by `fixed_case_token`, the words joined in order.
pub open spec fn fixed_case_spec(pattern: Seq<char>, case: CaseSpecifier, s: Seq<char>) -> Seq<
    char,
> {
    tokens(s).map_values(|w: Seq<char>| fixed_case_token(pattern, case, w)).flatten()
}

/// Whether two words of `words` share a lowercase form.
pub open spec fn has_case_duplicate(words: Seq<Seq<char>>) -> bool {
    exists|i: int, j: int|
        0 <= i < j < words.len() && lower_str(#[trigger] words[i]) == lower_str(
            #[trigger] words[j],
        )
}

/// The pattern `^(w1|w2|...)$` of the words `words` (see `word_alternation`).
fn alternation(words: &[String]) -> (r: String)
    ensures
        r@ == word_alternation(words@.map_values(|w: String| w@)),
{
    let ghost ws = words@.map_values(|w: String| w@);
    let mut r = "^(".to_string();
    proof {
        reveal_strlit("^(");
        reveal_strlit("|");
        reveal_strlit(")$");
    }
    assert(r@ =~= seq!['^', '('] + join_alternatives(ws.take(0)));
    let mut i: usize = 0;
    while i < words.len()
        invariant
            i <= words.len(),
            ws == words@.map_values(|w: String| w@),
            r@ == seq!['^', '('] + join_alternatives(ws.take(i as int)),
            "|"@ == seq!['|'],
        decreases words.len() - i,
    {
        let ghost before = r@;
        assert(ws.take(i + 1).drop_last() =~= ws.take(i as int));
        assert(ws.take(i + 1).last() == words@[i as int]@);
        if i > 0 {
            r.append("|");
        } else {
            assert(ws.take(1) =~= seq![words@[0]@]);
        }
        r.append(words[i].as_str());
        assert(r@ =~= seq!['^', '('] + join_alternatives(ws.take(i + 1)));
        i = i + 1;
    }
    r.append(")$");
    assert(ws.take(words.len() as int) =~= ws);
    assert(r@ =~= word_alternation(ws));
    r
}

impl FixedcaseProcessor {
    /// The word table: one entry per word of the list, in order.
    pub closed spec fn list(&self) -> Seq<(Seq<char>, Seq<char>)> {
        self.words.entries()
    }

    /// The pattern matched against each word (see `word_alternation`).
    pub closed spec fn pattern(&self) -> Seq<char> {
        self.regex@
    }

    /// The case that the stage forces.
    pub closed spec fn case(&self) -> CaseSpecifier {
        self.case
    }

    /// The word table is well formed and the pattern compiles.
    pub closed spec fn wf(&self) -> bool {
        self.words.wf() && ci_valid(self.regex@)
    }

    /// The stage for `words` and `case`; refused when two words share a
    /// lowercase form, or when the pattern made of the words (which may hold
    /// regex syntax) does not compile.
    pub fn new(words: &[String], case: CaseSpecifier) -> (r: Result<Self, PipelineError>)
        ensures
            r is Ok <==> !has_case_duplicate(words@.map_values(|w: String| w@)) && ci_valid(
                word_alternation(words@.map_values(|w: String| w@)),
            ),
            r matches Ok(p) ==> p.wf() && p.case() == case && p.list() == words@.map_values(
                |w: String| (lower_str(w@), w@),
            ) && p.pattern() == word_alternation(words@.map_values(|w: String| w@)),
            has_case_duplicate(words@.map_values(|w: String| w@)) ==> r matches Err(
                PipelineError::DuplicateFixedCase { .. },
            ),
            r is Err && !has_case_duplicate(words@.map_values(|w: String| w@)) ==> r matches Err(
                PipelineError::BadRegex { .. },
            ),
    {
        let ghost ws = words@.map_values(|w: String| w@);
        let mut table = RegexProcessor::new();
        let mut i: usize = 0;
        while i < words.len()
            invariant
                i <= words.len(),
                ws == words@.map_values(|w: String| w@),
                table.wf(),
                table.entries() == words@.take(i as int).map_values(
                    |w: String| (lower_str(w@), w@),
                ),
                !has_case_duplicate(ws.take(i as int)),
            decreases words.len() - i,
        {
            let ghost before = table.entries();
            match table.add_fixed_case(words[i].as_str()) {
                Ok(()) => {
                    proof {
                        assert(words@.take(i + 1).map_values(|w: String| (lower_str(w@), w@))
                            =~= before.push((lower_str(words@[i as int]@), words@[i as int]@)));
                        assert forall|a: int, b: int|
                            0 <= a < b < ws.take(i + 1).len() implies lower_str(
                            #[trigger] ws.take(i + 1)[a],
                        ) != lower_str(#[trigger] ws.take(i + 1)[b]) by {
                            if b == i {
                                assert(before[a].0 == lower_str(ws[a]));
                            } else {
                                assert(ws.take(i as int)[a] == ws.take(i + 1)[a]);
                                assert(ws.take(i as int)[b] == ws.take(i + 1)[b]);
                            }
                        }
                    }
                },
                Err(e) => {
                    proof {
                        let k = choose|k: int|
                            0 <= k < before.len() && (#[trigger] before[k]).0 == lower_str(
                                words@[i as int]@,
                            );
                        assert(ws[k] == ws.take(i as int)[k]);
                        assert(lower_str(ws[k]) == lower_str(ws[i as int]));
                    }
                    return Err(e);
                },
            }
            i = i + 1;
        }
        assert(ws.take(words.len() as int) =~= ws);
        assert(words@.take(words.len() as int) =~= words@);
        let regex = alternation(words);
        compile(regex.as_str())?;
        Ok(FixedcaseProcessor { words: table, regex, case })
    }

    /// The words of `name` in turn: a word whose lowercase form is in the list
    /// is put in the stage's case, any other is kept as it is.
    pub fn process(&self, name: &str) -> (r: String)
        requires
            self.wf(),
        ensures
            r@ == fixed_case_spec(self.pattern(), self.case(), name@),
    {
        let words = get_words(name);
        let ghost ws = words@.map_values(|w: &str| w@);
        let ghost f = |w: Seq<char>| fixed_case_token(self.pattern(), self.case(), w);
        let mut new_name = String::new();
        let mut i: usize = 0;
        while i < words.len()
            invariant
                self.wf(),
                i <= words.len(),
                ws == words@.map_values(|w: &str| w@),
                ws == tokens(name@),
                f == (|w: Seq<char>| fixed_case_token(self.pattern(), self.case(), w)),
                new_name@ == ws.take(i as int).map_values(f).flatten(),
            decreases words.len() - i,
        {
            let word = words[i];
            let lower_word = str_lower(word);
            let ghost before = new_name@;
            if is_match(self.regex.as_str(), word) {
                match self.case {
                    CaseSpecifier::Lower => new_name.append(lower_word.as_str()),
                    CaseSpecifier::Upper => {
                        let upper_word = str_upper(word);
                        new_name.append(upper_word.as_str());
                    },
                }
            } else {
                new_name.append(word);
            }
            proof {
                assert(new_name@ == before + f(word@));
                assert(ws.take(i + 1).map_values(f) =~= ws.take(i as int).map_values(f).push(
                    f(word@),
                ));
                ws.take(i as int).map_values(f).lemma_flatten_push(f(word@));
            }
            i = i + 1;
        }
        assert(ws.take(words.len() as int) =~= ws);
        new_name
    }
}

/// What the table `entries` keeps of a word that no case rule claims: the
/// spelling held under its lowercase form, or the word itself.
pub open spec fn table_spelling(entries: Seq<(Seq<char>, Seq<char>)>, w: Seq<char>) -> Seq<char> {
    match spelling_of(entries, lower_str(w)) {
        Some(f) => f,
        None => w,
    }
}

/// What a case rule makes of the word `w`: lowercase where a pattern of
/// `lower` matches it, else uppercase where one of `upper` does, else as the
/// table `entries` spells it.
pub open spec fn cased_word(
    lower: Seq<Seq<char>>,
    upper: Seq<Seq<char>>,
    entries: Seq<(Seq<char>, Seq<char>)>,
    w: Seq<char>,
) -> Seq<char> {
    if any_ci_match(lower, w) {
        lower_str(w)
    } else if any_ci_match(upper, w) {
        upper_str(w)
    } else {
        table_spelling(entries, w)
    }
}

/// What a case rule makes of `name`: each word (see `tokens`) handled by
/// `cased_word`, the words joined in order.
pub open spec fn cased_name(
    lower: Seq<Seq<char>>,
    upper: Seq<Seq<char>>,
    entries: Seq<(Seq<char>, Seq<char>)>,
    name: Seq<char>,
) -> Seq<char> {
    tokens(name).map_values(|w: Seq<char>| cased_word(lower, upper, entries, w)).flatten()
}

/// The words of `name` in turn, handled by `cased_word`; refused exactly
/// when a pattern does not compile.
pub(crate) fn case_words(
    name: &str,
    lower: &Vec<&str>,
    upper: &Vec<&str>,
    table: &RegexProcessor,
) -> (r: Result<String, PipelineError>)
    requires
        table.wf(),
    ensures
        r is Ok <==> all_valid(patterns_view(lower@)) && all_valid(patterns_view(upper@)),
        r matches Ok(s) ==> s@ == cased_name(
            patterns_view(lower@),
            patterns_view(upper@),
            table.entries(),
            name@,
        ),
        r is Err ==> r matches Err(PipelineError::BadRegex { .. }),
{
    compile_all(lower)?;
    compile_all(upper)?;
    let ghost lv = patterns_view(lower@);
    let ghost uv = patterns_view(upper@);
    let ghost f = |w: Seq<char>| cased_word(lv, uv, table.entries(), w);
    let words = get_words(name);
    let ghost ws = words@.map_values(|w: &str| w@);
    let mut new_name = String::new();
    let mut i: usize = 0;
    while i < words.len()
        invariant
            table.wf(),
            i <= words.len(),
            ws == words@.map_values(|w: &str| w@),
            ws == tokens(name@),
            lv == patterns_view(lower@),
            uv == patterns_view(upper@),
            all_valid(lv),
            all_valid(uv),
            f == (|w: Seq<char>| cased_word(lv, uv, table.entries(), w)),
            new_name@ == ws.take(i as int).map_values(f).flatten(),
        decreases words.len() - i,
    {
        let word = words[i];
        let lower_word = str_lower(word);
        let ghost before = new_name@;
        if matches_any(lower, word) {
            new_name.append(lower_word.as_str());
        } else if matches_any(upper, word) {
            let upper_word = str_upper(word);
            new_name.append(upper_word.as_str());
        } else {
            table.fix_case(lower_word.as_str(), word, &mut new_name);
        }
        proof {
            assert(new_name@ == before + f(word@));
            assert(ws.take(i + 1).map_values(f) =~= ws.take(i as int).map_values(f).push(
                f(word@),
            ));
            ws.take(i as int).map_values(f).lemma_flatten_push(f(word@));
        }
        i = i + 1;
    }
    assert(ws.take(words.len() as int) =~= ws);
    Ok(new_name)
}

} // verus!
