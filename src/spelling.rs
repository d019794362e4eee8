//! The spell-check stage: adds missing diacritics to a name where the spell
//! checker's suggestions leave exactly one safe choice.
use vstd::prelude::*;

use crate::corpus::{injection_decision, should_inject};
use crate::error::PipelineError;
use crate::text::{
    has_accent, has_accent_spec, lower_str, normed, normed_spec, str_lower,
};

verus! {

#[verifier::external_type_specification]
#[verifier::external_body]
pub struct ExSpellChecker(ispell::SpellChecker);

#[verifier::external_type_specification]
#[verifier::external_body]
pub struct ExSpellError(ispell::Error);

/// How long the spell checker may take to answer, in milliseconds.
pub const ORACLE_TIMEOUT_MS: u64 = 10000;

/// One word that the spell checker does not know, with its suggestions in
/// the checker's order.
pub struct Misspelling {
    pub misspelled: String,
    pub suggestions: Vec<String>,
}

impl View for Misspelling {
    type V = (Seq<char>, Seq<Seq<char>>);

    open spec fn view(&self) -> (Seq<char>, Seq<Seq<char>>) {
        (self.misspelled@, self.suggestions@.map_values(|s: String| s@))
    }
}

/// What a stage reports besides its result.
pub enum Diagnostic {
    /// The name `name` holds `matched`, a match of a suspicious pattern.
    Suspicious { matched: String, name: String },
    /// The misspelled `word` has several accented suggestions to choose from.
    Ambiguous { word: String, candidates: Vec<String> },
}

/// A `Diagnostic` in terms of character sequences.
pub enum DiagnosticView {
    Suspicious { matched: Seq<char>, name: Seq<char> },
    Ambiguous { word: Seq<char>, candidates: Seq<Seq<char>> },
}

impl View for Diagnostic {
    type V = DiagnosticView;

    open spec fn view(&self) -> DiagnosticView {
        match self {
            Diagnostic::Suspicious { matched, name } => DiagnosticView::Suspicious {
                matched: matched@,
                name: name@,
            },
            Diagnostic::Ambiguous { word, candidates } => DiagnosticView::Ambiguous {
                word: word@,
                candidates: candidates@.map_values(|s: String| s@),
            },
        }
    }
}

/// The views of a list of diagnostics.
pub open spec fn notes_view(notes: Seq<Diagnostic>) -> Seq<DiagnosticView> {
    notes.map_values(|d: Diagnostic| d@)
}

/// `s` with `to` before, between and after its characters: what replacing
/// the empty string yields.
pub open spec fn interleave(s: Seq<char>, to: Seq<char>) -> Seq<char>
    decreases s.len(),
{
    if s.len() == 0 {
        to
    } else {
        to + seq![s[0]] + interleave(s.drop_first(), to)
    }
}

/// `s` with every occurrence of `from`, found from the left without overlap,
/// replaced by `to`.
pub open spec fn replace_spec(s: Seq<char>, from: Seq<char>, to: Seq<char>) -> Seq<char>
    decreases s.len(),
{
    if from.len() == 0 {
        interleave(s, to)
    } else if s.len() < from.len() {
        s
    } else if s.take(from.len() as int) == from {
        to + replace_spec(s.skip(from.len() as int), from, to)
    } else {
        seq![s[0]] + replace_spec(s.drop_first(), from, to)
    }
}

/// Relies on `str::replace`: every match of `from`, found from the left
/// without overlap, replaced by `to`.
#[verifier::external_body]
fn str_replace(s: &str, from: &str, to: &str) -> (r: String)
    ensures
        r@ == replace_spec(s@, from@, to@),
{
    s.replace(from, to)
}

/// Relies on `ispell::SpellLauncher`: starts aspell with dictionary `dict`.
#[verifier::external_body]
fn launch_aspell(dict: &str, timeout_ms: u64) -> (r: Result<ispell::SpellChecker, ispell::Error>) {
    ispell::SpellLauncher::new().aspell().dictionary(dict).timeout(timeout_ms).launch()
}

/// Relies on `ispell::SpellChecker::check`: the words of `text`, a single
/// line as that function asks, that the checker does not know, each with
/// its suggestions.
#[verifier::external_body]
fn oracle_check(checker: &mut ispell::SpellChecker, text: &str) -> (r: Result<
    Vec<Misspelling>,
    ispell::Error,
>)
    requires
        single_line(text@),
{
    checker.check(text).map(
        |errors|
            errors.into_iter().map(
                |e| Misspelling { misspelled: e.misspelled, suggestions: e.suggestions },
            ).collect(),
    )
}

/// Relies on `ispell::SpellChecker::add_word`: adds `word` to the checker's
/// dictionary for this session.
#[verifier::external_body]
fn oracle_add(checker: &mut ispell::SpellChecker, word: &str) -> (r: Result<(), ispell::Error>) {
    checker.add_word(word)
}

/// Whether suggestion `s` may replace a word of key `key`: same key, and it
/// carries a diacritic.
pub open spec fn qualifies(key: Seq<char>, s: Seq<char>) -> bool {
    normed_spec(s) == key && has_accent_spec(s)
}

/// Whether `c` holds a word with the same lowercase form as `s`.
pub open spec fn has_lower_twin(c: Seq<Seq<char>>, s: Seq<char>) -> bool {
    exists|i: int| 0 <= i < c.len() && lower_str(#[trigger] c[i]) == lower_str(s)
}

/// The suggestions that qualify for key `key`, in order, keeping only the
/// first of those that share a lowercase form.
pub open spec fn accent_candidates(key: Seq<char>, sugg: Seq<Seq<char>>) -> Seq<Seq<char>>
    decreases sugg.len(),
{
    if sugg.len() == 0 {
        Seq::empty()
    } else {
        let c = accent_candidates(key, sugg.drop_last());
        let s = sugg.last();
        if qualifies(key, s) && !has_lower_twin(c, s) {
            c.push(s)
        } else {
            c
        }
    }
}

/// The candidates of a misspelling: see `accent_candidates`.
pub open spec fn candidates_of(e: (Seq<char>, Seq<Seq<char>>)) -> Seq<Seq<char>> {
    accent_candidates(normed_spec(e.0), e.1)
}

/// What one misspelling does to `name`: an unaccented misspelled word with
/// exactly one candidate is replaced by it everywhere; otherwise nothing.
pub open spec fn fix_one(name: Seq<char>, e: (Seq<char>, Seq<Seq<char>>)) -> Seq<char> {
    if !has_accent_spec(e.0) && candidates_of(e).len() == 1 {
        replace_spec(name, e.0, candidates_of(e)[0])
    } else {
        name
    }
}

/// `name` after every misspelling of `errs`, in order (see `fix_one`).
pub open spec fn fix_all(name: Seq<char>, errs: Seq<(Seq<char>, Seq<Seq<char>>)>) -> Seq<char>
    decreases errs.len(),
{
    if errs.len() == 0 {
        name
    } else {
        fix_one(fix_all(name, errs.drop_last()), errs.last())
    }
}

/// The reports for the unaccented misspellings of `errs` that have more than
/// one candidate, in order.
pub open spec fn ambiguities(errs: Seq<(Seq<char>, Seq<Seq<char>>)>) -> Seq<DiagnosticView>
    decreases errs.len(),
{
    if errs.len() == 0 {
        Seq::empty()
    } else {
        let a = ambiguities(errs.drop_last());
        let e = errs.last();
        if !has_accent_spec(e.0) && candidates_of(e).len() > 1 {
            a.push(DiagnosticView::Ambiguous { word: e.0, candidates: candidates_of(e) })
        } else {
            a
        }
    }
}

/// The views of a list of misspellings.
pub open spec fn errs_view(errs: Seq<Misspelling>) -> Seq<(Seq<char>, Seq<Seq<char>>)> {
    errs.map_values(|e: Misspelling| e@)
}

/// Whether `lowers` holds `l`.
fn contains_str(lowers: &Vec<String>, l: &String) -> (r: bool)
    ensures
        r == exists|i: int| 0 <= i < lowers@.len() && (#[trigger] lowers@[i])@ == l@,
{
    let mut i: usize = 0;
    while i < lowers.len()
        invariant
            i <= lowers.len(),
            forall|j: int| 0 <= j < i ==> (#[trigger] lowers@[j])@ != l@,
        decreases lowers.len() - i,
    {
        if lowers[i] == *l {
            return true;
        }
        i = i + 1;
    }
    false
}

/// The suggestions that may replace a word of key `key`: those with that key
/// and a diacritic, keeping only the first of those equal up to case.
pub fn candidates(key: &str, suggestions: &Vec<String>) -> (r: Vec<String>)
    ensures
        r@.map_values(|s: String| s@) == accent_candidates(
            key@,
            suggestions@.map_values(|s: String| s@),
        ),
{
    let ghost sv = suggestions@.map_values(|s: String| s@);
    let mut r: Vec<String> = Vec::new();
    let mut lowers: Vec<String> = Vec::new();
    let mut i: usize = 0;
    while i < suggestions.len()
        invariant
            i <= suggestions.len(),
            sv == suggestions@.map_values(|s: String| s@),
            r@.map_values(|s: String| s@) == accent_candidates(key@, sv.take(i as int)),
            lowers@.len() == r@.len(),
            forall|j: int| 0 <= j < r@.len() ==> (#[trigger] lowers@[j])@ == lower_str(r@[j]@),
        decreases suggestions.len() - i,
    {
        let s = &suggestions[i];
        let ghost rv = r@.map_values(|s: String| s@);
        assert(sv.take(i + 1).drop_last() =~= sv.take(i as int));
        assert(sv.take(i + 1).last() == s@);
        let k = normed(s.as_str());
        if k == key.to_string() && has_accent(s.as_str()) {
            let l = str_lower(s.as_str());
            let twin = contains_str(&lowers, &l);
            proof {
                if twin {
                    let j = choose|j: int| 0 <= j < lowers@.len() && (#[trigger] lowers@[j])@ == l@;
                    assert(lower_str(rv[j]) == lower_str(s@));
                    assert(has_lower_twin(rv, s@));
                } else {
                    assert forall|j: int| 0 <= j < rv.len() implies lower_str(#[trigger] rv[j])
                        != lower_str(s@) by {
                        assert(lowers@[j]@ == lower_str(rv[j]));
                    }
                }
            }
            if !twin {
                r.push(s.clone());
                lowers.push(l);
                assert(r@.map_values(|s: String| s@) =~= rv.push(s@));
            }
        }
        i = i + 1;
    }
    assert(sv.take(suggestions.len() as int) =~= sv);
    r
}

/// `name` with the diacritics that `errors`, the spell checker's report on
/// it, allow to add; the misspellings with several candidates are reported
/// in `notes`.
pub fn fix_accents(name: &str, errors: &Vec<Misspelling>, notes: &mut Vec<Diagnostic>) -> (r:
    String)
    ensures
        r@ == fix_all(name@, errs_view(errors@)),
        notes_view(final(notes)@) == notes_view(old(notes)@) + ambiguities(errs_view(errors@)),
{
    let ghost ev = errs_view(errors@);
    let mut new_name = name.to_string();
    let mut i: usize = 0;
    while i < errors.len()
        invariant
            i <= errors.len(),
            ev == errs_view(errors@),
            new_name@ == fix_all(name@, ev.take(i as int)),
            notes_view(notes@) == notes_view(old(notes)@) + ambiguities(ev.take(i as int)),
        decreases errors.len() - i,
    {
        let e = &errors[i];
        let ghost before = notes@;
        proof {
            assert(ev.take(i + 1).drop_last() =~= ev.take(i as int));
            assert(ev.take(i + 1).last() == e@);
        }
        if !has_accent(e.misspelled.as_str()) {
            let key = normed(e.misspelled.as_str());
            let cands = candidates(&key, &e.suggestions);
            assert(cands@.map_values(|s: String| s@) == candidates_of(e@));
            if cands.len() == 1 {
                new_name = str_replace(new_name.as_str(), e.misspelled.as_str(), cands[0].as_str());
                assert(cands@.map_values(|s: String| s@)[0] == cands@[0]@);
            } else if cands.len() > 1 {
                let d = Diagnostic::Ambiguous { word: e.misspelled.clone(), candidates: cands };
                notes.push(d);
                assert(notes_view(notes@) =~= notes_view(before).push(d@));
            }
        }
        i = i + 1;
    }
    assert(ev.take(errors.len() as int) =~= ev);
    new_name
}

/// Whether the report `errs` on `word` shows the checker knows `word` up to
/// case: it reports nothing, or suggests a word equal to it up to case.
pub open spec fn knows_same_accent(
    word: Seq<char>,
    errs: Seq<(Seq<char>, Seq<Seq<char>>)>,
) -> bool {
    errs.len() == 0 || exists|i: int, j: int|
        0 <= i < errs.len() && 0 <= j < errs[i].1.len() && lower_str(#[trigger] errs[i].1[j])
            == lower_str(word)
}

/// Whether the report `errs` on `word` shows the checker knows a word of the
/// same key: it reports nothing, or suggests a word equal to it up to accents
/// and case.
pub open spec fn knows_competitor(
    word: Seq<char>,
    errs: Seq<(Seq<char>, Seq<Seq<char>>)>,
) -> bool {
    errs.len() == 0 || exists|i: int, j: int|
        0 <= i < errs.len() && 0 <= j < errs[i].1.len() && normed_spec(#[trigger] errs[i].1[j])
            == normed_spec(word)
}

/// `knows_same_accent` of `word` and the report `errors`.
pub fn same_accent_known(word: &str, errors: &Vec<Misspelling>) -> (r: bool)
    ensures
        r == knows_same_accent(word@, errs_view(errors@)),
{
    let ghost ev = errs_view(errors@);
    if errors.len() == 0 {
        return true;
    }
    let lower_case_w = str_lower(word);
    let mut i: usize = 0;
    while i < errors.len()
        invariant
            i <= errors.len(),
            ev == errs_view(errors@),
            lower_case_w@ == lower_str(word@),
            forall|a: int, b: int|
                0 <= a < i && 0 <= b < ev[a].1.len() ==> lower_str(#[trigger] ev[a].1[b])
                    != lower_str(word@),
        decreases errors.len() - i,
    {
        let sugg = &errors[i].suggestions;
        assert(ev[i as int].1 == sugg@.map_values(|s: String| s@));
        let mut j: usize = 0;
        while j < sugg.len()
            invariant
                i < errors.len(),
                j <= sugg.len(),
                ev == errs_view(errors@),
                sugg == &errors@[i as int].suggestions,
                ev[i as int].1 == sugg@.map_values(|s: String| s@),
                lower_case_w@ == lower_str(word@),
                forall|a: int, b: int|
                    0 <= a < i && 0 <= b < ev[a].1.len() ==> lower_str(#[trigger] ev[a].1[b])
                        != lower_str(word@),
                forall|b: int|
                    0 <= b < j ==> lower_str(#[trigger] ev[i as int].1[b]) != lower_str(word@),
            decreases sugg.len() - j,
        {
            let l = str_lower(sugg[j].as_str());
            if l == lower_case_w {
                assert(lower_str(ev[i as int].1[j as int]) == lower_str(word@));
                return true;
            }
            j = j + 1;
        }
        i = i + 1;
    }
    false
}

/// `knows_competitor` of `word` and the report `errors`.
pub fn competitor_known(word: &str, errors: &Vec<Misspelling>) -> (r: bool)
    ensures
        r == knows_competitor(word@, errs_view(errors@)),
{
    let ghost ev = errs_view(errors@);
    if errors.len() == 0 {
        return true;
    }
    let normed_w = normed(word);
    let mut i: usize = 0;
    while i < errors.len()
        invariant
            i <= errors.len(),
            ev == errs_view(errors@),
            normed_w@ == normed_spec(word@),
            forall|a: int, b: int|
                0 <= a < i && 0 <= b < ev[a].1.len() ==> normed_spec(#[trigger] ev[a].1[b])
                    != normed_spec(word@),
        decreases errors.len() - i,
    {
        let sugg = &errors[i].suggestions;
        assert(ev[i as int].1 == sugg@.map_values(|s: String| s@));
        let mut j: usize = 0;
        while j < sugg.len()
            invariant
                i < errors.len(),
                j <= sugg.len(),
                ev == errs_view(errors@),
                sugg == &errors@[i as int].suggestions,
                ev[i as int].1 == sugg@.map_values(|s: String| s@),
                normed_w@ == normed_spec(word@),
                forall|a: int, b: int|
                    0 <= a < i && 0 <= b < ev[a].1.len() ==> normed_spec(#[trigger] ev[a].1[b])
                        != normed_spec(word@),
                forall|b: int|
                    0 <= b < j ==> normed_spec(#[trigger] ev[i as int].1[b]) != normed_spec(
                        word@,
                    ),
            decreases sugg.len() - j,
        {
            let k = normed(sugg[j].as_str());
            if k == normed_w {
                assert(normed_spec(ev[i as int].1[j as int]) == normed_spec(word@));
                return true;
            }
            j = j + 1;
        }
        i = i + 1;
    }
    false
}

/// A copy of `strings`.
fn copy_strings(strings: &Vec<String>) -> (r: Vec<String>)
    ensures
        r@.map_values(|s: String| s@) == strings@.map_values(|s: String| s@),
{
    let mut r: Vec<String> = Vec::new();
    let mut i: usize = 0;
    while i < strings.len()
        invariant
            i <= strings.len(),
            r@.map_values(|s: String| s@) == strings@.take(i as int).map_values(|s: String| s@),
        decreases strings.len() - i,
    {
        let c = strings[i].clone();
        let ghost before = r@;
        r.push(c);
        assert(strings@.take(i + 1) =~= strings@.take(i as int).push(strings@[i as int]));
        assert(r@.map_values(|s: String| s@) =~= before.map_values(|s: String| s@).push(
            strings@[i as int]@,
        ));
        assert(strings@.take(i + 1).map_values(|s: String| s@) =~= strings@.take(
            i as int,
        ).map_values(|s: String| s@).push(strings@[i as int]@));
        i = i + 1;
    }
    assert(strings@.take(strings.len() as int) =~= strings@);
    r
}

/// A copy of the report `errors`.
fn copy_report(errors: &Vec<Misspelling>) -> (r: Vec<Misspelling>)
    ensures
        errs_view(r@) == errs_view(errors@),
{
    let mut r: Vec<Misspelling> = Vec::new();
    let mut i: usize = 0;
    while i < errors.len()
        invariant
            i <= errors.len(),
            errs_view(r@) == errs_view(errors@.take(i as int)),
        decreases errors.len() - i,
    {
        let e = &errors[i];
        let c = Misspelling {
            misspelled: e.misspelled.clone(),
            suggestions: copy_strings(&e.suggestions),
        };
        assert(c@ == e@);
        let ghost before = r@;
        r.push(c);
        assert(errors@.take(i + 1) =~= errors@.take(i as int).push(errors@[i as int]));
        assert(errs_view(r@) =~= errs_view(before).push(e@));
        assert(errs_view(errors@.take(i + 1)) =~= errs_view(errors@.take(i as int)).push(e@));
        i = i + 1;
    }
    assert(errors@.take(errors.len() as int) =~= errors@);
    r
}

/// The spell checker's last report: the text it was asked about, and its answer.
struct SpellCache {
    name: String,
    errors: Vec<Misspelling>,
}

/// A running spell checker, with its last report kept so that asking twice in
/// a row about one text queries it once.
pub struct SpellCheck {
    aspell: ispell::SpellChecker,
    cache: Option<SpellCache>,
    consulted: Ghost<Seq<(Seq<char>, Seq<(Seq<char>, Seq<Seq<char>>)>)>>,
    added: Ghost<Seq<Seq<char>>>,
    failures: Ghost<nat>,
}

/// Whether `e` is a failure of the spell checker: it did not answer, or the
/// text could not be sent to it.
pub open spec fn is_checker_error(e: PipelineError) -> bool {
    e is Oracle || e is LineBreak
}

/// Whether `s` holds no line break: the checker takes one line at a time.
pub open spec fn single_line(s: Seq<char>) -> bool {
    !s.contains('\n') && !s.contains('\r')
}

/// Whether `s` holds a line break.
fn has_line_break(s: &str) -> (r: bool)
    ensures
        r == !single_line(s@),
{
    let cs = crate::text::chars_of(s);
    let mut i: usize = 0;
    while i < cs.len()
        invariant
            cs@ == s@,
            i <= cs.len(),
            forall|k: int| 0 <= k < i ==> cs@[k] != '\n' && cs@[k] != '\r',
        decreases cs.len() - i,
    {
        if cs[i] == '\n' || cs[i] == '\r' {
            assert(s@[i as int] == cs@[i as int]);
            return true;
        }
        i = i + 1;
    }
    false
}

impl SpellCheck {
    /// The text last asked about and the report on it, if any.
    pub closed spec fn cached(&self) -> Option<(Seq<char>, Seq<(Seq<char>, Seq<Seq<char>>)>)> {
        match self.cache {
            Some(c) => Some((c.name@, errs_view(c.errors@))),
            None => None,
        }
    }

    /// The words that `should_add` decided on, in order, each with the
    /// report that the decision used.
    pub closed spec fn consulted(&self) -> Seq<(Seq<char>, Seq<(Seq<char>, Seq<Seq<char>>)>)> {
        self.consulted@
    }

    /// The words handed to `add_word`, in order, whatever the checker answered.
    pub closed spec fn added(&self) -> Seq<Seq<char>> {
        self.added@
    }

    /// How many queries failed: the checker did not answer, or the text could
    /// not be sent to it.
    pub closed spec fn failures(&self) -> nat {
        self.failures@
    }

    /// The report now kept; meaningful once some text has been asked about.
    pub open spec fn report(&self) -> Seq<(Seq<char>, Seq<Seq<char>>)> {
        (self.cached()->0).1
    }

    /// Starts aspell with dictionary `dict`.
    pub fn new(dict: &str) -> (r: Result<Self, PipelineError>)
        ensures
            r matches Ok(s) ==> s.cached() is None && s.consulted().len() == 0 && s.added().len()
                == 0 && s.failures() == 0,
            r is Err ==> r matches Err(PipelineError::Oracle { .. }),
    {
        match launch_aspell(dict, ORACLE_TIMEOUT_MS) {
            Ok(aspell) => Ok(
                SpellCheck {
                    aspell,
                    cache: None,
                    consulted: Ghost(Seq::empty()),
                    added: Ghost(Seq::empty()),
                    failures: Ghost(0),
                },
            ),
            Err(cause) => Err(PipelineError::Oracle { cause }),
        }
    }

    /// Adds `new_word` to the checker's dictionary for this run.
    pub fn add_word(&mut self, new_word: &str) -> (r: Result<(), PipelineError>)
        ensures
            final(self).cached() == old(self).cached(),
            final(self).consulted() == old(self).consulted(),
            final(self).failures() == old(self).failures(),
            final(self).added() == old(self).added().push(new_word@),
            r is Err ==> r matches Err(PipelineError::Oracle { .. }),
    {
        self.added = Ghost(self.added@.push(new_word@));
        match oracle_add(&mut self.aspell, new_word) {
            Ok(()) => Ok(()),
            Err(cause) => Err(PipelineError::Oracle { cause }),
        }
    }

    /// Takes the checker's `answer` on `word`: a report becomes the kept
    /// one; a failure is counted and leaves the kept report as it was.
    pub fn settle(&mut self, word: &str, answer: Result<Vec<Misspelling>, ispell::Error>) -> (r:
        Result<(), PipelineError>)
        ensures
            answer is Ok <==> r is Ok,
            answer matches Ok(errs) ==> final(self).cached() == Some((word@, errs_view(errs@))),
            r is Ok ==> final(self).failures() == old(self).failures(),
            r is Err ==> final(self).cached() == old(self).cached() && final(self).failures()
                == old(self).failures() + 1 && r matches Err(PipelineError::Oracle { .. }),
            final(self).consulted() == old(self).consulted(),
            final(self).added() == old(self).added(),
    {
        match answer {
            Ok(errors) => {
                self.cache = Some(SpellCache { name: word.to_string(), errors });
                Ok(())
            },
            Err(cause) => {
                self.failures = Ghost(self.failures@ + 1);
                Err(PipelineError::Oracle { cause })
            },
        }
    }

    /// Makes the kept report the one on `word`, asking the checker only when
    /// the kept one is on another text; a text with a line break is refused.
    fn refresh(&mut self, word: &str) -> (r: Result<(), PipelineError>)
        ensures
            r is Ok ==> (final(self).cached() matches Some((w, _)) && w == word@),
            r is Ok ==> final(self).failures() == old(self).failures(),
            r is Err ==> final(self).cached() == old(self).cached() && final(self).failures()
                == old(self).failures() + 1,
            final(self).consulted() == old(self).consulted(),
            final(self).added() == old(self).added(),
            (old(self).cached() matches Some((w, _)) && w == word@) ==> r is Ok
                && final(self).cached() == old(self).cached(),
            r matches Err(e) ==> is_checker_error(e),
            r matches Err(e) ==> (e is LineBreak <==> !single_line(word@)),
    {
        let stale = match &self.cache {
            Some(c) => c.name != word.to_string(),
            None => true,
        };
        if stale {
            if has_line_break(word) {
                self.failures = Ghost(self.failures@ + 1);
                return Err(PipelineError::LineBreak { text: word.to_string() });
            }
            let answer = oracle_check(&mut self.aspell, word);
            return self.settle(word, answer);
        }
        Ok(())
    }

    /// The checker's report on `text`: the words it does not know, with its
    /// suggestions; asked only when the kept report is on another text.
    pub fn check(&mut self, text: &str) -> (r: Result<Vec<Misspelling>, PipelineError>)
        ensures
            r is Ok ==> (final(self).cached() matches Some((w, _)) && w == text@),
            r matches Ok(errs) ==> errs_view(errs@) == final(self).report(),
            r is Err ==> final(self).cached() == old(self).cached(),
            (old(self).cached() matches Some((w, _)) && w == text@) ==> r is Ok
                && final(self).cached() == old(self).cached(),
            r matches Err(e) ==> is_checker_error(e),
            r is Ok ==> final(self).failures() == old(self).failures(),
            r is Err ==> final(self).failures() == old(self).failures() + 1,
            final(self).added() == old(self).added(),
    {
        self.refresh(text)?;
        match &self.cache {
            Some(c) => Ok(copy_report(&c.errors)),
            None => Ok(Vec::new()),
        }
    }

    /// Whether the checker knows `word` up to case (see `knows_same_accent`).
    pub fn has_same_accent_word(&mut self, word: &str) -> (r: Result<bool, PipelineError>)
        ensures
            r is Ok ==> (final(self).cached() matches Some((w, _)) && w == word@),
            r matches Ok(b) ==> b == knows_same_accent(word@, final(self).report()),
            (old(self).cached() matches Some((w, _)) && w == word@) ==> r is Ok
                && final(self).cached() == old(self).cached(),
            r is Err ==> final(self).cached() == old(self).cached(),
            r matches Err(e) ==> is_checker_error(e),
            r is Ok ==> final(self).failures() == old(self).failures(),
            r is Err ==> final(self).failures() == old(self).failures() + 1,
            final(self).added() == old(self).added(),
    {
        self.refresh(word)?;
        match &self.cache {
            Some(c) => Ok(same_accent_known(word, &c.errors)),
            None => Ok(true),
        }
    }

    /// Whether the checker knows a word of the same key as `word` (see
    /// `knows_competitor`).
    pub fn has_competitor_word(&mut self, word: &str) -> (r: Result<bool, PipelineError>)
        ensures
            r is Ok ==> (final(self).cached() matches Some((w, _)) && w == word@),
            r matches Ok(b) ==> b == knows_competitor(word@, final(self).report()),
            (old(self).cached() matches Some((w, _)) && w == word@) ==> r is Ok
                && final(self).cached() == old(self).cached(),
            r is Err ==> final(self).cached() == old(self).cached(),
            r matches Err(e) ==> is_checker_error(e),
            r is Ok ==> final(self).failures() == old(self).failures(),
            r is Err ==> final(self).failures() == old(self).failures() + 1,
            final(self).added() == old(self).added(),
    {
        self.refresh(word)?;
        match &self.cache {
            Some(c) => Ok(competitor_known(word, &c.errors)),
            None => Ok(true),
        }
    }

    /// Whether the dominant spelling `word`, seen `count` times in a corpus
    /// of `corpus_size` words, goes into the dictionary (see
    /// `should_inject`). The checker is asked only about a word that
    /// carries a diacritic.
    pub fn should_add(&mut self, word: &str, count: u64, corpus_size: u64) -> (r: Result<
        bool,
        PipelineError,
    >)
        ensures
            !has_accent_spec(word@) ==> r == Ok::<bool, PipelineError>(false)
                && final(self).cached() == old(self).cached() && final(self).consulted()
                == old(self).consulted(),
            r is Ok && has_accent_spec(word@) ==> final(self).consulted() == old(
                self,
            ).consulted().push((word@, final(self).report())),
            r is Err ==> final(self).consulted() == old(self).consulted(),
            r is Ok && has_accent_spec(word@) ==> (final(self).cached() matches Some((w, _)) && w
                == word@),
            r matches Ok(b) ==> b == should_inject(
                word@,
                count as nat,
                corpus_size as nat,
                final(self).report(),
            ),
            r matches Err(e) ==> is_checker_error(e),
            r is Ok ==> final(self).failures() == old(self).failures(),
            r is Err ==> final(self).failures() == old(self).failures() + 1,
            final(self).added() == old(self).added(),
    {
        if !has_accent(word) {
            return Ok(false);
        }
        self.refresh(word)?;
        let ghost log = self.consulted@.push((word@, self.report()));
        self.consulted = Ghost(log);
        match &self.cache {
            Some(c) => Ok(injection_decision(word, count, corpus_size, &c.errors)),
            None => Ok(false),
        }
    }

    /// `name` with the diacritics that the checker's report on it allows to
    /// add (see `fix_accents`); ambiguous cases are reported in `notes`.
    pub fn process(&mut self, name: &str, notes: &mut Vec<Diagnostic>) -> (r: Result<
        String,
        PipelineError,
    >)
        ensures
            r is Ok ==> (final(self).cached() matches Some((w, _)) && w == name@),
            r matches Ok(s) ==> s@ == fix_all(name@, final(self).report()),
            r is Ok ==> notes_view(final(notes)@) == notes_view(old(notes)@) + ambiguities(
                final(self).report(),
            ),
            r is Err ==> final(notes)@ == old(notes)@,
            (old(self).cached() matches Some((w, _)) && w == name@) ==> r is Ok
                && final(self).cached() == old(self).cached(),
            r is Err ==> final(self).cached() == old(self).cached(),
            r matches Err(e) ==> is_checker_error(e),
            r is Ok ==> final(self).failures() == old(self).failures(),
            r is Err ==> final(self).failures() == old(self).failures() + 1,
            final(self).added() == old(self).added(),
    {
        self.refresh(name)?;
        match &self.cache {
            Some(c) => Ok(fix_accents(name, &c.errors, notes)),
            None => Ok(name.to_string()),
        }
    }
}

} // verus!
