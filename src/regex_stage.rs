//! Stages driven by a regular expression from the configuration: one rewrites
//! every match, the other reports every match. Patterns match regardless of
//! case; each stage keeps its pattern, checked when the stage is built.
use vstd::prelude::*;

use crate::error::PipelineError;
use crate::text::{lower_str, str_lower};

verus! {

#[verifier::external_type_specification]
#[verifier::external_body]
pub struct ExRegexError(regex::Error);

/// Whether `regex` compiles `pattern`, matching regardless of case, with its
/// default limits.
pub uninterp spec fn ci_valid(pattern: Seq<char>) -> bool;

/// What `regex::Regex::replace_all` returns for the case-insensitive regex of
/// `pattern`, the text `text` and the replacement `rep`.
pub uninterp spec fn ci_replaced(pattern: Seq<char>, text: Seq<char>, rep: Seq<char>) -> Seq<char>;

/// The texts of the matches that `regex::Regex::find_iter` yields for the
/// case-insensitive regex of `pattern` in `text`, from left to right.
pub uninterp spec fn ci_matches(pattern: Seq<char>, text: Seq<char>) -> Seq<Seq<char>>;

/// What `regex::Regex::is_match` answers for the case-insensitive regex of
/// `pattern` on `text`.
pub uninterp spec fn ci_is_match(pattern: Seq<char>, text: Seq<char>) -> bool;

/// What `regex::Regex::replace_all` returns for the case-insensitive regex of
/// `pattern` and the text `text`, when each match is replaced by its
/// capture group 1, group 2 in lowercase, an apostrophe and group 3 (see
/// `elide`).
pub uninterp spec fn ci_elided(pattern: Seq<char>, text: Seq<char>) -> Seq<char>;

/// Relies on `regex::RegexBuilder::build`: compiles `pattern`, matching
/// regardless of case, or says why it cannot.
#[verifier::external_body]
fn check_pattern(pattern: &str) -> (r: Result<(), regex::Error>)
    ensures
        r is Ok <==> ci_valid(pattern@),
{
    regex::RegexBuilder::new(pattern).case_insensitive(true).build().map(|_| ())
}

/// Relies on `regex::Regex::replace_all`: every non-overlapping match of the
/// regex of `pattern` in `text` replaced by `rep`, where `$1`, `${name}` and
/// the like stand for capture groups.
#[verifier::external_body]
fn replace_all(pattern: &str, text: &str, rep: &str) -> (r: String)
    requires
        ci_valid(pattern@),
    ensures
        r@ == ci_replaced(pattern@, text@, rep@),
{
    regex::RegexBuilder::new(pattern).case_insensitive(true).build().map(
        |re| re.replace_all(text, rep).into_owned(),
    ).unwrap_or_default()
}

/// Relies on `regex::Regex::find_iter`: the text of every non-overlapping
/// match of the regex of `pattern` in `text`, from left to right.
#[verifier::external_body]
pub(crate) fn find_all(pattern: &str, text: &str) -> (r: Vec<String>)
    requires
        ci_valid(pattern@),
    ensures
        r@.map_values(|s: String| s@) == ci_matches(pattern@, text@),
{
    regex::RegexBuilder::new(pattern).case_insensitive(true).build().map(
        |re| re.find_iter(text).map(|m| m.as_str().to_string()).collect(),
    ).unwrap_or_default()
}

/// Relies on `regex::Regex::is_match`: whether the regex of `pattern` matches
/// somewhere in `text`.
#[verifier::external_body]
pub(crate) fn is_match(pattern: &str, text: &str) -> (r: bool)
    requires
        ci_valid(pattern@),
    ensures
        r == ci_is_match(pattern@, text@),
{
    regex::RegexBuilder::new(pattern).case_insensitive(true).build().map(
        |re| re.is_match(text),
    ).unwrap_or_default()
}

/// Relies on `regex::Regex::replace_all` with a closure: every
/// non-overlapping match of the regex of `pattern` in `text` replaced by what
/// `elide` makes of its capture groups 1 to 3, a group that is missing or
/// takes no part counting as empty.
#[verifier::external_body]
fn replace_all_elided(pattern: &str, text: &str) -> (r: String)
    requires
        ci_valid(pattern@),
    ensures
        r@ == ci_elided(pattern@, text@),
{
    regex::RegexBuilder::new(pattern).case_insensitive(true).build().map(
        |re|
            re.replace_all(
                text,
                |caps: &regex::Captures|
                    elide(
                        caps.get(1).map_or("", |m| m.as_str()),
                        caps.get(2).map_or("", |m| m.as_str()),
                        caps.get(3).map_or("", |m| m.as_str()),
                    ),
            ).into_owned(),
    ).unwrap_or_default()
}

/// `before`, then `article` in lowercase, an apostrophe, and `after`: the
/// elided form of an article (`L hotel` gives `l'hotel`).
pub fn elide(before: &str, article: &str, after: &str) -> (r: String)
    ensures
        r@ == before@ + lower_str(article@) + seq!['\''] + after@,
{
    let mut r = before.to_string();
    let a = str_lower(article);
    r.append(a.as_str());
    r.append("'");
    r.append(after);
    proof {
        reveal_strlit("'");
    }
    r
}

/// Checks that `pattern` compiles; one that does not gives
/// `PipelineError::BadRegex` with that pattern.
pub(crate) fn compile(pattern: &str) -> (r: Result<(), PipelineError>)
    ensures
        r is Ok <==> ci_valid(pattern@),
        r is Err ==> (r matches Err(PipelineError::BadRegex { pattern: p, .. }) && p@ == pattern@),
{
    match check_pattern(pattern) {
        Ok(()) => Ok(()),
        Err(reason) => Err(PipelineError::BadRegex { pattern: pattern.to_string(), reason }),
    }
}

/// The stage that rewrites every match of a pattern, matched regardless of case.
pub struct RegexReplace {
    from: String,
    to: String,
}

impl RegexReplace {
    /// The pattern whose matches are replaced.
    pub closed spec fn pattern(&self) -> Seq<char> {
        self.from@
    }

    /// The replacement text, in which `$1` and the like stand for capture groups.
    pub closed spec fn replacement(&self) -> Seq<char> {
        self.to@
    }

    /// The pattern compiles.
    pub open spec fn wf(&self) -> bool {
        ci_valid(self.pattern())
    }

    /// The stage that replaces matches of `from` by `to`; refused exactly when
    /// `from` does not compile.
    pub fn new(from: &str, to: &str) -> (r: Result<Self, PipelineError>)
        ensures
            r is Ok <==> ci_valid(from@),
            r matches Ok(p) ==> p.wf() && p.pattern() == from@ && p.replacement() == to@,
            r is Err ==> (r matches Err(PipelineError::BadRegex { pattern, .. }) && pattern@
                == from@),
    {
        compile(from)?;
        Ok(RegexReplace { from: from.to_string(), to: to.to_string() })
    }

    /// `name` with every match of the pattern replaced.
    pub fn process(&self, name: &str) -> (r: String)
        requires
            self.wf(),
        ensures
            r@ == ci_replaced(self.pattern(), name@, self.replacement()),
    {
        replace_all(self.from.as_str(), name, self.to.as_str())
    }
}

/// The stage that reports every match of a pattern, matched regardless of
/// case, and leaves the name as it is.
pub struct LogSuspicious {
    regex: String,
}

impl LogSuspicious {
    /// The pattern whose matches are reported.
    pub closed spec fn pattern(&self) -> Seq<char> {
        self.regex@
    }

    /// The pattern compiles.
    pub open spec fn wf(&self) -> bool {
        ci_valid(self.pattern())
    }

    /// The stage that reports matches of `regex`; refused exactly when it does
    /// not compile.
    pub fn new(regex: &str) -> (r: Result<Self, PipelineError>)
        ensures
            r is Ok <==> ci_valid(regex@),
            r matches Ok(p) ==> p.wf() && p.pattern() == regex@,
            r is Err ==> (r matches Err(PipelineError::BadRegex { pattern, .. }) && pattern@
                == regex@),
    {
        compile(regex)?;
        Ok(LogSuspicious { regex: regex.to_string() })
    }

    /// The text of every match of the pattern in `name`, from left to right.
    pub fn process(&self, name: &str) -> (r: Vec<String>)
        requires
            self.wf(),
        ensures
            r@.map_values(|s: String| s@) == ci_matches(self.pattern(), name@),
    {
        find_all(self.regex.as_str(), name)
    }
}

/// The views of a list of patterns.
pub open spec fn patterns_view(ps: Seq<&str>) -> Seq<Seq<char>> {
    ps.map_values(|p: &str| p@)
}

/// Whether every pattern of `ps` compiles.
pub open spec fn all_valid(ps: Seq<Seq<char>>) -> bool {
    forall|i: int| 0 <= i < ps.len() ==> ci_valid(#[trigger] ps[i])
}

/// Whether some pattern of `ps` matches somewhere in `text`.
pub open spec fn any_ci_match(ps: Seq<Seq<char>>, text: Seq<char>) -> bool {
    exists|i: int| 0 <= i < ps.len() && ci_is_match(#[trigger] ps[i], text)
}

/// Checks that every pattern of `patterns` compiles.
pub(crate) fn compile_all(patterns: &Vec<&str>) -> (r: Result<(), PipelineError>)
    ensures
        r is Ok <==> all_valid(patterns_view(patterns@)),
        r is Err ==> r matches Err(PipelineError::BadRegex { .. }),
{
    let ghost pv = patterns_view(patterns@);
    let mut i: usize = 0;
    while i < patterns.len()
        invariant
            i <= patterns.len(),
            pv == patterns_view(patterns@),
            forall|j: int| 0 <= j < i ==> ci_valid(#[trigger] pv[j]),
        decreases patterns.len() - i,
    {
        if let Err(e) = compile(patterns[i]) {
            assert(!ci_valid(pv[i as int]));
            return Err(e);
        }
        i = i + 1;
    }
    Ok(())
}

/// Whether any of `patterns`, which all compile, matches somewhere in
/// `text`, regardless of case.
pub(crate) fn matches_any(patterns: &Vec<&str>, text: &str) -> (r: bool)
    requires
        all_valid(patterns_view(patterns@)),
    ensures
        r == any_ci_match(patterns_view(patterns@), text@),
{
    let ghost pv = patterns_view(patterns@);
    let mut i: usize = 0;
    while i < patterns.len()
        invariant
            i <= patterns.len(),
            pv == patterns_view(patterns@),
            all_valid(pv),
            forall|j: int| 0 <= j < i ==> !ci_is_match(#[trigger] pv[j], text@),
        decreases patterns.len() - i,
    {
        assert(ci_valid(pv[i as int]));
        if is_match(patterns[i], text) {
            assert(ci_is_match(pv[i as int], text@));
            return true;
        }
        i = i + 1;
    }
    false
}

/// The views of a rewrite table.
pub open spec fn rules_view(rules: Seq<(&str, &str)>) -> Seq<(Seq<char>, Seq<char>)> {
    rules.map_values(|r: (&str, &str)| (r.0@, r.1@))
}

/// `name` after each rule (pattern, replacement) of `rules` in turn.
pub open spec fn replaced_all(name: Seq<char>, rules: Seq<(Seq<char>, Seq<char>)>) -> Seq<char>
    decreases rules.len(),
{
    if rules.len() == 0 {
        name
    } else {
        ci_replaced(rules.last().0, replaced_all(name, rules.drop_last()), rules.last().1)
    }
}

/// `name` rewritten by each rule (pattern, replacement) of `rules` in turn;
/// refused exactly when a pattern does not compile.
pub(crate) fn rewrite(name: &str, rules: &Vec<(&str, &str)>) -> (r: Result<String, PipelineError>)
    ensures
        r is Ok <==> all_valid(rules_view(rules@).map_values(|r: (Seq<char>, Seq<char>)| r.0)),
        r matches Ok(s) ==> s@ == replaced_all(name@, rules_view(rules@)),
        r is Err ==> r matches Err(PipelineError::BadRegex { .. }),
{
    let ghost rv = rules_view(rules@);
    let ghost froms = rv.map_values(|r: (Seq<char>, Seq<char>)| r.0);
    let mut i: usize = 0;
    while i < rules.len()
        invariant
            i <= rules.len(),
            rv == rules_view(rules@),
            froms == rv.map_values(|r: (Seq<char>, Seq<char>)| r.0),
            forall|j: int| 0 <= j < i ==> ci_valid(#[trigger] froms[j]),
        decreases rules.len() - i,
    {
        assert(froms[i as int] == rules@[i as int].0@);
        if let Err(e) = compile(rules[i].0) {
            assert(!ci_valid(froms[i as int]));
            return Err(e);
        }
        i = i + 1;
    }
    let mut res = name.to_string();
    let mut i: usize = 0;
    while i < rules.len()
        invariant
            i <= rules.len(),
            rv == rules_view(rules@),
            froms == rv.map_values(|r: (Seq<char>, Seq<char>)| r.0),
            all_valid(froms),
            res@ == replaced_all(name@, rv.take(i as int)),
        decreases rules.len() - i,
    {
        assert(ci_valid(froms[i as int]));
        assert(rv.take(i + 1).drop_last() =~= rv.take(i as int));
        res = replace_all(rules[i].0, res.as_str(), rules[i].1);
        i = i + 1;
    }
    assert(rv.take(rules.len() as int) =~= rv);
    Ok(res)
}

/// `text` with every match of `pattern` turned into an elided article (see
/// `elide`); refused exactly when `pattern` does not compile.
pub(crate) fn elide_all(pattern: &str, text: &str) -> (r: Result<String, PipelineError>)
    ensures
        r is Ok <==> ci_valid(pattern@),
        r matches Ok(s) ==> s@ == ci_elided(pattern@, text@),
        r is Err ==> r matches Err(PipelineError::BadRegex { .. }),
{
    compile(pattern)?;
    Ok(replace_all_elided(pattern, text))
}

} // verus!
