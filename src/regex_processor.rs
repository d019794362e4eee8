//! Fixed rules for French place names: words whose case is settled by their
//! form, abbreviations spelled out before the other stages, typography and
//! elisions settled after them, and characters worth a warning.
use vstd::prelude::*;

use crate::error::PipelineError;
use crate::fixed_case::{cased_name, case_words, RegexProcessor};
use crate::regex_stage::{
    all_valid, ci_elided, ci_matches, ci_valid, compile, elide_all, find_all, patterns_view, replaced_all,
    rewrite, rules_view,
};

verus! {

/// The words put in lowercase: ordinals (`3ème`, `1er`, `2nde`).
pub open spec fn ordinal_patterns() -> Seq<Seq<char>> {
    seq![
        r"(?i)^(\d+([eè]me|[eè]re?|nde?))$"@,
    ]
}

fn ordinal_list() -> (r: Vec<&'static str>)
    ensures
        patterns_view(r@) == ordinal_patterns(),
{
    let mut r: Vec<&'static str> = Vec::new();
    r.push(r"(?i)^(\d+([eè]me|[eè]re?|nde?))$");
    assert(patterns_view(r@) =~= ordinal_patterns());
    r
}

/// The words put in uppercase: Roman numerals, words holding a digit, road numbers.
pub open spec fn numbered_patterns() -> Seq<Seq<char>> {
    seq![
        r"(?i)^((XL|X{0,3})(IX|IV|V?I{0,3})|\w*\d\w*|RN\d*|RD\d*)$"@,
    ]
}

fn numbered_list() -> (r: Vec<&'static str>)
    ensures
        patterns_view(r@) == numbered_patterns(),
{
    let mut r: Vec<&'static str> = Vec::new();
    r.push(r"(?i)^((XL|X{0,3})(IX|IV|V?I{0,3})|\w*\d\w*|RN\d*|RD\d*)$");
    assert(patterns_view(r@) =~= numbered_patterns());
    r
}

/// The words of `name` in turn: ordinals (`3ème`, `1er`) in lowercase;
/// Roman numerals, words holding a digit and road numbers (`RN7`) in
/// uppercase; any other as the table `regex` spells it (see
/// `RegexProcessor::fix_case`). Refused only if a pattern does not compile.
pub fn fixed_case_word(name: &str, regex: &RegexProcessor) -> (r: Result<String, PipelineError>)
    requires
        regex.wf(),
    ensures
        r is Ok <==> all_valid(ordinal_patterns()) && all_valid(numbered_patterns()),
        r matches Ok(s) ==> s@ == cased_name(
            ordinal_patterns(),
            numbered_patterns(),
            regex.entries(),
            name@,
        ),
        r is Err ==> r matches Err(PipelineError::BadRegex { .. }),
{
    let lower = ordinal_list();
    let upper = numbered_list();
    case_words(name, &lower, &upper, regex)
}

/// The abbreviations spelled out before the other stages: saint, avenue,
/// place, boulevard, route, Notre-Dame, hôtel de ville, rond-point.
pub open spec fn before_rules() -> Seq<(Seq<char>, Seq<char>)> {
    seq![
        (r"(?i)(^|\W)s(?:ain)?t(e?)\W+"@, "${1}Saint${2}-"@),
        (r"(?i)(^|\W)ave?\.?(\W|$)"@, "${1}Avenue${2}"@),
        (r"(?i)(^|\W)pl\.?(\W|$)"@, "${1}Place${2}"@),
        (r"(?i)(^|\W)bl?v?d\.?(\W|$)"@, "${1}Boulevard${2}"@),
        (r"(?i)(^|\W)rte(\W|$)"@, "${1}Route${2}"@),
        (r"(?i)(^|\W)n(?:otre)?[ -]*d(?:ame)?(\W|$)"@, "${1}Notre-Dame${2}"@),
        (r"(?i)(^|\W)hdv(\W|$)"@, "${1}Hôtel de Ville${2}"@),
        (r"(?i)(^|\W)ro?n?d[ \.-]?po?i?n?t(\W|$)"@, "${1}Rond-Point "@),
    ]
}

fn before_table() -> (r: Vec<(&'static str, &'static str)>)
    ensures
        rules_view(r@) == before_rules(),
{
    let mut r: Vec<(&'static str, &'static str)> = Vec::new();
    r.push((r"(?i)(^|\W)s(?:ain)?t(e?)\W+", "${1}Saint${2}-"));
    r.push((r"(?i)(^|\W)ave?\.?(\W|$)", "${1}Avenue${2}"));
    r.push((r"(?i)(^|\W)pl\.?(\W|$)", "${1}Place${2}"));
    r.push((r"(?i)(^|\W)bl?v?d\.?(\W|$)", "${1}Boulevard${2}"));
    r.push((r"(?i)(^|\W)rte(\W|$)", "${1}Route${2}"));
    r.push((r"(?i)(^|\W)n(?:otre)?[ -]*d(?:ame)?(\W|$)", "${1}Notre-Dame${2}"));
    r.push((r"(?i)(^|\W)hdv(\W|$)", "${1}Hôtel de Ville${2}"));
    r.push((r"(?i)(^|\W)ro?n?d[ \.-]?po?i?n?t(\W|$)", "${1}Rond-Point "));
    assert(rules_view(r@) =~= before_rules());
    r
}

/// The patterns of a table.
pub open spec fn froms(rules: Seq<(Seq<char>, Seq<char>)>) -> Seq<Seq<char>> {
    rules.map_values(|r: (Seq<char>, Seq<char>)| r.0)
}

/// `name` with common abbreviations spelled out (see `before_rules`).
pub fn sed_whole_name_before(name: &str) -> (r: Result<String, PipelineError>)
    ensures
        r is Ok <==> all_valid(froms(before_rules())),
        r matches Ok(s) ==> s@ == replaced_all(name@, before_rules()),
        r is Err ==> r matches Err(PipelineError::BadRegex { .. }),
{
    let rules = before_table();
    rewrite(name, &rules)
}

/// The rewrites made after the other stages, before elision: ordinals
/// spelled out, `a` as `à`, straight apostrophes, single spaces, spaced
/// dashes, général and maréchal.
pub open spec fn after_typography_rules() -> Seq<(Seq<char>, Seq<char>)> {
    seq![
        (r"(?i)(^|\W)(du|de la) (\d+)e(\W|$)"@, "${1}${2} ${3}ème${4}"@),
        (r"(?i)(^|\W)du 1ème(\W|$)"@, "${1}du 1er${2}"@),
        (r"(?i)(^|\W)de la 1ème(\W|$)"@, "${1}de la 1ère${2}"@),
        (r"(?i) a "@, " à "@),
        (r"(?i)’"@, "'"@),
        (r"(?i)[_ ]+"@, " "@),
        (r"(?i)(^|[^ ])(?: -|- )([^ ]|$)"@, "${1} - ${2}"@),
        (r"(?i)(^|\W)gal(\W|$)"@, "${1}Général${2}"@),
        (r"(?i)(^|\W)mal(\W|$)"@, "${1}Maréchal${2}"@),
    ]
}

fn after_typography_table() -> (r: Vec<(&'static str, &'static str)>)
    ensures
        rules_view(r@) == after_typography_rules(),
{
    let mut r: Vec<(&'static str, &'static str)> = Vec::new();
    r.push((r"(?i)(^|\W)(du|de la) (\d+)e(\W|$)", "${1}${2} ${3}ème${4}"));
    r.push((r"(?i)(^|\W)du 1ème(\W|$)", "${1}du 1er${2}"));
    r.push((r"(?i)(^|\W)de la 1ème(\W|$)", "${1}de la 1ère${2}"));
    r.push((r"(?i) a ", " à "));
    r.push((r"(?i)’", "'"));
    r.push((r"(?i)[_ ]+", " "));
    r.push((r"(?i)(^|[^ ])(?: -|- )([^ ]|$)", "${1} - ${2}"));
    r.push((r"(?i)(^|\W)gal(\W|$)", "${1}Général${2}"));
    r.push((r"(?i)(^|\W)mal(\W|$)", "${1}Maréchal${2}"));
    assert(rules_view(r@) =~= after_typography_rules());
    r
}

/// The elisions of `le`, `la`, `de` before a vowel or a mute h.
pub open spec fn elision_patterns() -> Seq<Seq<char>> {
    seq![
        r"(?i)(^|\W)([ld])[ ']+(h[aiîouyeéèê]|[aiîouyéèê]|et[^ ]|e[^t].)"@,
        r"(?i)(^|\W)([ld])e[ ']+([aiîouyéèê]|et[^ ]|e[^t].)"@,
    ]
}

fn elision_list() -> (r: Vec<&'static str>)
    ensures
        patterns_view(r@) == elision_patterns(),
{
    let mut r: Vec<&'static str> = Vec::new();
    r.push(r"(?i)(^|\W)([ld])[ ']+(h[aiîouyeéèê]|[aiîouyéèê]|et[^ ]|e[^t].)");
    r.push(r"(?i)(^|\W)([ld])e[ ']+([aiîouyéèê]|et[^ ]|e[^t].)");
    assert(patterns_view(r@) =~= elision_patterns());
    r
}

/// The contractions made last: `de le` as `du`, `de les` as `des`.
pub open spec fn contraction_rules() -> Seq<(Seq<char>, Seq<char>)> {
    seq![
        (r"(?i)(^|\W)de le(\W|$)"@, "${1}du${2}"@),
        (r"(?i)(^|\W)de les(\W|$)"@, "${1}des${2}"@),
    ]
}

fn contraction_table() -> (r: Vec<(&'static str, &'static str)>)
    ensures
        rules_view(r@) == contraction_rules(),
{
    let mut r: Vec<(&'static str, &'static str)> = Vec::new();
    r.push((r"(?i)(^|\W)de le(\W|$)", "${1}du${2}"));
    r.push((r"(?i)(^|\W)de les(\W|$)", "${1}des${2}"));
    assert(rules_view(r@) =~= contraction_rules());
    r
}

/// `name` after `after_typography_rules`, then the elisions of
/// `elision_patterns` (`l'hôtel`, `d'Orléans`), then `contraction_rules`.
/// Refused only if a pattern does not compile.
pub fn sed_whole_name_after(name: &str) -> (r: Result<String, PipelineError>)
    ensures
        r is Ok <==> all_valid(froms(after_typography_rules())) && all_valid(elision_patterns())
            && all_valid(froms(contraction_rules())),
        r matches Ok(s) ==> s@ == replaced_all(
            ci_elided(
                elision_patterns()[1],
                ci_elided(elision_patterns()[0], replaced_all(name@, after_typography_rules())),
            ),
            contraction_rules(),
        ),
        r is Err ==> r matches Err(PipelineError::BadRegex { .. }),
{
    let typography = after_typography_table();
    let elisions = elision_list();
    let contractions = contraction_table();
    let res = rewrite(name, &typography)?;
    assert(elision_patterns().len() == 2);
    assert(patterns_view(elisions@)[0] == elisions@[0]@);
    assert(patterns_view(elisions@)[1] == elisions@[1]@);
    let res = elide_all(elisions[0], res.as_str());
    let res = match res {
        Ok(s) => elide_all(elisions[1], s.as_str()),
        Err(e) => {
            assert(!ci_valid(elision_patterns()[0]));
            return Err(e);
        },
    };
    let res = match res {
        Ok(s) => s,
        Err(e) => {
            assert(!ci_valid(elision_patterns()[1]));
            return Err(e);
        },
    };
    assert(all_valid(elision_patterns()));
    let r = rewrite(res.as_str(), &contractions);
    r
}

/// Whether `name` holds a comma.
fn has_comma(name: &str) -> (r: bool)
    ensures
        r == name@.contains(','),
{
    let cs = crate::text::chars_of(name);
    let mut i: usize = 0;
    while i < cs.len()
        invariant
            cs@ == name@,
            i <= cs.len(),
            forall|k: int| 0 <= k < i ==> cs@[k] != ',',
        decreases cs.len() - i,
    {
        if cs[i] == ',' {
            assert(name@[i as int] == ',');
            return true;
        }
        i = i + 1;
    }
    false
}

/// The pattern of suspicious characters: any but letters, digits, spaces and
/// `'` to `/` and `()`.
pub const SUSPICIOUS: &'static str = r"(?i)[^\w '-/\(\)\.]";

/// The suspicious parts of `name`: every match of `SUSPICIOUS`, then a
/// comma if `name` holds one. Refused only if the pattern does not compile.
pub fn log_suspicious(name: &str) -> (r: Result<Vec<String>, PipelineError>)
    ensures
        r is Ok <==> ci_valid(SUSPICIOUS@),
        r matches Ok(found) ==> found@.map_values(|s: String| s@) == ci_matches(SUSPICIOUS@, name@)
            + if name@.contains(',') {
            seq![seq![',']]
        } else {
            Seq::empty()
        },
        r is Err ==> r matches Err(PipelineError::BadRegex { .. }),
{
    compile(SUSPICIOUS)?;
    let mut found = find_all(SUSPICIOUS, name);
    let ghost fv = found@;
    let ghost before = found@.map_values(|s: String| s@);
    if has_comma(name) {
        let comma = ",".to_string();
        proof {
            reveal_strlit(",");
        }
        assert(comma@ =~= seq![',']);
        found.push(comma);
        assert(found@ == fv.push(comma));
        assert(found@.map_values(|s: String| s@) =~= before.push(seq![',']));
    } else {
        assert(before + Seq::<Seq<char>>::empty() =~= before);
    }
    Ok(found)
}

} // verus!
