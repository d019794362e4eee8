//! Fixed rules for French place names, in a single table: case of common
//! words and acronyms, and abbreviations and typography in one pass.
use vstd::prelude::*;

use crate::error::PipelineError;
use crate::fixed_case::{cased_name, case_words, RegexProcessor};
use crate::regex_processor::froms;
use crate::regex_stage::{
    all_valid, ci_elided, elide_all, patterns_view, replaced_all, rewrite, rules_view,
};

verus! {

/// The words put in lowercase: articles, prepositions, `à` and ordinals.
pub open spec fn small_word_patterns() -> Seq<Seq<char>> {
    seq![
        r"(?i)^(en|sur|et|sous|de|du|des|le|la|les|au|aux|un|une)$"@,
        r"(?i)^(à|\d+([eè]me|[eè]re?|nde?))$"@,
    ]
}

fn small_word_list() -> (r: Vec<&'static str>)
    ensures
        patterns_view(r@) == small_word_patterns(),
{
    let mut r: Vec<&'static str> = Vec::new();
    r.push(r"(?i)^(en|sur|et|sous|de|du|des|le|la|les|au|aux|un|une)$");
    r.push(r"(?i)^(à|\d+([eè]me|[eè]re?|nde?))$");
    assert(patterns_view(r@) =~= small_word_patterns());
    r
}

/// The words put in uppercase: known acronyms, words holding a digit, road
/// numbers and Roman numerals.
pub open spec fn acronym_patterns() -> Seq<Seq<char>> {
    seq![
        r"(?i)^(RER|CDG|CES|ASPTT|PTT|EDF|GDF|INRIA|INRA|CRC|HEC|SNCF|RATP|HLM|CHR|CHU)$"@,
        r"(?i)^(KFC|MJC|IME|CAT|DDE|LEP|EGB|SNECMA|DGAT|VVF)$"@,
        r"(?i)^(ZA|ZAC|ZI|RPA|CFA|CEA|CC|IUT|TGV|CCI|UFR|CPAM|ANPE|\w*\d\w*|RN\d*|RD\d*)$"@,
        r"(?i)^(XL|X{0,3})(IX|IV|V?I{0,3})$"@,
    ]
}

fn acronym_list() -> (r: Vec<&'static str>)
    ensures
        patterns_view(r@) == acronym_patterns(),
{
    let mut r: Vec<&'static str> = Vec::new();
    r.push(r"(?i)^(RER|CDG|CES|ASPTT|PTT|EDF|GDF|INRIA|INRA|CRC|HEC|SNCF|RATP|HLM|CHR|CHU)$");
    r.push(r"(?i)^(KFC|MJC|IME|CAT|DDE|LEP|EGB|SNECMA|DGAT|VVF)$");
    r.push(r"(?i)^(ZA|ZAC|ZI|RPA|CFA|CEA|CC|IUT|TGV|CCI|UFR|CPAM|ANPE|\w*\d\w*|RN\d*|RD\d*)$");
    r.push(r"(?i)^(XL|X{0,3})(IX|IV|V?I{0,3})$");
    assert(patterns_view(r@) =~= acronym_patterns());
    r
}

/// The words of `name` in turn: lowercase where `small_word_patterns`
/// match, else uppercase where `acronym_patterns` match, else as they are.
/// Refused only if a pattern does not compile.
pub fn fixed_case_word(name: String) -> (r: Result<String, PipelineError>)
    ensures
        r is Ok <==> all_valid(small_word_patterns()) && all_valid(acronym_patterns()),
        r matches Ok(s) ==> s@ == cased_name(
            small_word_patterns(),
            acronym_patterns(),
            Seq::empty(),
            name@,
        ),
        r is Err ==> r matches Err(PipelineError::BadRegex { .. }),
{
    let lower = small_word_list();
    let upper = acronym_list();
    let table = RegexProcessor::new();
    case_words(name.as_str(), &lower, &upper, &table)
}

/// The abbreviations spelled out and typography settled: saint,
/// Notre-Dame, place, boulevard, avenue, route, ordinals, hôtel de ville,
/// `a` as `à`, rond-point, single spaces, général, maréchal.
pub open spec fn spelled_out_rules() -> Seq<(Seq<char>, Seq<char>)> {
    seq![
        (r"(?i)(^|\W)s(?:ain)?t(e?)\W+"@, "${1}Saint${2}-"@),
        (r"(?i)(^|\W)n(?:otre)?[ -]*d(?:ame)?(\W|$)"@, "${1}Notre-Dame${2}"@),
        (r"(?i)(^|\W)pl\.?(\W|$)"@, "${1}Place${2}"@),
        (r"(?i)(^|\W)bl?v?d\.?(\W|$)"@, "${1}Boulevard${2}"@),
        (r"(?i)(^|\W)ave?\.?(\W|$)"@, "${1}Avenue${2}"@),
        (r"(?i)(^|\W)rte(\W|$)"@, "${1}Route${2}"@),
        (r"(?i)(^|\W)(du|de la) (\d+)e(\W|$)"@, "${1}${2} ${3}ème${4}"@),
        (r"(?i)(^|\W)du 1ème(\W|$)"@, "${1}du 1er${2}"@),
        (r"(?i)(^|\W)de la 1ème(\W|$)"@, "${1}de la 1ère${2}"@),
        (r"(?i)(^|\W)hdv(\W|$)"@, "${1}Hôtel de Ville${2}"@),
        (r"(?i) a "@, " à "@),
        (r"(?i)(^|\W)ro?n?d[ \.-]?po?i?n?t(\W|$)"@, "${1}Rond-Point "@),
        (r"(?i)  +"@, " "@),
        (r"(?i)(^|\W)gal(\W|$)"@, "${1}Général${2}"@),
        (r"(?i)(^|\W)mal(\W|$)"@, "${1}Maréchal${2}"@),
    ]
}

fn spelled_out_table() -> (r: Vec<(&'static str, &'static str)>)
    ensures
        rules_view(r@) == spelled_out_rules(),
{
    let mut r: Vec<(&'static str, &'static str)> = Vec::new();
    r.push((r"(?i)(^|\W)s(?:ain)?t(e?)\W+", "${1}Saint${2}-"));
    r.push((r"(?i)(^|\W)n(?:otre)?[ -]*d(?:ame)?(\W|$)", "${1}Notre-Dame${2}"));
    r.push((r"(?i)(^|\W)pl\.?(\W|$)", "${1}Place${2}"));
    r.push((r"(?i)(^|\W)bl?v?d\.?(\W|$)", "${1}Boulevard${2}"));
    r.push((r"(?i)(^|\W)ave?\.?(\W|$)", "${1}Avenue${2}"));
    r.push((r"(?i)(^|\W)rte(\W|$)", "${1}Route${2}"));
    r.push((r"(?i)(^|\W)(du|de la) (\d+)e(\W|$)", "${1}${2} ${3}ème${4}"));
    r.push((r"(?i)(^|\W)du 1ème(\W|$)", "${1}du 1er${2}"));
    r.push((r"(?i)(^|\W)de la 1ème(\W|$)", "${1}de la 1ère${2}"));
    r.push((r"(?i)(^|\W)hdv(\W|$)", "${1}Hôtel de Ville${2}"));
    r.push((r"(?i) a ", " à "));
    r.push((r"(?i)(^|\W)ro?n?d[ \.-]?po?i?n?t(\W|$)", "${1}Rond-Point "));
    r.push((r"(?i)  +", " "));
    r.push((r"(?i)(^|\W)gal(\W|$)", "${1}Général${2}"));
    r.push((r"(?i)(^|\W)mal(\W|$)", "${1}Maréchal${2}"));
    assert(rules_view(r@) =~= spelled_out_rules());
    r
}

/// The elisions of `le`, `la`, `de` before a vowel or a mute h.
pub open spec fn apostrophe_patterns() -> Seq<Seq<char>> {
    seq![
        r"(?i)(^|\W)([ld])[ '](h[aiouye]|[aiouy]|et[^ ]|e[^t].)"@,
        r"(?i)(^|\W)([ld])e[ ']([aiouye]|[aiouy]|et[^ ]|e[^t].)"@,
    ]
}

fn apostrophe_list() -> (r: Vec<&'static str>)
    ensures
        patterns_view(r@) == apostrophe_patterns(),
{
    let mut r: Vec<&'static str> = Vec::new();
    r.push(r"(?i)(^|\W)([ld])[ '](h[aiouye]|[aiouy]|et[^ ]|e[^t].)");
    r.push(r"(?i)(^|\W)([ld])e[ ']([aiouye]|[aiouy]|et[^ ]|e[^t].)");
    assert(patterns_view(r@) =~= apostrophe_patterns());
    r
}

/// `name` after `spelled_out_rules`, then the elisions of
/// `apostrophe_patterns`. Refused only if a pattern does not compile.
pub fn sed_whole_name(name: String) -> (r: Result<String, PipelineError>)
    ensures
        r is Ok <==> all_valid(froms(spelled_out_rules())) && all_valid(apostrophe_patterns()),
        r matches Ok(s) ==> s@ == ci_elided(
            apostrophe_patterns()[1],
            ci_elided(apostrophe_patterns()[0], replaced_all(name@, spelled_out_rules())),
        ),
        r is Err ==> r matches Err(PipelineError::BadRegex { .. }),
{
    let rules = spelled_out_table();
    let elisions = apostrophe_list();
    let res = rewrite(name.as_str(), &rules)?;
    assert(apostrophe_patterns().len() == 2);
    assert(patterns_view(elisions@)[0] == elisions@[0]@);
    assert(patterns_view(elisions@)[1] == elisions@[1]@);
    let res = match elide_all(elisions[0], res.as_str()) {
        Ok(s) => s,
        Err(e) => {
            assert(!all_valid(apostrophe_patterns()));
            return Err(e);
        },
    };
    let r = elide_all(elisions[1], res.as_str());
    proof {
        if r is Ok {
            assert forall|i: int| 0 <= i < apostrophe_patterns().len() implies crate::regex_stage::ci_valid(
                #[trigger] apostrophe_patterns()[i],
            ) by {}
        }
    }
    r
}

} // verus!
