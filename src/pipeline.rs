//! The processor chain: the configured stages applied in order to each
//! record's name, and the audit of what they changed.
use vstd::prelude::*;

use crate::decode::{decode, decode_spec, Decode};
use crate::error::PipelineError;
use crate::fixed_case::{fixed_case_spec, FixedcaseProcessor};
use crate::regex_stage::{ci_matches, ci_replaced, LogSuspicious, RegexReplace};
use crate::spelling::{
    is_checker_error,
    ambiguities, fix_all, notes_view, Diagnostic, DiagnosticView, SpellCheck,
};
use crate::text::{first_upper, first_upper_spec, snake_case, snake_case_spec};

verus! {

/// One stage of the chain.
pub enum Processor {
    Fixedcase(FixedcaseProcessor),
    RegexReplace(RegexReplace),
    Ispell(SpellCheck),
    Decode(Decode),
    SnakeCase,
    FirstLetterUppercase,
    LogSuspicious(LogSuspicious),
}

/// The name that stage `p` gives for `input`, where `q` is the stage once
/// run (a spell-check stage keeps its last report); `None` where the stage
/// fails whatever the outside world does (a decode stage with an unknown
/// encoding).
pub open spec fn stage_result(p: Processor, q: Processor, input: Seq<char>) -> Option<Seq<char>> {
    match p {
        Processor::Fixedcase(f) => Some(fixed_case_spec(f.pattern(), f.case(), input)),
        Processor::RegexReplace(r) => Some(ci_replaced(r.pattern(), input, r.replacement())),
        Processor::Ispell(_) => match q {
            Processor::Ispell(s) => Some(fix_all(input, s.report())),
            _ => None,
        },
        Processor::Decode(d) => decode_spec(input, d.from_encoding@),
        Processor::SnakeCase => Some(snake_case_spec(input)),
        Processor::FirstLetterUppercase => Some(first_upper_spec(input)),
        Processor::LogSuspicious(_) => Some(input),
    }
}

/// The diagnostics that stage `p` reports on `input`, `q` being the stage
/// once run: the spell checker's ambiguities, or one per match of a
/// suspicious pattern.
pub open spec fn stage_notes(p: Processor, q: Processor, input: Seq<char>) -> Seq<DiagnosticView> {
    match p {
        Processor::Ispell(_) => match q {
            Processor::Ispell(s) => ambiguities(s.report()),
            _ => Seq::empty(),
        },
        Processor::LogSuspicious(l) => ci_matches(l.pattern(), input).map_values(
            |m: Seq<char>| DiagnosticView::Suspicious { matched: m, name: input },
        ),
        _ => Seq::empty(),
    }
}

/// The outputs of the first `k` stages, run in order on `name`: `before`
/// are the stages as they were, `after` as they are once run. `None` if one
/// of them fails (see `stage_result`).
pub open spec fn chain_outs(
    before: Seq<Processor>,
    after: Seq<Processor>,
    name: Seq<char>,
    k: int,
) -> Option<Seq<Seq<char>>>
    decreases k,
{
    if k <= 0 {
        Some(Seq::empty())
    } else {
        match chain_outs(before, after, name, k - 1) {
            None => None,
            Some(o) => match stage_result(before[k - 1], after[k - 1], final_name(name, o)) {
                None => None,
                Some(x) => Some(o.push(x)),
            },
        }
    }
}

/// The diagnostics of the first `k` stages, run in order on `name` (see
/// `chain_outs` and `stage_notes`).
pub open spec fn chain_notes(
    before: Seq<Processor>,
    after: Seq<Processor>,
    name: Seq<char>,
    k: int,
) -> Seq<DiagnosticView>
    decreases k,
{
    if k <= 0 {
        Seq::empty()
    } else {
        chain_notes(before, after, name, k - 1) + stage_notes(
            before[k - 1],
            after[k - 1],
            final_name(name, chain_outs(before, after, name, k - 1)->0),
        )
    }
}

proof fn lemma_chain_same(
    b1: Seq<Processor>,
    a1: Seq<Processor>,
    b2: Seq<Processor>,
    a2: Seq<Processor>,
    name: Seq<char>,
    k: int,
)
    requires
        forall|j: int| 0 <= j < k ==> b1[j] == b2[j] && a1[j] == a2[j],
    ensures
        chain_outs(b1, a1, name, k) == chain_outs(b2, a2, name, k),
        chain_notes(b1, a1, name, k) == chain_notes(b2, a2, name, k),
    decreases k,
{
    if k > 0 {
        lemma_chain_same(b1, a1, b2, a2, name, k - 1);
        assert(b1[k - 1] == b2[k - 1] && a1[k - 1] == a2[k - 1]);
    }
}

proof fn lemma_chain_prefix(b: Seq<Processor>, a: Seq<Processor>, name: Seq<char>, k: int, n: int)
    requires
        0 <= k <= n,
        chain_outs(b, a, name, n) is Some,
    ensures
        chain_outs(b, a, name, k) is Some,
    decreases n - k,
{
    if k < n {
        lemma_chain_prefix(b, a, name, k + 1, n);
    }
}

proof fn lemma_chain_len(b: Seq<Processor>, a: Seq<Processor>, name: Seq<char>, k: int)
    requires
        k >= 0,
        chain_outs(b, a, name, k) is Some,
    ensures
        chain_outs(b, a, name, k)->0.len() == k,
    decreases k,
{
    if k > 0 {
        lemma_chain_len(b, a, name, k - 1);
    }
}

/// One record of the input: its id, its name, and all its columns as read.
pub struct Record {
    pub id: String,
    pub name: String,
    pub raw: Vec<String>,
}

/// What the chain did to a record whose name changed: its id, the name before
/// and after, and for each stage that changed it, the stage's position and
/// the name it gave.
pub struct RecordRule {
    pub id: String,
    pub old_name: String,
    pub new_name: String,
    pub modifications: Vec<(usize, String)>,
}

/// The name before stage `i`, where `outs` are the stages' outputs.
pub open spec fn input_of(original: Seq<char>, outs: Seq<Seq<char>>, i: int) -> Seq<char> {
    if i == 0 {
        original
    } else {
        outs[i - 1]
    }
}

/// The name after all the stages.
pub open spec fn final_name(original: Seq<char>, outs: Seq<Seq<char>>) -> Seq<char> {
    if outs.len() == 0 {
        original
    } else {
        outs.last()
    }
}

/// The stages whose output differs from their input, in order, each with
/// its output.
pub open spec fn changes(original: Seq<char>, outs: Seq<Seq<char>>) -> Seq<(int, Seq<char>)>
    decreases outs.len(),
{
    if outs.len() == 0 {
        Seq::empty()
    } else {
        let m = changes(original, outs.drop_last());
        let i = outs.len() - 1;
        if outs[i] != input_of(original, outs, i) {
            m.push((i, outs[i]))
        } else {
            m
        }
    }
}

/// The audit of a name run through stages with outputs `outs`: nothing when
/// the name came out as it went in and no stage changed it; else the final
/// name and the changes.
pub open spec fn audit(original: Seq<char>, outs: Seq<Seq<char>>) -> Option<
    (Seq<char>, Seq<(int, Seq<char>)>),
> {
    if final_name(original, outs) == original && changes(original, outs).len() == 0 {
        None
    } else {
        Some((final_name(original, outs), changes(original, outs)))
    }
}

/// The view of a rule's changes.
pub open spec fn changes_view(m: Seq<(usize, String)>) -> Seq<(int, Seq<char>)> {
    m.map_values(|e: (usize, String)| (e.0 as int, e.1@))
}

/// The rule for record `rec` whose name the stages turned into `outputs`, one
/// per stage in order; `None` when nothing changed (see `audit`).
pub fn audit_trail(rec: &Record, outputs: &Vec<String>) -> (r: Option<RecordRule>)
    ensures
        r is None <==> audit(rec.name@, outputs@.map_values(|s: String| s@)) is None,
        r matches Some(rule) ==> rule.id@ == rec.id@ && rule.old_name@ == rec.name@ && audit(
            rec.name@,
            outputs@.map_values(|s: String| s@),
        ) == Some((rule.new_name@, changes_view(rule.modifications@))),
{
    let ghost outs = outputs@.map_values(|s: String| s@);
    let mut modifications: Vec<(usize, String)> = Vec::new();
    let mut i: usize = 0;
    while i < outputs.len()
        invariant
            i <= outputs.len(),
            outs == outputs@.map_values(|s: String| s@),
            changes_view(modifications@) == changes(rec.name@, outs.take(i as int)),
        decreases outputs.len() - i,
    {
        let ghost m = modifications@;
        let prev: &String = if i == 0 {
            &rec.name
        } else {
            &outputs[i - 1]
        };
        proof {
            let t = outs.take(i + 1);
            assert(t.drop_last() =~= outs.take(i as int));
            assert(input_of(rec.name@, t, i as int) == prev@);
            assert(t[i as int] == outputs@[i as int]@);
        }
        if outputs[i] != *prev {
            modifications.push((i, outputs[i].clone()));
            assert(changes_view(modifications@) =~= changes_view(m).push(
                (i as int, outputs@[i as int]@),
            ));
        }
        i = i + 1;
    }
    assert(outs.take(outputs.len() as int) =~= outs);
    let new_name = if outputs.len() == 0 {
        rec.name.clone()
    } else {
        outputs[outputs.len() - 1].clone()
    };
    if new_name == rec.name && modifications.len() == 0 {
        None
    } else {
        Some(
            RecordRule {
                id: rec.id.clone(),
                old_name: rec.name.clone(),
                new_name,
                modifications,
            },
        )
    }
}

/// A name that no stage changes gets no audit.
pub proof fn lemma_unchanged_no_audit(original: Seq<char>, outs: Seq<Seq<char>>)
    requires
        forall|i: int| 0 <= i < outs.len() ==> #[trigger] outs[i] == original,
    ensures
        audit(original, outs) is None,
    decreases outs.len(),
{
    lemma_no_changes(original, outs);
}

proof fn lemma_no_changes(original: Seq<char>, outs: Seq<Seq<char>>)
    requires
        forall|i: int| 0 <= i < outs.len() ==> #[trigger] outs[i] == original,
    ensures
        changes(original, outs).len() == 0,
    decreases outs.len(),
{
    if outs.len() > 0 {
        let p = outs.drop_last();
        assert forall|i: int| 0 <= i < p.len() implies #[trigger] p[i] == original by {
            assert(p[i] == outs[i]);
        }
        lemma_no_changes(original, p);
        let i = outs.len() - 1;
        if i > 0 {
            assert(outs[i - 1] == original);
        }
    }
}

proof fn lemma_changes_from(original: Seq<char>, outs: Seq<Seq<char>>, k: int)
    requires
        0 <= k < outs.len(),
        forall|i: int| 0 <= i < k ==> #[trigger] outs[i] == original,
        outs[k] != original,
        forall|i: int| k <= i < outs.len() ==> #[trigger] outs[i] == outs[k],
    ensures
        changes(original, outs) == seq![(k, outs[k])],
    decreases outs.len(),
{
    let p = outs.drop_last();
    let i = outs.len() - 1;
    if i == k {
        assert forall|j: int| 0 <= j < p.len() implies #[trigger] p[j] == original by {
            assert(p[j] == outs[j]);
        }
        lemma_no_changes(original, p);
        if k > 0 {
            assert(outs[k - 1] == original);
        }
        assert(changes(original, outs) =~= seq![(k, outs[k])]);
    } else {
        assert forall|j: int| 0 <= j < k implies #[trigger] p[j] == original by {
            assert(p[j] == outs[j]);
        }
        assert forall|j: int| k <= j < p.len() implies #[trigger] p[j] == p[k] by {
            assert(p[j] == outs[j]);
        }
        lemma_changes_from(original, p, k);
        assert(outs[i - 1] == outs[k]);
    }
}

/// A name that only stage `k` changes gets an audit whose change log holds
/// exactly one entry: stage `k`, with the name it gave.
pub proof fn lemma_single_stage_change(original: Seq<char>, outs: Seq<Seq<char>>, k: int)
    requires
        0 <= k < outs.len(),
        forall|i: int| 0 <= i < k ==> #[trigger] outs[i] == original,
        outs[k] != original,
        forall|i: int| k <= i < outs.len() ==> #[trigger] outs[i] == outs[k],
    ensures
        audit(original, outs) == Some((outs[k], seq![(k, outs[k])])),
{
    lemma_changes_from(original, outs, k);
    assert(outs.last() == outs[k]);
}

impl Processor {
    /// A fixed-case stage holds a well-formed word table; a regex stage a
    /// pattern that compiles.
    pub open spec fn wf(&self) -> bool {
        match self {
            Processor::Fixedcase(f) => f.wf(),
            Processor::RegexReplace(r) => r.wf(),
            Processor::LogSuspicious(l) => l.wf(),
            _ => true,
        }
    }

    /// Runs the stage on `name`; its diagnostics go to the end of `notes`.
    /// Only a spell-check stage changes (its kept report).
    pub fn apply(&mut self, name: &str, notes: &mut Vec<Diagnostic>) -> (r: Result<
        String,
        PipelineError,
    >)
        requires
            old(self).wf(),
        ensures
            final(self).wf(),
            !(*old(self) is Ispell) ==> *final(self) == *old(self),
            *old(self) is Ispell ==> *final(self) is Ispell,
            r matches Ok(out) ==> stage_result(*old(self), *final(self), name@) == Some(out@),
            r is Ok ==> notes_view(final(notes)@) == notes_view(old(notes)@) + stage_notes(
                *old(self),
                *final(self),
                name@,
            ),
            r is Err ==> final(notes)@ == old(notes)@,
            (*old(self) matches Processor::Ispell(_) && r is Ok) ==> (*final(self) matches Processor::Ispell(s) && (s.cached() matches Some((w, _)) && w == name@)),
            !(*old(self) is Ispell) ==> (r is Err <==> stage_result(
                *old(self),
                *old(self),
                name@,
            ) is None),
            r is Err ==> (r matches Err(PipelineError::UnknownEncoding { .. })
                && *old(self) is Decode && stage_result(*old(self), *final(self), name@) is None)
                || ((r matches Err(e) && is_checker_error(e)) && *old(self) is Ispell),
            *old(self) is Ispell ==> match (*old(self), *final(self)) {
                (Processor::Ispell(s0), Processor::Ispell(s1)) => if r is Err {
                    s1.cached() == s0.cached() && s1.failures() == s0.failures() + 1
                } else {
                    s1.failures() == s0.failures()
                },
                _ => false,
            },
    {
        let ghost before = notes_view(notes@);
        match self {
            Processor::Fixedcase(p) => {
                assert(before + Seq::<DiagnosticView>::empty() =~= before);
                Ok(p.process(name))
            },
            Processor::RegexReplace(p) => {
                assert(before + Seq::<DiagnosticView>::empty() =~= before);
                Ok(p.process(name))
            },
            Processor::Ispell(p) => p.process(name, notes),
            Processor::Decode(d) => {
                assert(before + Seq::<DiagnosticView>::empty() =~= before);
                decode(name, d.from_encoding.as_str())
            },
            Processor::SnakeCase => {
                assert(before + Seq::<DiagnosticView>::empty() =~= before);
                Ok(snake_case(name))
            },
            Processor::FirstLetterUppercase => {
                assert(before + Seq::<DiagnosticView>::empty() =~= before);
                Ok(first_upper(name))
            },
            Processor::LogSuspicious(l) => {
                let matches = l.process(name);
                let ghost mv = ci_matches(l.pattern(), name@);
                let ghost f = |m: Seq<char>| DiagnosticView::Suspicious { matched: m, name: name@ };
                let mut i: usize = 0;
                while i < matches.len()
                    invariant
                        i <= matches.len(),
                        matches@.map_values(|s: String| s@) == mv,
                        f == (|m: Seq<char>| DiagnosticView::Suspicious { matched: m, name: name@ }),
                        notes_view(notes@) == before + mv.take(i as int).map_values(f),
                    decreases matches.len() - i,
                {
                    let ghost prev = notes_view(notes@);
                    notes.push(
                        Diagnostic::Suspicious {
                            matched: matches[i].clone(),
                            name: name.to_string(),
                        },
                    );
                    assert(mv[i as int] == matches@[i as int]@);
                    assert(notes_view(notes@) =~= prev.push(notes@.last()@));
                    assert(mv.take(i + 1).map_values(f) =~= mv.take(i as int).map_values(f).push(
                        f(mv[i as int]),
                    ));
                    i = i + 1;
                }
                assert(mv.take(matches.len() as int) =~= mv);
                Ok(name.to_string())
            },
        }
    }
}

/// Whether no stage of `ps` asks the spell checker.
pub open spec fn no_oracle(ps: Seq<Processor>) -> bool {
    forall|i: int| 0 <= i < ps.len() ==> !(#[trigger] ps[i] is Ispell)
}

/// Runs the name of `rec` through `processors` in order and returns the
/// audit of what changed (see `audit_trail`) over the names the stages
/// returned (see `chain_outs`); the stages' diagnostics go to the end of
/// `notes`. The first stage that fails stops the run: only a decode stage
/// with an unknown encoding or a failing spell checker fails, so a chain
/// without a spell-check stage whose decode stages all know their encoding
/// succeeds.
pub fn process_record(
    rec: &Record,
    processors: &mut Vec<Processor>,
    notes: &mut Vec<Diagnostic>,
) -> (r: Result<Option<RecordRule>, PipelineError>)
    requires
        forall|i: int| 0 <= i < old(processors)@.len() ==> (#[trigger] old(processors)@[i]).wf(),
    ensures
        final(processors)@.len() == old(processors)@.len(),
        forall|i: int|
            0 <= i < final(processors)@.len() ==> (#[trigger] final(processors)@[i]).wf(),
        forall|i: int|
            0 <= i < old(processors)@.len() && !(#[trigger] old(processors)@[i] is Ispell)
                ==> final(processors)@[i] == old(processors)@[i],
        notes_view(final(notes)@).take(old(notes)@.len() as int) == notes_view(old(notes)@),
        r is Ok ==> notes_view(final(notes)@) == notes_view(old(notes)@) + chain_notes(
            old(processors)@,
            final(processors)@,
            rec.name@,
            old(processors)@.len() as int,
        ),
        r matches Ok(rule) ==> (chain_outs(
            old(processors)@,
            final(processors)@,
            rec.name@,
            old(processors)@.len() as int,
        ) matches Some(outs) && match rule {
            None => audit(rec.name@, outs) is None,
            Some(rule) => rule.id@ == rec.id@ && rule.old_name@ == rec.name@ && audit(
                rec.name@,
                outs,
            ) == Some((rule.new_name@, changes_view(rule.modifications@))),
        }),
        r is Err ==> exists|k: int|
            0 <= k < old(processors)@.len() && (#[trigger] chain_outs(
                old(processors)@,
                final(processors)@,
                rec.name@,
                k,
            ) matches Some(o) && (((r matches Err(e) && is_checker_error(e))
                && match (old(processors)@[k], final(processors)@[k]) {
                (Processor::Ispell(s0), Processor::Ispell(s1)) => s1.cached() == s0.cached(),
                _ => false,
            }) || (r matches Err(
                PipelineError::UnknownEncoding { .. },
            ) && old(processors)@[k] is Decode && stage_result(
                old(processors)@[k],
                final(processors)@[k],
                final_name(rec.name@, o),
            ) is None))) && forall|j: int|
                k < j < old(processors)@.len() ==> #[trigger] final(processors)@[j] == old(
                    processors,
                )@[j],
        no_oracle(old(processors)@) && chain_outs(
            old(processors)@,
            old(processors)@,
            rec.name@,
            old(processors)@.len() as int,
        ) is Some ==> r is Ok,
{
    let ghost start = processors@;
    let ghost n = start.len() as int;
    let mut outputs: Vec<String> = Vec::new();
    let mut current = rec.name.clone();
    let mut i: usize = 0;
    while i < processors.len()
        invariant
            i <= processors.len(),
            start == old(processors)@,
            n == start.len(),
            processors@.len() == start.len(),
            outputs@.len() == i,
            chain_outs(start, processors@, rec.name@, i as int) == Some(
                outputs@.map_values(|s: String| s@),
            ),
            current@ == final_name(rec.name@, outputs@.map_values(|s: String| s@)),
            forall|j: int| 0 <= j < processors@.len() ==> (#[trigger] processors@[j]).wf(),
            forall|j: int| i <= j < processors@.len() ==> #[trigger] processors@[j] == start[j],
            forall|j: int|
                0 <= j < i && !(#[trigger] start[j] is Ispell) ==> processors@[j] == start[j],
            forall|j: int| 0 <= j < i && start[j] is Ispell ==> #[trigger] processors@[j] is Ispell,
            notes_view(notes@) == notes_view(old(notes)@) + chain_notes(
                start,
                processors@,
                rec.name@,
                i as int,
            ),
        decreases processors.len() - i,
    {
        let ghost outs = outputs@.map_values(|s: String| s@);
        let ghost before_procs = processors@;
        let ghost n0 = notes@;
        let mut p = Processor::SnakeCase;
        processors.set_and_swap(i, &mut p);
        let ghost p0 = p;
        assert(p0 == start[i as int]);
        let applied = p.apply(current.as_str(), notes);
        let ghost p1 = p;
        processors.set_and_swap(i, &mut p);
        proof {
            assert(processors@ == before_procs.update(i as int, p1));
            lemma_chain_same(start, processors@, start, before_procs, rec.name@, i as int);
            if applied is Ok {
                assert(notes_view(notes@) == notes_view(n0) + stage_notes(p0, p1, current@));
                assert(processors@[i as int] == p1);
                assert(chain_notes(start, processors@, rec.name@, i + 1) == chain_notes(
                    start,
                    processors@,
                    rec.name@,
                    i as int,
                ) + stage_notes(p0, p1, current@));
                assert(notes_view(notes@) =~= notes_view(old(notes)@) + chain_notes(
                    start,
                    processors@,
                    rec.name@,
                    i + 1,
                ));
            } else {
                assert(notes_view(notes@).take(old(notes)@.len() as int) =~= notes_view(
                    old(notes)@,
                ));
            }
        }
        let next = match applied {
            Ok(x) => x,
            Err(e) => {
                proof {
                    assert(chain_outs(start, processors@, rec.name@, i as int) == Some(outs));
                    if no_oracle(start) && chain_outs(start, start, rec.name@, n) is Some {
                        assert(!(start[i as int] is Ispell));
                        assert forall|j: int| 0 <= j < i + 1 implies start[j] == start[j]
                            && processors@[j] == start[j] by {
                            assert(!(start[j] is Ispell));
                        }
                        lemma_chain_same(start, processors@, start, start, rec.name@, i + 1);
                        lemma_chain_prefix(start, start, rec.name@, i + 1, n);
                        assert(false);
                    }
                    assert forall|j: int| i < j < n implies #[trigger] processors@[j] == start[j] by {}
                }
                return Err(e);
            },
        };
        outputs.push(next.clone());
        proof {
            let nouts = outputs@.map_values(|s: String| s@);
            assert(nouts =~= outs.push(next@));
            assert(processors@[i as int] == p1);
            assert(chain_outs(start, processors@, rec.name@, i + 1) == Some(nouts));
        }
        current = next;
        i = i + 1;
    }
    assert(notes_view(notes@).take(old(notes)@.len() as int) =~= notes_view(old(notes)@));
    Ok(audit_trail(rec, &outputs))
}

} // verus!
