//! Repair candidates: their kinds, confidence, ranking, the candidates that
//! compiler suggestions give, and the history of patches already tried.

use crate::diagnostics::{opt_view, CompilerSuggestion, ParsedError, SuggestionView};
use crate::order::{insert_sorted, insert_str, sort_strs, str_views};
use crate::patch::{clone_edits, edits_view, Edit, EditView, Patch};
use crate::sorting::{lemma_insert_stable, lemma_stable_empty, stable_sort_of};
use crate::text::{dec, push_dec, str_eq};
use vstd::prelude::*;
use vstd::string::StringExecFns;

verus! {

/// How likely a candidate is to be right.
#[derive(Debug, Clone, Copy, PartialEq, Eq, Structural)]
pub enum Confidence {
    High,
    Medium,
    Low,
}

/// The name of a confidence level.
pub open spec fn confidence_name(c: Confidence) -> Seq<char> {
    match c {
        Confidence::High => "high"@,
        Confidence::Medium => "medium"@,
        Confidence::Low => "low"@,
    }
}

impl Confidence {
    /// The stable name of the level.
    pub fn as_str(&self) -> (r: &'static str)
        ensures
            r@ == confidence_name(*self),
    {
        match self {
            Confidence::High => "high",
            Confidence::Medium => "medium",
            Confidence::Low => "low",
        }
    }
}

/// What a candidate changes.
#[derive(Debug, Clone, Copy, PartialEq, Eq, Structural)]
pub enum RepairKind {
    CompilerSuggested,
    Borrow,
    Clone,
    Mutability,
    ArgumentAdjustment,
    TypeAdjustment,
    ImportAdjustment,
    Other,
}

/// The name of a repair kind.
pub open spec fn kind_name(k: RepairKind) -> Seq<char> {
    match k {
        RepairKind::CompilerSuggested => "compiler_suggested"@,
        RepairKind::Borrow => "borrow"@,
        RepairKind::Clone => "clone"@,
        RepairKind::Mutability => "mutability"@,
        RepairKind::ArgumentAdjustment => "argument_adjustment"@,
        RepairKind::TypeAdjustment => "type_adjustment"@,
        RepairKind::ImportAdjustment => "import_adjustment"@,
        RepairKind::Other => "other"@,
    }
}

impl RepairKind {
    /// The stable name of the kind.
    pub fn as_str(&self) -> (r: &'static str)
        ensures
            r@ == kind_name(*self),
    {
        match self {
            RepairKind::CompilerSuggested => "compiler_suggested",
            RepairKind::Borrow => "borrow",
            RepairKind::Clone => "clone",
            RepairKind::Mutability => "mutability",
            RepairKind::ArgumentAdjustment => "argument_adjustment",
            RepairKind::TypeAdjustment => "type_adjustment",
            RepairKind::ImportAdjustment => "import_adjustment",
            RepairKind::Other => "other",
        }
    }
}

/// A proposed repair with the evidence behind it.
#[derive(Debug)]
pub struct RepairCandidate {
    pub kind: RepairKind,
    pub confidence: Confidence,
    pub description: String,
    pub evidence: Vec<String>,
    pub patch: Patch,
}

/// The mathematical content of a [`RepairCandidate`].
pub struct CandidateView {
    pub kind: RepairKind,
    pub confidence: Confidence,
    pub description: Seq<char>,
    pub evidence: Seq<Seq<char>>,
    pub edits: Seq<EditView>,
}

impl View for RepairCandidate {
    type V = CandidateView;

    open spec fn view(&self) -> CandidateView {
        CandidateView {
            kind: self.kind,
            confidence: self.confidence,
            description: self.description@,
            evidence: str_views(self.evidence@),
            edits: edits_view(self.patch.edits@),
        }
    }
}

/// The views of a list of candidates.
pub open spec fn candidates_view(v: Seq<RepairCandidate>) -> Seq<CandidateView> {
    v.map_values(|c: RepairCandidate| c@)
}

/// A copy of a list of strings.
pub fn clone_strings(v: &Vec<String>) -> (r: Vec<String>)
    ensures
        str_views(r@) == str_views(v@),
{
    let mut r: Vec<String> = Vec::new();
    let mut i: usize = 0;
    while i < v.len()
        invariant
            i <= v.len(),
            str_views(r@) == str_views(v@.take(i as int)),
        decreases v.len() - i,
    {
        r.push(v[i].clone());
        assert(str_views(v@.take(i + 1)) =~= str_views(v@.take(i as int)).push(v@[i as int]@));
        assert(str_views(r@) =~= str_views(v@.take(i as int)).push(v@[i as int]@));
        i = i + 1;
    }
    assert(v@.take(v.len() as int) =~= v@);
    r
}

impl Clone for RepairCandidate {
    fn clone(&self) -> (r: Self)
        ensures
            r@ == self@,
    {
        RepairCandidate {
            kind: self.kind,
            confidence: self.confidence,
            description: self.description.clone(),
            evidence: clone_strings(&self.evidence),
            patch: Patch { edits: clone_edits(&self.patch.edits) },
        }
    }
}

/// A copy of a list of candidates.
pub fn clone_candidates(v: &Vec<RepairCandidate>) -> (r: Vec<RepairCandidate>)
    ensures
        candidates_view(r@) == candidates_view(v@),
{
    let mut r: Vec<RepairCandidate> = Vec::new();
    let mut i: usize = 0;
    while i < v.len()
        invariant
            i <= v.len(),
            candidates_view(r@) == candidates_view(v@.take(i as int)),
        decreases v.len() - i,
    {
        r.push(v[i].clone());
        assert(candidates_view(v@.take(i + 1)) =~= candidates_view(v@.take(i as int)).push(
            v@[i as int]@,
        ));
        assert(candidates_view(r@) =~= candidates_view(v@.take(i as int)).push(v@[i as int]@));
        i = i + 1;
    }
    assert(v@.take(v.len() as int) =~= v@);
    r
}

// ---------------------------------------------------------------------------
// Ranking
// ---------------------------------------------------------------------------

/// Rank of a kind: compiler suggestions first, guesses last.
pub open spec fn kind_rank(k: RepairKind) -> int {
    match k {
        RepairKind::CompilerSuggested => 0,
        RepairKind::Borrow => 1,
        RepairKind::Clone => 2,
        RepairKind::Mutability => 3,
        RepairKind::ArgumentAdjustment => 4,
        RepairKind::TypeAdjustment => 5,
        RepairKind::ImportAdjustment => 6,
        RepairKind::Other => 7,
    }
}

/// Rank of a confidence level: high first.
pub open spec fn confidence_rank(c: Confidence) -> int {
    match c {
        Confidence::High => 0,
        Confidence::Medium => 1,
        Confidence::Low => 2,
    }
}

/// The score by which candidates are ordered, smallest first: the kind, then
/// the confidence, then the number of edits (counted as a `u32`, capped at
/// 99).
pub open spec fn score(c: CandidateView) -> int {
    let n = (c.edits.len() as u32) as int;
    kind_rank(c.kind) * 1000 + confidence_rank(c.confidence) * 100 + if n < 99 {
        n
    } else {
        99
    }
}

/// The ordering key of a candidate.
pub open spec fn score_key() -> spec_fn(CandidateView) -> int {
    |c: CandidateView| score(c)
}

fn ordering_score(candidate: &RepairCandidate) -> (r: u32)
    ensures
        r == score(candidate@),
{
    let kind_score: u32 = match candidate.kind {
        RepairKind::CompilerSuggested => 0,
        RepairKind::Borrow => 1,
        RepairKind::Clone => 2,
        RepairKind::Mutability => 3,
        RepairKind::ArgumentAdjustment => 4,
        RepairKind::TypeAdjustment => 5,
        RepairKind::ImportAdjustment => 6,
        RepairKind::Other => 7,
    };
    let confidence_score: u32 = match candidate.confidence {
        Confidence::High => 0,
        Confidence::Medium => 1,
        Confidence::Low => 2,
    };
    let edit_count = candidate.patch.edits.len() as u32;
    let capped: u32 = if edit_count < 99 {
        edit_count
    } else {
        99
    };
    kind_score * 1000 + confidence_score * 100 + capped
}

/// The candidates ordered by [`score`], equal scores keeping their order.
pub fn rank_candidates(candidates: Vec<RepairCandidate>) -> (r: Vec<RepairCandidate>)
    ensures
        stable_sort_of(candidates_view(r@), candidates_view(candidates@), score_key()),
{
    let ghost key = score_key();
    let mut out: Vec<RepairCandidate> = Vec::new();
    let mut rest = candidates;
    let ghost input = candidates_view(rest@);
    proof {
        lemma_stable_empty(key);
        assert(input.take(0) =~= Seq::<CandidateView>::empty());
        assert(candidates_view(out@) =~= Seq::<CandidateView>::empty());
    }
    let mut i: usize = 0;
    let n = rest.len();
    assert(input.skip(0) =~= input);
    while i < n
        invariant
            n == input.len(),
            i <= n,
            key == score_key(),
            rest@.len() == n - i,
            candidates_view(rest@) == input.skip(i as int),
            stable_sort_of(candidates_view(out@), input.take(i as int), key),
        decreases n - i,
    {
        assert(candidates_view(rest@)[0] == input[i as int]);
        let ghost r0 = rest@;
        let x = rest.remove(0);
        assert(rest@ =~= r0.skip(1));
        assert(candidates_view(rest@) =~= input.skip(i + 1)) by {
            assert forall|k: int| 0 <= k < rest@.len() implies candidates_view(rest@)[k] == input.skip(
                i + 1,
            )[k] by {
                assert(candidates_view(r0)[k + 1] == input.skip(i as int)[k + 1]);
            }
        }
        let sx = ordering_score(&x);
        let mut p = out.len();
        while p > 0 && ordering_score(&out[p - 1]) > sx
            invariant
                p <= out.len(),
                key == score_key(),
                sx == key(x@),
                forall|j: int| p <= j < out@.len() ==> key(out@[j]@) > key(x@),
            decreases p,
        {
            p = p - 1;
        }
        let ghost ov = candidates_view(out@);
        proof {
            assert forall|j: int| 0 <= j < p implies key(ov[j]) <= key(x@) by {
                if p > 0 {
                    assert(key(ov[j]) <= key(ov[p - 1]));
                }
            }
            assert forall|j: int| p <= j < ov.len() implies key(ov[j]) > key(x@) by {
                assert(ov[j] == out@[j]@);
            }
            lemma_insert_stable(ov, input.take(i as int), x@, p as int, key);
            assert(input.take(i + 1) =~= input.take(i as int).push(x@));
        }
        out.insert(p, x);
        assert(candidates_view(out@) =~= ov.take(p as int) + seq![x@] + ov.skip(p as int));
        i = i + 1;
    }
    assert(input.take(n as int) =~= input);
    out
}

// ---------------------------------------------------------------------------
// Candidates from compiler suggestions
// ---------------------------------------------------------------------------

/// The confidence that an applicability string earns.
pub open spec fn applicability_confidence(a: Seq<char>) -> Confidence {
    if a == "MachineApplicable"@ {
        Confidence::High
    } else if a == "MaybeIncorrect"@ {
        Confidence::Low
    } else {
        Confidence::Medium
    }
}

/// `Replace <file>:<line>-<column> with `<replacement>``.
pub open spec fn replace_note(s: SuggestionView) -> Seq<char> {
    "Replace "@ + s.file + ":"@ + dec(s.line as nat) + "-"@ + dec(s.column as nat) + " with `"@
        + s.replacement + "`"@
}

/// The edit that carries out a suggestion.
pub open spec fn suggestion_edit(e: EditView, s: SuggestionView) -> bool {
    &&& e.file == s.file
    &&& e.line == s.line
    &&& e.start_col == s.column
    &&& e.end_col == s.column_end
    &&& e.replacement == s.replacement
    &&& e.label == s.label
    &&& e.anchor is None
}

/// The candidate that applying one compiler suggestion gives.
pub open spec fn suggested_candidate(s: SuggestionView) -> CandidateView {
    CandidateView {
        kind: RepairKind::CompilerSuggested,
        confidence: applicability_confidence(s.applicability),
        description: "Apply the compiler-suggested change at "@ + s.file + ":"@ + dec(s.line as nat)
            + "."@,
        evidence: Seq::empty().push(
            match s.label {
                Some(l) => "Compiler note: "@ + l,
                None => "Applicability: "@ + s.applicability,
            },
        ).push(replace_note(s)),
        edits: Seq::empty().push(
            EditView {
                file: s.file,
                line: s.line,
                start_col: s.column,
                end_col: s.column_end,
                replacement: s.replacement,
                label: s.label,
                anchor: None,
            },
        ),
    }
}

/// The candidates of a list of suggestions, in order.
pub open spec fn suggested_candidates(s: Seq<SuggestionView>) -> Seq<CandidateView> {
    s.map_values(|x: SuggestionView| suggested_candidate(x))
}

/// The edit for a suggestion.
pub fn edit_for(s: &CompilerSuggestion) -> (e: Edit)
    ensures
        suggestion_edit(e@, s@),
{
    Edit {
        file: s.file.clone(),
        line: s.line,
        start_col: s.column,
        end_col: s.column_end,
        replacement: s.replacement.clone(),
        label: crate::diagnostics::clone_opt_string(&s.label),
        anchor: None,
    }
}

/// Appends the `Replace ...` note of a suggestion to `out`.
pub fn push_replace_note(out: &mut String, s: &CompilerSuggestion)
    ensures
        final(out)@ == old(out)@ + replace_note(s@),
{
    out.append("Replace ");
    out.append(s.file.as_str());
    out.append(":");
    push_dec(out, s.line as u64);
    out.append("-");
    push_dec(out, s.column as u64);
    out.append(" with `");
    out.append(s.replacement.as_str());
    out.append("`");
    assert(final(out)@ =~= old(out)@ + replace_note(s@));
}

fn suggestion_candidate(s: &CompilerSuggestion) -> (c: RepairCandidate)
    ensures
        c@ == suggested_candidate(s@),
{
    let a = s.applicability.as_str();
    let confidence = if str_eq(a, "MachineApplicable") {
        Confidence::High
    } else if str_eq(a, "MaybeIncorrect") {
        Confidence::Low
    } else {
        Confidence::Medium
    };
    let mut description = String::from_str("Apply the compiler-suggested change at ");
    description.append(s.file.as_str());
    description.append(":");
    push_dec(&mut description, s.line as u64);
    description.append(".");
    let first = match &s.label {
        Some(l) => {
            let mut t = String::from_str("Compiler note: ");
            t.append(l.as_str());
            t
        },
        None => {
            let mut t = String::from_str("Applicability: ");
            t.append(a);
            t
        },
    };
    let mut second = String::new();
    push_replace_note(&mut second, s);
    let evidence = vec![first, second];
    let edits = vec![edit_for(s)];
    let c = RepairCandidate {
        kind: RepairKind::CompilerSuggested,
        confidence,
        description,
        evidence,
        patch: Patch::new(edits),
    };
    assert(c@.evidence =~= suggested_candidate(s@).evidence);
    assert(c@.edits =~= suggested_candidate(s@).edits);
    assert(c@.description =~= suggested_candidate(s@).description);
    c
}

/// One candidate per compiler suggestion, in order. An `E0382` without
/// suggestions gets none: no patch is made up without compiler evidence.
pub fn candidates_for_error(error: &ParsedError) -> (r: Vec<RepairCandidate>)
    ensures
        candidates_view(r@) == suggested_candidates(error@.suggestions),
{
    let mut candidates: Vec<RepairCandidate> = Vec::new();
    let mut i: usize = 0;
    assert(suggested_candidates(error@.suggestions.take(0)) =~= Seq::<CandidateView>::empty());
    assert(candidates_view(candidates@) =~= Seq::<CandidateView>::empty());
    while i < error.suggestions.len()
        invariant
            i <= error.suggestions.len(),
            candidates_view(candidates@) == suggested_candidates(error@.suggestions.take(i as int)),
        decreases error.suggestions.len() - i,
    {
        let ghost before = candidates_view(candidates@);
        candidates.push(suggestion_candidate(&error.suggestions[i]));
        assert(error@.suggestions[i as int] == error.suggestions@[i as int]@);
        assert(candidates_view(candidates@) =~= before.push(suggested_candidate(error@.suggestions[i as int])));
        assert(suggested_candidates(error@.suggestions.take(i + 1)) =~= suggested_candidates(
            error@.suggestions.take(i as int),
        ).push(suggested_candidate(error@.suggestions[i as int])));
        i = i + 1;
    }
    assert(error@.suggestions.take(error.suggestions.len() as int) =~= error@.suggestions);
    if str_eq(error.code.as_str(), "E0382") {
        moved_value_candidates(error, &mut candidates);
    }
    candidates
}

/// Moves without compiler suggestions get no fabricated candidate.
fn moved_value_candidates(error: &ParsedError, candidates: &mut Vec<RepairCandidate>)
    ensures
        final(candidates)@ == old(candidates)@,
{
}

// ---------------------------------------------------------------------------
// Patch signatures and the history of attempts
// ---------------------------------------------------------------------------

/// `<file>:<line>:<start>-<end>:<replacement>`.
pub open spec fn edit_signature(e: EditView) -> Seq<char> {
    e.file + ":"@ + dec(e.line as nat) + ":"@ + dec(e.start_col as nat) + "-"@ + dec(
        e.end_col as nat,
    ) + ":"@ + e.replacement
}

/// The parts joined by `|`.
pub open spec fn join_bar(parts: Seq<Seq<char>>) -> Seq<char>
    decreases parts.len(),
{
    if parts.len() == 0 {
        Seq::empty()
    } else if parts.len() == 1 {
        parts[0]
    } else {
        join_bar(parts.drop_last()) + "|"@ + parts.last()
    }
}

/// The signatures of the edits, in order.
pub open spec fn edit_signatures(edits: Seq<EditView>) -> Seq<Seq<char>> {
    edits.map_values(|e: EditView| edit_signature(e))
}

/// The signature of a list of edits: the sorted edit signatures joined by
/// `|`, so that the order of the edits does not matter.
pub open spec fn signature(edits: Seq<EditView>) -> Seq<char> {
    join_bar(sort_strs(edit_signatures(edits)))
}

fn edit_signature_string(e: &Edit) -> (r: String)
    ensures
        r@ == edit_signature(e@),
{
    let mut s = e.file.clone();
    s.append(":");
    push_dec(&mut s, e.line as u64);
    s.append(":");
    push_dec(&mut s, e.start_col as u64);
    s.append("-");
    push_dec(&mut s, e.end_col as u64);
    s.append(":");
    s.append(e.replacement.as_str());
    assert(s@ =~= edit_signature(e@));
    s
}

/// The identity of a patch for de-duplication and the attempt history.
pub fn patch_signature(patch: &Patch) -> (r: String)
    ensures
        r@ == signature(edits_view(patch.edits@)),
{
    let ghost sigs = edit_signatures(edits_view(patch.edits@));
    let mut parts: Vec<String> = Vec::new();
    let mut i: usize = 0;
    while i < patch.edits.len()
        invariant
            i <= patch.edits.len(),
            sigs == edit_signatures(edits_view(patch.edits@)),
            str_views(parts@) == sort_strs(sigs.take(i as int)),
        decreases patch.edits.len() - i,
    {
        let s = edit_signature_string(&patch.edits[i]);
        insert_sorted(&mut parts, s);
        assert(sigs.take(i + 1).drop_last() =~= sigs.take(i as int));
        i = i + 1;
    }
    assert(sigs.take(patch.edits.len() as int) =~= sigs);
    let mut out = String::new();
    let mut k: usize = 0;
    let ghost sorted = str_views(parts@);
    assert(sorted.take(0) =~= Seq::<Seq<char>>::empty());
    while k < parts.len()
        invariant
            k <= parts.len(),
            sorted == str_views(parts@),
            out@ == join_bar(sorted.take(k as int)),
        decreases parts.len() - k,
    {
        if k > 0 {
            out.append("|");
        }
        out.append(parts[k].as_str());
        proof {
            let t = sorted.take(k + 1);
            assert(t.drop_last() =~= sorted.take(k as int));
            if k == 0 {
                assert(join_bar(t) == t[0]);
                assert(out@ =~= t[0]);
            } else {
                assert(out@ =~= join_bar(sorted.take(k as int)) + "|"@ + t.last());
            }
        }
        k = k + 1;
    }
    assert(sorted.take(parts.len() as int) =~= sorted);
    out
}

/// The signatures of the patches tried so far.
#[derive(Debug)]
pub struct RepairHistory {
    attempted: Vec<String>,
}

impl View for RepairHistory {
    type V = Set<Seq<char>>;

    closed spec fn view(&self) -> Set<Seq<char>> {
        str_views(self.attempted@).to_set()
    }
}

impl Default for RepairHistory {
    fn default() -> (r: Self)
        ensures
            r@ == Set::<Seq<char>>::empty(),
    {
        RepairHistory::new()
    }
}

impl RepairHistory {
    /// An empty history.
    pub fn new() -> (r: Self)
        ensures
            r@ == Set::<Seq<char>>::empty(),
    {
        let r = RepairHistory { attempted: Vec::new() };
        assert(str_views(r.attempted@).to_set() =~= Set::<Seq<char>>::empty());
        r
    }

    fn has_signature(&self, sig: &str) -> (r: bool)
        ensures
            r == self@.contains(sig@),
    {
        let mut i: usize = 0;
        while i < self.attempted.len()
            invariant
                i <= self.attempted.len(),
                forall|k: int| 0 <= k < i ==> self.attempted@[k]@ != sig@,
            decreases self.attempted.len() - i,
        {
            if str_eq(self.attempted[i].as_str(), sig) {
                assert(str_views(self.attempted@)[i as int] == sig@);
                return true;
            }
            i = i + 1;
        }
        proof {
            if str_views(self.attempted@).contains(sig@) {
                let k = choose|k: int|
                    0 <= k < str_views(self.attempted@).len() && str_views(self.attempted@)[k]
                        == sig@;
                assert(self.attempted@[k]@ == sig@);
            }
        }
        false
    }

    /// Records the patch; `true` when it had not been tried before.
    pub fn record_patch(&mut self, patch: &Patch) -> (r: bool)
        ensures
            r == !old(self)@.contains(signature(edits_view(patch.edits@))),
            final(self)@ == old(self)@.insert(signature(edits_view(patch.edits@))),
    {
        let sig = patch_signature(patch);
        if self.has_signature(sig.as_str()) {
            assert(old(self)@.insert(sig@) =~= old(self)@);
            return false;
        }
        let ghost before = str_views(self.attempted@);
        self.attempted.push(sig);
        assert(str_views(self.attempted@) =~= before.push(sig@));
        assert(before.push(sig@).to_set() =~= before.to_set().insert(sig@)) by {
            assert forall|x: Seq<char>| before.push(sig@).contains(x) <==> before.to_set().insert(
                sig@,
            ).contains(x) by {
                if before.contains(x) {
                    let k = choose|k: int| 0 <= k < before.len() && before[k] == x;
                    assert(before.push(sig@)[k] == x);
                }
                if x == sig@ {
                    assert(before.push(sig@)[before.len() as int] == x);
                }
                if before.push(sig@).contains(x) && x != sig@ {
                    let k = choose|k: int| 0 <= k < before.push(sig@).len() && before.push(sig@)[k] == x;
                    assert(before[k] == x);
                }
            }
        }
        true
    }

    /// Has this patch been tried?
    pub fn contains(&self, patch: &Patch) -> (r: bool)
        ensures
            r == self@.contains(signature(edits_view(patch.edits@))),
    {
        let sig = patch_signature(patch);
        self.has_signature(sig.as_str())
    }
}

/// Two patches whose edits have the same signatures, each as often, in any
/// order, have the same signature.
pub proof fn lemma_signature_ignores_order(a: Seq<EditView>, b: Seq<EditView>)
    requires
        edit_signatures(a).to_multiset() =~= edit_signatures(b).to_multiset(),
    ensures
        signature(a) == signature(b),
{
    crate::order::lemma_sort_strs_permutation(edit_signatures(a), edit_signatures(b));
}

/// Two patches whose edits are the same up to their order have the same
/// signature.
pub proof fn lemma_signature_of_permuted_edits(a: Seq<EditView>, b: Seq<EditView>)
    requires
        a.to_multiset() == b.to_multiset(),
    ensures
        signature(a) == signature(b),
{
    crate::order::lemma_map_permutation(a, b, |e: EditView| edit_signature(e));
    lemma_signature_ignores_order(a, b);
}

/// Confidence ranks within a kind: of two candidates of the same kind and
/// the same number of edits, the more confident one (high over medium over
/// low) comes first in any ranking; with the same kind and confidence, the
/// one with fewer edits (below 99) comes first.
pub proof fn lemma_confident_first(out: Seq<CandidateView>, inp: Seq<CandidateView>, i: int, j: int)
    requires
        stable_sort_of(out, inp, score_key()),
        0 <= i < out.len(),
        0 <= j < out.len(),
        out[i].kind == out[j].kind,
        (out[i].edits.len() == out[j].edits.len() && ((out[i].confidence == Confidence::High
            && out[j].confidence != Confidence::High) || (out[i].confidence == Confidence::Medium
            && out[j].confidence == Confidence::Low))) || (out[i].confidence == out[j].confidence
            && out[i].edits.len() < out[j].edits.len() && out[j].edits.len() < 99),
    ensures
        i < j,
{
    if j <= i {
        if j < i {
            assert(score_key()(out[j]) <= score_key()(out[i]));
        }
        assert(score(out[i]) < score(out[j]));
    }
}

/// Ranking puts every compiler-suggested candidate before every other kind.
pub proof fn lemma_compiler_suggestions_first(out: Seq<CandidateView>, inp: Seq<CandidateView>)
    requires
        stable_sort_of(out, inp, score_key()),
    ensures
        forall|i: int, j: int|
            0 <= i < j < out.len() && out[j].kind == RepairKind::CompilerSuggested ==> out[i].kind
                == RepairKind::CompilerSuggested,
{
    assert forall|i: int, j: int|
        0 <= i < j < out.len() && out[j].kind == RepairKind::CompilerSuggested implies out[i].kind
        == RepairKind::CompilerSuggested by {
        assert(score_key()(out[i]) <= score_key()(out[j]));
    }
}

/// A recorded patch is known to the history, and recording it again reports
/// that it is not new.
pub proof fn lemma_recorded_patch_is_known(h: Set<Seq<char>>, edits: Seq<EditView>)
    ensures
        h.insert(signature(edits)).contains(signature(edits)),
        h.insert(signature(edits)).insert(signature(edits)) == h.insert(signature(edits)),
{
    assert(h.insert(signature(edits)).insert(signature(edits)) =~= h.insert(signature(edits)));
}

} // verus!
