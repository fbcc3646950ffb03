//! The repair engine: a bounded search over candidate repairs, each judged
//! by an oracle in an isolated copy of the project. The search is a state
//! machine: each outcome of outside work (reproducing the failure, reading
//! sources, applying a patch, running cargo) is an event, and the machine
//! answers with its next state and the next piece of work to do.

use crate::analyzer::analyze;
use crate::diagnostics::{clone_errors, errors_view, opt_view, ErrorView, ParsedError};
use crate::order::str_views;
use crate::patch::{clone_edits, edits_view, EditView, Patch};
use crate::repair::{
    candidates_for_error, candidates_view, clone_candidates, rank_candidates, score_key,
    signature, suggested_candidates, CandidateView, RepairCandidate, RepairHistory, RepairKind,
};
use crate::repair_context::from_source_view;
use crate::sorting::{lemma_stable_sort_unique, stable_sort_of};
use crate::transform::{all_transforms, dedup, generate_candidates};
use crate::verification::{VerificationResult, VerificationView};
use vstd::prelude::*;
use vstd::string::StringExecFns;

verus! {

// ---------------------------------------------------------------------------
// Outcome states
// ---------------------------------------------------------------------------

/// The outcome of a repair run, with names that stay stable for JSON
/// consumers.
#[derive(Debug, Clone, Copy, PartialEq, Eq, Structural)]
pub enum RepairStatus {
    /// No compiler diagnostics were produced at all.
    NoDiagnostic,
    /// The project passes the oracle in isolation; nothing to repair.
    NothingToRepair,
    /// The failure could not be checked in an isolated copy.
    IsolationCheckFailed,
    /// Dry run: candidates were generated, nothing was verified or applied.
    Preview,
    /// No candidate could be generated or verified.
    HumanReviewRequired,
    /// Candidates were tried and failed verification in isolation.
    RepairAttempted,
    /// A single candidate passed verification.
    Verified,
    /// More than one candidate passed verification; a person must choose.
    MultipleVerifiedRepairs,
    /// A patch was generated but never verified.
    PatchGenerated,
}

/// The stable name of a status.
pub open spec fn status_name(s: RepairStatus) -> Seq<char> {
    match s {
        RepairStatus::NoDiagnostic => "no_diagnostic"@,
        RepairStatus::NothingToRepair => "nothing_to_repair"@,
        RepairStatus::IsolationCheckFailed => "isolation_check_failed"@,
        RepairStatus::Preview => "preview"@,
        RepairStatus::HumanReviewRequired => "human_review_required"@,
        RepairStatus::RepairAttempted => "repair_attempted"@,
        RepairStatus::Verified => "repair_applied"@,
        RepairStatus::MultipleVerifiedRepairs => "multiple_verified"@,
        RepairStatus::PatchGenerated => "patch_generated"@,
    }
}

impl RepairStatus {
    /// The stable name of the status.
    pub fn as_str(self) -> (r: &'static str)
        ensures
            r@ == status_name(self),
    {
        match self {
            RepairStatus::NoDiagnostic => "no_diagnostic",
            RepairStatus::NothingToRepair => "nothing_to_repair",
            RepairStatus::IsolationCheckFailed => "isolation_check_failed",
            RepairStatus::Preview => "preview",
            RepairStatus::HumanReviewRequired => "human_review_required",
            RepairStatus::RepairAttempted => "repair_attempted",
            RepairStatus::Verified => "repair_applied",
            RepairStatus::MultipleVerifiedRepairs => "multiple_verified",
            RepairStatus::PatchGenerated => "patch_generated",
        }
    }
}

// ---------------------------------------------------------------------------
// Configuration
// ---------------------------------------------------------------------------

/// Bounds for the candidate search.
#[derive(Debug, Clone, Copy, PartialEq, Eq, Structural)]
pub struct EngineConfig {
    pub max_attempts: u32,
    pub max_candidates: usize,
    pub max_alternative_checks: usize,
}

/// A decimal digit.
pub open spec fn is_digit(c: char) -> bool {
    '0' <= c && c <= '9'
}

/// Every character is a decimal digit.
pub open spec fn all_digits(s: Seq<char>) -> bool {
    forall|i: int| 0 <= i < s.len() ==> is_digit(#[trigger] s[i])
}

/// The value of a string of decimal digits.
pub open spec fn decimal_value(s: Seq<char>) -> int
    decreases s.len(),
{
    if s.len() == 0 {
        0
    } else {
        decimal_value(s.drop_last()) * 10 + ((s.last() as u32) - ('0' as u32))
    }
}

/// What `str::parse` gives for an unsigned integer type whose largest value
/// is `max`: an optional `+`, then at least one decimal digit and nothing
/// else, of a value that fits.
pub open spec fn parse_unsigned(s: Seq<char>, max: int) -> Option<int> {
    let d = if s.len() > 0 && s[0] == '+' {
        s.drop_first()
    } else {
        s
    };
    if d.len() > 0 && all_digits(d) && decimal_value(d) <= max {
        Some(decimal_value(d))
    } else {
        None
    }
}

/// A setting: the parsed value, or the default when it is missing or does
/// not parse.
pub open spec fn setting(value: Option<Seq<char>>, default: int, max: int) -> int {
    match value {
        Some(v) => match parse_unsigned(v, max) {
            Some(n) => n,
            None => default,
        },
        None => default,
    }
}

/// Parses an unsigned decimal of at most `max`.
pub fn parse_unsigned_exec(s: &str, max: u64) -> (r: Option<u64>)
    ensures
        r matches Some(v) ==> parse_unsigned(s@, max as int) == Some(v as int),
        r is None ==> parse_unsigned(s@, max as int) is None,
{
    let n = s.unicode_len();
    let start: usize = if n > 0 && s.get_char(0) == '+' {
        1
    } else {
        0
    };
    let d = s.substring_char(start, n);
    proof {
        if n > 0 && s@[0] == '+' {
            assert(d@ =~= s@.drop_first());
        } else {
            assert(d@ =~= s@);
        }
    }
    let m = d.unicode_len();
    if m == 0 {
        return None;
    }
    let cap: u128 = (max as u128) + 1;
    let mut acc: u128 = 0;
    let mut i: usize = 0;
    assert(d@.take(0) =~= Seq::<char>::empty());
    while i < m
        invariant
            m == d@.len(),
            i <= m,
            cap == max + 1,
            d@ == (if s@.len() > 0 && s@[0] == '+' {
                s@.drop_first()
            } else {
                s@
            }),
            forall|j: int| 0 <= j < i ==> is_digit(#[trigger] d@[j]),
            acc == if decimal_value(d@.take(i as int)) < cap {
                decimal_value(d@.take(i as int))
            } else {
                cap as int
            },
            decimal_value(d@.take(i as int)) >= 0,
        decreases m - i,
    {
        let c = d.get_char(i);
        if !('0' <= c && c <= '9') {
            assert(!is_digit(d@[i as int]));
            assert(!all_digits(d@));
            assert(parse_unsigned(s@, max as int) is None);
            return None;
        }
        let digit = ((c as u32) - ('0' as u32)) as u128;
        assert(d@.take(i + 1).drop_last() =~= d@.take(i as int));
        assert(d@.take(i + 1).last() == c);
        let next = acc * 10 + digit;
        acc = if next < cap {
            next
        } else {
            cap
        };
        i = i + 1;
    }
    assert(d@.take(m as int) =~= d@);
    if acc < cap {
        Some(acc as u64)
    } else {
        None
    }
}

impl EngineConfig {
    /// The bounds from the values of `RXPLAIN_MAX_ATTEMPTS`,
    /// `RXPLAIN_MAX_CANDIDATES` and `RXPLAIN_MAX_ALTERNATIVES`; a value that
    /// is missing or does not parse gives the default (4, 10 and 5).
    pub fn from_env(
        max_attempts: Option<&str>,
        max_candidates: Option<&str>,
        max_alternatives: Option<&str>,
    ) -> (r: Self)
        ensures
            r.max_attempts == setting(opt_str(max_attempts), 4, u32::MAX as int),
            r.max_candidates == setting(opt_str(max_candidates), 10, usize::MAX as int),
            r.max_alternative_checks == setting(opt_str(max_alternatives), 5, usize::MAX as int),
    {
        EngineConfig {
            max_attempts: env_u32(max_attempts, 4),
            max_candidates: env_usize(max_candidates, 10),
            max_alternative_checks: env_usize(max_alternatives, 5),
        }
    }
}

/// The view of an optional string slice.
pub open spec fn opt_str(v: Option<&str>) -> Option<Seq<char>> {
    match v {
        Some(s) => Some(s@),
        None => None,
    }
}

fn env_u32(value: Option<&str>, default: u32) -> (r: u32)
    ensures
        r == setting(opt_str(value), default as int, u32::MAX as int),
{
    match value {
        Some(v) => match parse_unsigned_exec(v, u32::MAX as u64) {
            Some(n) => n as u32,
            None => default,
        },
        None => default,
    }
}

fn env_usize(value: Option<&str>, default: usize) -> (r: usize)
    ensures
        r == setting(opt_str(value), default as int, usize::MAX as int),
{
    match value {
        Some(v) => match parse_unsigned_exec(v, usize::MAX as u64) {
            Some(n) => n as usize,
            None => default,
        },
        None => default,
    }
}


// ---------------------------------------------------------------------------
// Attempts and the report
// ---------------------------------------------------------------------------

/// A candidate that reached the oracle, with its verdict.
#[derive(Debug)]
pub struct AttemptedCandidate {
    pub candidate: RepairCandidate,
    pub verified: bool,
    pub rejected_reason: Option<String>,
}

/// The mathematical content of an [`AttemptedCandidate`].
pub struct AttemptView {
    pub candidate: CandidateView,
    pub verified: bool,
    pub rejected_reason: Option<Seq<char>>,
}

impl View for AttemptedCandidate {
    type V = AttemptView;

    open spec fn view(&self) -> AttemptView {
        AttemptView {
            candidate: self.candidate@,
            verified: self.verified,
            rejected_reason: opt_view(self.rejected_reason),
        }
    }
}

/// The views of a list of attempts.
pub open spec fn attempts_view(v: Seq<AttemptedCandidate>) -> Seq<AttemptView> {
    v.map_values(|a: AttemptedCandidate| a@)
}

/// The view of an optional verdict.
pub open spec fn verdict_view(v: Option<VerificationResult>) -> Option<VerificationView> {
    match v {
        Some(r) => Some(r@),
        None => None,
    }
}

/// The record of a repair run. The engine never touches the real
/// project: callers apply `applied` only after a deliberate decision.
#[derive(Debug)]
pub struct RepairReport {
    pub status: RepairStatus,
    pub errors: Vec<ParsedError>,
    /// Ranked, de-duplicated candidates proposed for the first batch.
    pub proposed: Vec<RepairCandidate>,
    /// Every candidate that reached the oracle, with its verdict.
    pub attempted: Vec<AttemptedCandidate>,
    /// The single verified patch set ready to be applied (empty otherwise).
    pub applied: Vec<RepairCandidate>,
    /// Further verified candidates that need a person to choose.
    pub verified_alternatives: Vec<RepairCandidate>,
    pub final_verification: Option<VerificationResult>,
    pub attempts: u32,
    pub isolation_error: Option<String>,
}

/// The mathematical content of a [`RepairReport`].
pub struct ReportView {
    pub status: RepairStatus,
    pub errors: Seq<ErrorView>,
    pub proposed: Seq<CandidateView>,
    pub attempted: Seq<AttemptView>,
    pub applied: Seq<CandidateView>,
    pub verified_alternatives: Seq<CandidateView>,
    pub final_verification: Option<VerificationView>,
    pub attempts: u32,
    pub isolation_error: Option<Seq<char>>,
}

impl View for RepairReport {
    type V = ReportView;

    open spec fn view(&self) -> ReportView {
        ReportView {
            status: self.status,
            errors: errors_view(self.errors@),
            proposed: candidates_view(self.proposed@),
            attempted: attempts_view(self.attempted@),
            applied: candidates_view(self.applied@),
            verified_alternatives: candidates_view(self.verified_alternatives@),
            final_verification: verdict_view(self.final_verification),
            attempts: self.attempts,
            isolation_error: opt_view(self.isolation_error),
        }
    }
}

/// A fresh report with a status and the errors it is about.
pub open spec fn new_report(status: RepairStatus, errors: Seq<ErrorView>) -> ReportView {
    ReportView {
        status,
        errors,
        proposed: Seq::empty(),
        attempted: Seq::empty(),
        applied: Seq::empty(),
        verified_alternatives: Seq::empty(),
        final_verification: None,
        attempts: 0,
        isolation_error: None,
    }
}

impl RepairReport {
    /// A report with nothing proposed or attempted yet.
    pub fn new(status: RepairStatus, errors: Vec<ParsedError>) -> (r: Self)
        ensures
            r@ == new_report(status, errors_view(errors@)),
    {
        let r = RepairReport {
            status,
            errors,
            proposed: Vec::new(),
            attempted: Vec::new(),
            applied: Vec::new(),
            verified_alternatives: Vec::new(),
            final_verification: None,
            attempts: 0,
            isolation_error: None,
        };
        assert(r@.proposed =~= Seq::<CandidateView>::empty());
        assert(r@.attempted =~= Seq::<AttemptView>::empty());
        assert(r@.applied =~= Seq::<CandidateView>::empty());
        assert(r@.verified_alternatives =~= Seq::<CandidateView>::empty());
        r
    }

    /// Did exactly one candidate pass verification?
    pub fn is_verified(&self) -> (r: bool)
        ensures
            r == (self.status == RepairStatus::Verified),
    {
        self.status == RepairStatus::Verified
    }
}

// ---------------------------------------------------------------------------
// Candidates for a batch of errors
// ---------------------------------------------------------------------------

/// Where candidates come from: the compiler's suggestions alone, or every
/// repair transformation over the source text.
#[derive(Debug, Clone, Copy, PartialEq, Eq, Structural)]
pub enum Planner {
    CompilerSuggestions,
    Transformations,
}

/// The source text handed in for error `i` (empty when none was).
pub open spec fn text_at(texts: Seq<Seq<char>>, i: int) -> Seq<char> {
    if 0 <= i < texts.len() {
        texts[i]
    } else {
        Seq::empty()
    }
}

/// The candidates generated for each error in turn.
pub open spec fn generated(planner: Planner, errors: Seq<ErrorView>, texts: Seq<Seq<char>>) -> Seq<CandidateView>
    decreases errors.len(),
{
    if errors.len() == 0 {
        Seq::empty()
    } else {
        let i = errors.len() - 1;
        generated(planner, errors.drop_last(), texts) + match planner {
            Planner::CompilerSuggestions => suggested_candidates(errors[i].suggestions),
            Planner::Transformations => dedup(
                all_transforms(from_source_view(errors[i], text_at(texts, i)), text_at(texts, i)),
            ),
        }
    }
}

/// The stable ordering of the candidates by score.
pub open spec fn ranked(s: Seq<CandidateView>) -> Seq<CandidateView> {
    choose|r: Seq<CandidateView>| stable_sort_of(r, s, score_key())
}

/// The candidates whose patch the history does not hold.
pub open spec fn keep_fresh(s: Seq<CandidateView>, h: Set<Seq<char>>) -> Seq<CandidateView>
    decreases s.len(),
{
    if s.len() == 0 {
        s
    } else if h.contains(signature(s.last().edits)) {
        keep_fresh(s.drop_last(), h)
    } else {
        keep_fresh(s.drop_last(), h).push(s.last())
    }
}

/// At most the first `n` elements.
pub open spec fn first_n<A>(s: Seq<A>, n: int) -> Seq<A> {
    if n < s.len() {
        s.take(n)
    } else {
        s
    }
}

/// The candidates for a batch of errors: generated, ranked, without those
/// already tried, capped at `max`.
pub open spec fn candidates_spec(
    planner: Planner,
    errors: Seq<ErrorView>,
    texts: Seq<Seq<char>>,
    h: Set<Seq<char>>,
    max: usize,
) -> Seq<CandidateView> {
    first_n(keep_fresh(ranked(generated(planner, errors, texts)), h), max as int)
}

/// Generated candidates for the failing diagnostics, ranked, without those
/// in the history, capped at `max`. With the transformation planner,
/// `sources[i]` is the source text of the file of error `i`.
pub fn candidates_for(
    planner: Planner,
    errors: &Vec<ParsedError>,
    sources: &Vec<String>,
    history: &RepairHistory,
    max: usize,
) -> (r: Vec<RepairCandidate>)
    ensures
        candidates_view(r@) == candidates_spec(
            planner,
            errors_view(errors@),
            str_views(sources@),
            history@,
            max,
        ),
{
    let ghost ev = errors_view(errors@);
    let ghost tv = str_views(sources@);
    let mut all: Vec<RepairCandidate> = Vec::new();
    let mut i: usize = 0;
    assert(ev.take(0) =~= Seq::<ErrorView>::empty());
    assert(candidates_view(all@) =~= Seq::<CandidateView>::empty());
    while i < errors.len()
        invariant
            i <= errors.len(),
            ev == errors_view(errors@),
            tv == str_views(sources@),
            candidates_view(all@) == generated(planner, ev.take(i as int), tv),
        decreases errors.len() - i,
    {
        let error = &errors[i];
        assert(ev[i as int] == error@);
        let mut gen = match planner {
            Planner::CompilerSuggestions => candidates_for_error(error),
            Planner::Transformations => {
                let analysis = analyze(error);
                let empty = String::new();
                let text = if i < sources.len() {
                    sources[i].as_str()
                } else {
                    empty.as_str()
                };
                assert(text@ == text_at(tv, i as int));
                generate_candidates(error, &analysis, text)
            },
        };
        let ghost before = candidates_view(all@);
        let ghost gv = candidates_view(gen@);
        all.append(&mut gen);
        assert(candidates_view(all@) =~= before + gv);
        assert(ev.take(i + 1).drop_last() =~= ev.take(i as int));
        assert(ev.take(i + 1)[i as int] == ev[i as int]);
        i = i + 1;
    }
    assert(ev.take(errors.len() as int) =~= ev);
    let ghost gen_all = candidates_view(all@);
    let ranked_v = rank_candidates(all);
    proof {
        let c = choose|r: Seq<CandidateView>| stable_sort_of(r, gen_all, score_key());
        assert(stable_sort_of(candidates_view(ranked_v@), gen_all, score_key()));
        lemma_stable_sort_unique(candidates_view(ranked_v@), c, gen_all, score_key());
    }
    let ghost rv = candidates_view(ranked_v@);
    let mut out: Vec<RepairCandidate> = Vec::new();
    let mut rest = ranked_v;
    let n = rest.len();
    let mut k: usize = 0;
    assert(rv.skip(0) =~= rv);
    assert(rv.take(0) =~= Seq::<CandidateView>::empty());
    assert(candidates_view(out@) =~= Seq::<CandidateView>::empty());
    while k < n
        invariant
            n == rv.len(),
            k <= n,
            rest@.len() == n - k,
            candidates_view(rest@) == rv.skip(k as int),
            candidates_view(out@) == keep_fresh(rv.take(k as int), history@),
        decreases n - k,
    {
        assert(candidates_view(rest@)[0] == rv[k as int]);
        let ghost r0 = rest@;
        let c = rest.remove(0);
        assert(rest@ =~= r0.skip(1));
        assert(candidates_view(rest@) =~= rv.skip(k + 1)) by {
            assert forall|j: int| 0 <= j < rest@.len() implies candidates_view(rest@)[j] == rv.skip(
                k + 1,
            )[j] by {
                assert(candidates_view(r0)[j + 1] == rv.skip(k as int)[j + 1]);
            }
        }
        assert(rv.take(k + 1).drop_last() =~= rv.take(k as int));
        assert(rv.take(k + 1).last() == c@);
        if !history.contains(&c.patch) {
            let ghost before = candidates_view(out@);
            out.push(c);
            assert(candidates_view(out@) =~= before.push(c@));
        }
        k = k + 1;
    }
    assert(rv.take(n as int) =~= rv);
    let ghost fresh = candidates_view(out@);
    if out.len() > max {
        out.truncate(max);
        assert(candidates_view(out@) =~= fresh.take(max as int));
    }
    out
}

proof fn lemma_keep_fresh_untried(s: Seq<CandidateView>, h: Set<Seq<char>>)
    ensures
        keep_fresh(s, h).len() <= s.len(),
        forall|i: int|
            0 <= i < keep_fresh(s, h).len() ==> !h.contains(
                #[trigger] signature(keep_fresh(s, h)[i].edits),
            ),
    decreases s.len(),
{
    if s.len() > 0 {
        let t = s.drop_last();
        lemma_keep_fresh_untried(t, h);
        let k = keep_fresh(s, h);
        let kt = keep_fresh(t, h);
        assert forall|i: int| 0 <= i < k.len() implies !h.contains(#[trigger] signature(k[i].edits)) by {
            if i < kt.len() {
                assert(k[i] == kt[i]);
                assert(!h.contains(signature(kt[i].edits)));
            }
        }
    }
}

/// Loop guard: no candidate handed out repeats a patch that the history
/// holds, and no more than `max` are handed out.
pub proof fn lemma_candidates_untried(
    planner: Planner,
    errors: Seq<ErrorView>,
    texts: Seq<Seq<char>>,
    h: Set<Seq<char>>,
    max: usize,
)
    ensures
        candidates_spec(planner, errors, texts, h, max).len() <= max,
        forall|i: int|
            0 <= i < candidates_spec(planner, errors, texts, h, max).len() ==> !h.contains(
                #[trigger] signature(candidates_spec(planner, errors, texts, h, max)[i].edits),
            ),
{
    let fresh = keep_fresh(ranked(generated(planner, errors, texts)), h);
    lemma_keep_fresh_untried(ranked(generated(planner, errors, texts)), h);
    let c = candidates_spec(planner, errors, texts, h, max);
    assert forall|i: int| 0 <= i < c.len() implies !h.contains(#[trigger] signature(c[i].edits)) by {
        assert(c[i] == fresh[i]);
    }
}

// ---------------------------------------------------------------------------
// The repair run as a state machine
// ---------------------------------------------------------------------------

/// Where a run stands: which outcome of outside work it waits for.
#[derive(Debug, Clone, Copy, PartialEq, Eq, Structural)]
pub enum Stage {
    Reproducing,
    Proposing,
    CreatingWorkspace,
    Gathering,
    Applying,
    Verifying,
    AlternativeApplying,
    AlternativeVerifying,
    Done,
}

/// The next piece of outside work.
#[derive(Debug)]
pub enum RepairAction {
    /// Check whether the failure reproduces in an isolated copy.
    Reproduce,
    /// Read the source text of the first file of each error.
    ReadSources { errors: Vec<ParsedError> },
    /// Create the isolated workspace.
    CreateWorkspace,
    /// Validate the patch against the workspace and apply it there.
    ApplyPatch { patch: Patch },
    /// Run the oracle in the workspace and parse the diagnostics it prints.
    Verify,
    /// Reset the workspace, then validate and apply the patch (if any).
    ResetAndApply { patch: Patch },
    /// Run the oracle for an alternative candidate.
    VerifyAlternative,
    /// The run is over; its report is ready.
    Finish,
    /// The run cannot go on.
    Fail { message: String },
}

/// The mathematical content of a [`RepairAction`].
pub enum ActionView {
    Reproduce,
    ReadSources(Seq<ErrorView>),
    CreateWorkspace,
    ApplyPatch(Seq<EditView>),
    Verify,
    ResetAndApply(Seq<EditView>),
    VerifyAlternative,
    Finish,
    Fail(Seq<char>),
}

/// The stage a run must be in after handing out `a`: the one whose handler
/// takes the outcome of that work (`Done` once the run is over).
pub open spec fn awaits(stage: Stage, a: ActionView) -> bool {
    match a {
        ActionView::Reproduce => stage == Stage::Reproducing,
        ActionView::ReadSources(_) => stage == Stage::Proposing || stage == Stage::Gathering,
        ActionView::CreateWorkspace => stage == Stage::CreatingWorkspace,
        ActionView::ApplyPatch(_) => stage == Stage::Applying,
        ActionView::Verify => stage == Stage::Verifying,
        ActionView::ResetAndApply(_) => stage == Stage::AlternativeApplying,
        ActionView::VerifyAlternative => stage == Stage::AlternativeVerifying,
        ActionView::Finish => stage == Stage::Done,
        ActionView::Fail(_) => stage == Stage::Done,
    }
}

impl View for RepairAction {
    type V = ActionView;

    open spec fn view(&self) -> ActionView {
        match self {
            RepairAction::Reproduce => ActionView::Reproduce,
            RepairAction::ReadSources { errors } => ActionView::ReadSources(errors_view(errors@)),
            RepairAction::CreateWorkspace => ActionView::CreateWorkspace,
            RepairAction::ApplyPatch { patch } => ActionView::ApplyPatch(edits_view(patch.edits@)),
            RepairAction::Verify => ActionView::Verify,
            RepairAction::ResetAndApply { patch } => ActionView::ResetAndApply(
                edits_view(patch.edits@),
            ),
            RepairAction::VerifyAlternative => ActionView::VerifyAlternative,
            RepairAction::Finish => ActionView::Finish,
            RepairAction::Fail { message } => ActionView::Fail(message@),
        }
    }
}

/// What became of validating and applying a patch in the workspace.
#[derive(Debug)]
pub enum ApplyOutcome {
    Applied,
    /// The patch does not fit the workspace's files.
    Invalid { message: String },
    /// Writing the patch failed.
    Failed { message: String },
}

/// The state of a repair run.
#[derive(Debug)]
pub struct RepairRun {
    pub stage: Stage,
    pub planner: Planner,
    pub dry_run: bool,
    pub config: EngineConfig,
    pub report: RepairReport,
    pub history: RepairHistory,
    pub attempts: u32,
    pub verified_candidate: Option<RepairCandidate>,
    pub current: Option<RepairCandidate>,
    pub workspace_applied: Vec<RepairCandidate>,
    pub tried: Vec<AttemptedCandidate>,
    pub pending_errors: Vec<ParsedError>,
    pub last_batch: Vec<RepairCandidate>,
    pub alternatives: Vec<RepairCandidate>,
    pub next_alternative: usize,
}

/// The view of an optional candidate.
pub open spec fn opt_candidate(c: Option<RepairCandidate>) -> Option<CandidateView> {
    match c {
        Some(x) => Some(x@),
        None => None,
    }
}

/// The mathematical content of a [`RepairRun`].
pub struct RunView {
    pub stage: Stage,
    pub planner: Planner,
    pub dry_run: bool,
    pub config: EngineConfig,
    pub report: ReportView,
    pub history: Set<Seq<char>>,
    pub attempts: u32,
    pub verified: Option<CandidateView>,
    pub current: Option<CandidateView>,
    pub workspace_applied: Seq<CandidateView>,
    pub tried: Seq<AttemptView>,
    pub pending: Seq<ErrorView>,
    pub last_batch: Seq<CandidateView>,
    pub alternatives: Seq<CandidateView>,
    pub next_alternative: usize,
}

impl View for RepairRun {
    type V = RunView;

    open spec fn view(&self) -> RunView {
        RunView {
            stage: self.stage,
            planner: self.planner,
            dry_run: self.dry_run,
            config: self.config,
            report: self.report@,
            history: self.history@,
            attempts: self.attempts,
            verified: opt_candidate(self.verified_candidate),
            current: opt_candidate(self.current),
            workspace_applied: candidates_view(self.workspace_applied@),
            tried: attempts_view(self.tried@),
            pending: errors_view(self.pending_errors@),
            last_batch: candidates_view(self.last_batch@),
            alternatives: candidates_view(self.alternatives@),
            next_alternative: self.next_alternative,
        }
    }
}

/// The run ends with `status`.
pub open spec fn end_with(s: RunView, status: RepairStatus) -> (RunView, ActionView) {
    (RunView { stage: Stage::Done, report: ReportView { status, ..s.report }, ..s }, ActionView::Finish)
}

/// The final status: one verified candidate, several, an isolation check
/// that failed, nothing attempted, or attempts that all failed.
pub open spec fn final_status(s: RunView) -> RepairStatus {
    let single = s.verified is Some && s.report.verified_alternatives.len() == 0;
    let multiple = s.verified is Some && s.report.verified_alternatives.len() > 0;
    if single {
        RepairStatus::Verified
    } else if multiple {
        RepairStatus::MultipleVerifiedRepairs
    } else if s.report.isolation_error is Some {
        RepairStatus::IsolationCheckFailed
    } else if s.report.attempted.len() == 0 {
        RepairStatus::HumanReviewRequired
    } else {
        RepairStatus::RepairAttempted
    }
}

/// The run ends with its final status; a single verified candidate hands
/// over the patches applied in the workspace.
pub open spec fn finalize(s: RunView) -> (RunView, ActionView) {
    let single = s.verified is Some && s.report.verified_alternatives.len() == 0;
    (
        RunView {
            stage: Stage::Done,
            report: ReportView {
                status: final_status(s),
                applied: if single {
                    s.workspace_applied
                } else {
                    s.report.applied
                },
                ..s.report
            },
            ..s
        },
        ActionView::Finish,
    )
}

/// What the final status reports: a verified candidate with verified
/// alternatives is `MultipleVerifiedRepairs` (a person must choose), one
/// without is `Verified`; no other status claims a verified repair, and
/// `RepairAttempted` (candidates tried, none verified) only comes when no
/// candidate was verified but some were attempted. The finished run carries
/// that status and hands over patches only for a single verified repair.
pub proof fn lemma_final_status_meaning(s: RunView)
    ensures
        s.verified is Some && s.report.verified_alternatives.len() > 0 ==> final_status(s)
            == RepairStatus::MultipleVerifiedRepairs,
        s.verified is Some && s.report.verified_alternatives.len() == 0 ==> final_status(s)
            == RepairStatus::Verified,
        (final_status(s) == RepairStatus::Verified || final_status(s)
            == RepairStatus::MultipleVerifiedRepairs) <==> s.verified is Some,
        final_status(s) == RepairStatus::RepairAttempted ==> s.verified is None
            && s.report.attempted.len() > 0,
        final_status(s) == RepairStatus::HumanReviewRequired ==> s.verified is None
            && s.report.attempted.len() == 0,
        finalize(s).0.report.status == final_status(s),
        finalize(s).0.stage == Stage::Done,
        finalize(s).1 == ActionView::Finish,
{
}

/// The next alternative to check, or the end of the run.
pub open spec fn next_alternative(s: RunView) -> (RunView, ActionView) {
    if s.next_alternative < s.alternatives.len() {
        (
            RunView { stage: Stage::AlternativeApplying, ..s },
            ActionView::ResetAndApply(s.alternatives[s.next_alternative as int].edits),
        )
    } else {
        finalize(s)
    }
}

/// The candidates of the last batch that differ from the verified one in
/// patch, kind or description.
pub open spec fn differing(v: CandidateView, batch: Seq<CandidateView>) -> Seq<CandidateView>
    decreases batch.len(),
{
    if batch.len() == 0 {
        batch
    } else {
        let c = batch.last();
        let rest = differing(v, batch.drop_last());
        if signature(c.edits) != signature(v.edits) || c.kind != v.kind || c.description
            != v.description {
            rest.push(c)
        } else {
            rest
        }
    }
}

/// The attempt loop is over: record the attempts, then check alternatives
/// to a verified candidate (up to the configured number) or end.
pub open spec fn after_loop(s: RunView) -> (RunView, ActionView) {
    let s1 = RunView {
        report: ReportView { attempted: s.tried, attempts: s.attempts, ..s.report },
        ..s
    };
    match s.verified {
        Some(v) => next_alternative(
            RunView {
                alternatives: first_n(
                    differing(v, s.last_batch),
                    s.config.max_alternative_checks as int,
                ),
                next_alternative: 0,
                ..s1
            },
        ),
        None => finalize(s1),
    }
}

/// The errors the run needs candidates for.
pub open spec fn wanted_errors(s: RunView) -> Seq<ErrorView> {
    if s.stage == Stage::Proposing {
        s.report.errors
    } else {
        s.pending
    }
}

/// Candidates arrived while proposing: record them, then end a dry run or an
/// empty proposal, or create the workspace.
pub open spec fn propose_with(s: RunView, cands: Seq<CandidateView>) -> (RunView, ActionView) {
    let s1 = RunView { report: ReportView { proposed: cands, ..s.report }, ..s };
    if s.dry_run {
        end_with(s1, RepairStatus::Preview)
    } else if cands.len() == 0 {
        end_with(s1, RepairStatus::HumanReviewRequired)
    } else {
        (RunView { stage: Stage::CreatingWorkspace, ..s1 }, ActionView::CreateWorkspace)
    }
}

/// Candidates arrived inside the attempt loop: none ends the loop;
/// otherwise the first is attempted (counted and recorded in the history)
/// by applying its patch, or verifying directly when it has no edits.
pub open spec fn attempt_with(s: RunView, cands: Seq<CandidateView>) -> (RunView, ActionView) {
    if cands.len() == 0 {
        after_loop(s)
    } else {
        let c = cands[0];
        let s1 = RunView {
            last_batch: cands,
            attempts: (s.attempts + 1) as u32,
            history: s.history.insert(signature(c.edits)),
            current: Some(c),
            ..s
        };
        if c.edits.len() > 0 {
            (RunView { stage: Stage::Applying, ..s1 }, ActionView::ApplyPatch(c.edits))
        } else {
            (RunView { stage: Stage::Verifying, ..s1 }, ActionView::Verify)
        }
    }
}

/// Candidates arrived.
pub open spec fn got_candidates(s: RunView, cands: Seq<CandidateView>) -> (RunView, ActionView) {
    if s.stage == Stage::Proposing {
        propose_with(s, cands)
    } else {
        attempt_with(s, cands)
    }
}

/// Candidates are needed: the transformation planner asks for the source
/// texts; the compiler planner has what it needs.
pub open spec fn request_candidates(s: RunView) -> (RunView, ActionView) {
    match s.planner {
        Planner::Transformations => (s, ActionView::ReadSources(wanted_errors(s))),
        Planner::CompilerSuggestions => got_candidates(
            s,
            candidates_spec(
                s.planner,
                wanted_errors(s),
                Seq::empty(),
                s.history,
                s.config.max_candidates,
            ),
        ),
    }
}

/// The head of the attempt loop: another attempt while the bound allows.
pub open spec fn loop_head(s: RunView) -> (RunView, ActionView) {
    if s.attempts < s.config.max_attempts {
        request_candidates(RunView { stage: Stage::Gathering, ..s })
    } else {
        after_loop(s)
    }
}

/// The current candidate failed with `reason`; the loop goes on.
pub open spec fn rejected(s: RunView, reason: Seq<char>) -> RunView {
    RunView {
        tried: s.tried.push(
            AttemptView { candidate: s.current.unwrap(), verified: false, rejected_reason: Some(reason) },
        ),
        ..s
    }
}

/// The state a run starts in, for the errors of the first build.
pub open spec fn start_spec(
    errors: Seq<ErrorView>,
    planner: Planner,
    dry_run: bool,
    config: EngineConfig,
) -> (RunView, ActionView) {
    let s = RunView {
        stage: Stage::Reproducing,
        planner,
        dry_run,
        config,
        report: new_report(RepairStatus::PatchGenerated, errors),
        history: Set::empty(),
        attempts: 0,
        verified: None,
        current: None,
        workspace_applied: Seq::empty(),
        tried: Seq::empty(),
        pending: errors,
        last_batch: Seq::empty(),
        alternatives: Seq::empty(),
        next_alternative: 0,
    };
    if errors.len() == 0 {
        (
            RunView { stage: Stage::Done, report: new_report(RepairStatus::NoDiagnostic, errors), ..s },
            ActionView::Finish,
        )
    } else {
        (s, ActionView::Reproduce)
    }
}

/// The failure reproduced (`Ok(true)`), did not (`Ok(false)`), or could
/// not be checked (`Err`, which is recorded and does not stop the run).
pub open spec fn reproduced_spec(s: RunView, outcome: Result<bool, Seq<char>>) -> (RunView, ActionView) {
    match outcome {
        Ok(true) => request_candidates(RunView { stage: Stage::Proposing, ..s }),
        Ok(false) => end_with(s, RepairStatus::NothingToRepair),
        Err(m) => request_candidates(
            RunView {
                stage: Stage::Proposing,
                report: ReportView { isolation_error: Some(m), ..s.report },
                ..s
            },
        ),
    }
}

/// The source texts arrived.
pub open spec fn sources_spec(s: RunView, texts: Seq<Seq<char>>) -> (RunView, ActionView) {
    got_candidates(
        s,
        candidates_spec(s.planner, wanted_errors(s), texts, s.history, s.config.max_candidates),
    )
}

/// The workspace was created, or could not be.
pub open spec fn workspace_spec(s: RunView, outcome: Result<(), Seq<char>>) -> (RunView, ActionView) {
    match outcome {
        Ok(_) => loop_head(s),
        Err(m) => (
            RunView { stage: Stage::Done, ..s },
            ActionView::Fail("could not create isolated workspace: "@ + m),
        ),
    }
}

/// The view of an apply outcome.
pub enum ApplyView {
    Applied,
    Invalid(Seq<char>),
    Failed(Seq<char>),
}

impl View for ApplyOutcome {
    type V = ApplyView;

    open spec fn view(&self) -> ApplyView {
        match self {
            ApplyOutcome::Applied => ApplyView::Applied,
            ApplyOutcome::Invalid { message } => ApplyView::Invalid(message@),
            ApplyOutcome::Failed { message } => ApplyView::Failed(message@),
        }
    }
}

/// The patch of the current candidate was applied, or refused.
pub open spec fn applied_spec(s: RunView, outcome: ApplyView) -> (RunView, ActionView) {
    match outcome {
        ApplyView::Applied => (
            RunView {
                stage: Stage::Verifying,
                workspace_applied: s.workspace_applied.push(s.current.unwrap()),
                ..s
            },
            ActionView::Verify,
        ),
        ApplyView::Invalid(m) => loop_head(rejected(s, "invalid patch: "@ + m)),
        ApplyView::Failed(m) => loop_head(rejected(s, "apply failed: "@ + m)),
    }
}

/// The oracle ran: it passed (the run looks for alternatives), failed with
/// new diagnostics (the loop goes on with them), failed without any (the
/// loop ends), or could not run.
pub open spec fn verified_spec(
    s: RunView,
    outcome: Result<VerificationView, Seq<char>>,
    next_errors: Seq<ErrorView>,
) -> (RunView, ActionView) {
    match outcome {
        Err(m) => loop_head(rejected(s, "verification error: "@ + m)),
        Ok(r) => {
            let s1 = RunView { report: ReportView { final_verification: Some(r), ..s.report }, ..s };
            if r.passed {
                after_loop(
                    RunView {
                        verified: s.current,
                        tried: s.tried.push(
                            AttemptView {
                                candidate: s.current.unwrap(),
                                verified: true,
                                rejected_reason: None,
                            },
                        ),
                        ..s1
                    },
                )
            } else {
                let s2 = rejected(s1, "`cargo check` failed in the isolated workspace"@);
                if next_errors.len() == 0 {
                    after_loop(s2)
                } else {
                    loop_head(RunView { pending: next_errors, ..s2 })
                }
            }
        },
    }
}

/// The workspace was reset and the alternative's patch applied (or not).
pub open spec fn alternative_ready_spec(s: RunView, ready: bool) -> (RunView, ActionView) {
    if ready {
        (RunView { stage: Stage::AlternativeVerifying, ..s }, ActionView::VerifyAlternative)
    } else {
        next_alternative(RunView { next_alternative: (s.next_alternative + 1) as usize, ..s })
    }
}

/// The oracle ran for an alternative (`None`: it could not run). A passing
/// alternative is recorded as attempted and as a verified alternative.
pub open spec fn alternative_verified_spec(s: RunView, outcome: Option<VerificationView>) -> (RunView, ActionView) {
    let a = s.alternatives[s.next_alternative as int];
    let s1 = match outcome {
        Some(r) => RunView {
            report: ReportView {
                final_verification: Some(r),
                attempted: if r.passed {
                    s.report.attempted.push(
                        AttemptView { candidate: a, verified: true, rejected_reason: None },
                    )
                } else {
                    s.report.attempted
                },
                verified_alternatives: if r.passed {
                    s.report.verified_alternatives.push(a)
                } else {
                    s.report.verified_alternatives
                },
                ..s.report
            },
            ..s
        },
        None => s,
    };
    next_alternative(RunView { next_alternative: (s.next_alternative + 1) as usize, ..s1 })
}


impl Clone for AttemptedCandidate {
    fn clone(&self) -> (r: Self)
        ensures
            r@ == self@,
    {
        AttemptedCandidate {
            candidate: self.candidate.clone(),
            verified: self.verified,
            rejected_reason: crate::diagnostics::clone_opt_string(&self.rejected_reason),
        }
    }
}

/// A copy of a list of attempts.
pub fn clone_attempts(v: &Vec<AttemptedCandidate>) -> (r: Vec<AttemptedCandidate>)
    ensures
        attempts_view(r@) == attempts_view(v@),
{
    let mut r: Vec<AttemptedCandidate> = Vec::new();
    let mut i: usize = 0;
    while i < v.len()
        invariant
            i <= v.len(),
            attempts_view(r@) == attempts_view(v@.take(i as int)),
        decreases v.len() - i,
    {
        r.push(v[i].clone());
        assert(attempts_view(v@.take(i + 1)) =~= attempts_view(v@.take(i as int)).push(v@[i as int]@));
        assert(attempts_view(r@) =~= attempts_view(v@.take(i as int)).push(v@[i as int]@));
        i = i + 1;
    }
    assert(v@.take(v.len() as int) =~= v@);
    r
}

/// A passing attempt stays recorded when another attempt is recorded.
proof fn lemma_push_keeps(tried: Seq<AttemptView>, verified: Option<CandidateView>, x: AttemptView)
    ensures
        (verified matches Some(v) ==> tried.contains(
            AttemptView { candidate: v, verified: true, rejected_reason: None },
        )) ==> (verified matches Some(v) ==> tried.push(x).contains(
            AttemptView { candidate: v, verified: true, rejected_reason: None },
        )),
{
    if let Some(v) = verified {
        let a = AttemptView { candidate: v, verified: true, rejected_reason: None };
        if tried.contains(a) {
            let k = choose|k: int| 0 <= k < tried.len() && tried[k] == a;
            assert(tried.push(x)[k] == a);
        }
    }
}

/// The run's invariant. A candidate is in hand while its patch is applied
/// or verified, and an alternative while one is checked; the attempts stay
/// within the bound; a candidate counts as verified only after the oracle
/// passed it; only a verified run hands over patches; and a dry run makes
/// no attempt and hands over nothing.
pub open spec fn well_formed(s: RunView) -> bool {
    &&& s.history.finite() && s.history.len() == s.attempts as nat
    &&& (s.stage == Stage::Applying || s.stage == Stage::Verifying) ==> s.current is Some
    &&& (s.stage == Stage::AlternativeApplying || s.stage == Stage::AlternativeVerifying)
        ==> s.next_alternative < s.alternatives.len()
    &&& s.attempts <= s.config.max_attempts
    &&& s.stage == Stage::Gathering ==> s.attempts < s.config.max_attempts
    &&& s.verified matches Some(v) ==> s.tried.contains(
        AttemptView { candidate: v, verified: true, rejected_reason: None },
    )
    &&& s.report.status == RepairStatus::Verified ==> s.verified is Some
    &&& s.report.applied.len() > 0 ==> s.report.status == RepairStatus::Verified
    &&& s.stage != Stage::Done ==> s.report.applied.len() == 0
    &&& s.dry_run ==> s.attempts == 0 && s.verified is None && s.report.applied.len() == 0 && (s.stage
        == Stage::Reproducing || s.stage == Stage::Proposing || s.stage == Stage::Done)
}

/// Every run that the handlers produce holds one distinct patch signature
/// per attempt: no patch is attempted twice, and the history counts the
/// attempts exactly.
pub proof fn lemma_one_signature_per_attempt(s: RunView)
    requires
        well_formed(s),
    ensures
        s.history.finite(),
        s.history.len() == s.attempts,
{
}

/// The invariant while moving on to the next alternative, which may be
/// one past the last.
pub open spec fn loosely_formed(s: RunView) -> bool {
    &&& s.history.finite() && s.history.len() == s.attempts as nat
    &&& (s.stage == Stage::Applying || s.stage == Stage::Verifying) ==> s.current is Some
    &&& (s.stage == Stage::AlternativeApplying || s.stage == Stage::AlternativeVerifying)
        ==> s.next_alternative <= s.alternatives.len()
    &&& s.attempts <= s.config.max_attempts
    &&& s.stage == Stage::Gathering ==> s.attempts < s.config.max_attempts
    &&& s.verified matches Some(v) ==> s.tried.contains(
        AttemptView { candidate: v, verified: true, rejected_reason: None },
    )
    &&& s.report.status == RepairStatus::Verified ==> s.verified is Some
    &&& s.report.applied.len() > 0 ==> s.report.status == RepairStatus::Verified
    &&& s.stage != Stage::Done ==> s.report.applied.len() == 0
    &&& s.dry_run ==> s.attempts == 0 && s.verified is None && s.report.applied.len() == 0 && (s.stage
        == Stage::Reproducing || s.stage == Stage::Proposing || s.stage == Stage::Done)
}

fn candidates_differing(v: &RepairCandidate, batch: &Vec<RepairCandidate>, max: usize) -> (r: Vec<RepairCandidate>)
    ensures
        candidates_view(r@) == first_n(differing(v@, candidates_view(batch@)), max as int),
{
    let ghost bv = candidates_view(batch@);
    let vsig = crate::repair::patch_signature(&v.patch);
    let mut out: Vec<RepairCandidate> = Vec::new();
    let mut i: usize = 0;
    assert(bv.take(0) =~= Seq::<CandidateView>::empty());
    assert(candidates_view(out@) =~= Seq::<CandidateView>::empty());
    while i < batch.len()
        invariant
            i <= batch.len(),
            bv == candidates_view(batch@),
            vsig@ == signature(v@.edits),
            candidates_view(out@) == differing(v@, bv.take(i as int)),
        decreases batch.len() - i,
    {
        let c = &batch[i];
        assert(bv[i as int] == c@);
        assert(bv.take(i + 1).drop_last() =~= bv.take(i as int));
        assert(bv.take(i + 1).last() == c@);
        let csig = crate::repair::patch_signature(&c.patch);
        if !crate::text::str_eq(csig.as_str(), vsig.as_str()) || c.kind != v.kind
            || !crate::text::str_eq(c.description.as_str(), v.description.as_str()) {
            let ghost before = candidates_view(out@);
            out.push(c.clone());
            assert(candidates_view(out@) =~= before.push(c@));
        }
        i = i + 1;
    }
    assert(bv.take(batch.len() as int) =~= bv);
    let ghost all = candidates_view(out@);
    if out.len() > max {
        out.truncate(max);
        assert(candidates_view(out@) =~= all.take(max as int));
    }
    out
}

impl RepairRun {
    /// A run for the errors of the first build, and its first piece of work.
    pub fn start(errors: Vec<ParsedError>, planner: Planner, dry_run: bool, config: EngineConfig) -> (r: (
        RepairRun,
        RepairAction,
    ))
        ensures
            r.0@ == start_spec(errors_view(errors@), planner, dry_run, config).0,
            r.1@ == start_spec(errors_view(errors@), planner, dry_run, config).1,
            well_formed(r.0@),
            awaits(r.0@.stage, r.1@),
    {
        let empty = errors.len() == 0;
        let pending = clone_errors(&errors);
        let status = if empty {
            RepairStatus::NoDiagnostic
        } else {
            RepairStatus::PatchGenerated
        };
        let run = RepairRun {
            stage: if empty {
                Stage::Done
            } else {
                Stage::Reproducing
            },
            planner,
            dry_run,
            config,
            report: RepairReport::new(status, errors),
            history: RepairHistory::new(),
            attempts: 0,
            verified_candidate: None,
            current: None,
            workspace_applied: Vec::new(),
            tried: Vec::new(),
            pending_errors: pending,
            last_batch: Vec::new(),
            alternatives: Vec::new(),
            next_alternative: 0,
        };
        proof {
            let sv = start_spec(errors_view(errors@), planner, dry_run, config).0;
            assert(run@.workspace_applied =~= sv.workspace_applied);
            assert(run@.tried =~= sv.tried);
            assert(run@.last_batch =~= sv.last_batch);
            assert(run@.alternatives =~= sv.alternatives);
            assert(run@ == sv);
        }
        let action = if empty {
            RepairAction::Finish
        } else {
            RepairAction::Reproduce
        };
        (run, action)
    }

    fn end_with(&mut self, status: RepairStatus) -> (r: RepairAction)
        requires
            well_formed(old(self)@),
            status != RepairStatus::Verified,
            old(self).stage != Stage::Done,
        ensures
            final(self)@ == end_with(old(self)@, status).0,
            r@ == end_with(old(self)@, status).1,
            well_formed(final(self)@),
            awaits(final(self)@.stage, r@),
    {
        self.stage = Stage::Done;
        self.report.status = status;
        RepairAction::Finish
    }

    fn finalize(&mut self) -> (r: RepairAction)
        requires
            loosely_formed(old(self)@),
            old(self).stage != Stage::Done,
        ensures
            final(self)@ == finalize(old(self)@).0,
            r@ == finalize(old(self)@).1,
            well_formed(final(self)@),
            awaits(final(self)@.stage, r@),
    {
        let verified = self.verified_candidate.is_some();
        let single = verified && self.report.verified_alternatives.len() == 0;
        let multiple = verified && self.report.verified_alternatives.len() > 0;
        let status = if single {
            RepairStatus::Verified
        } else if multiple {
            RepairStatus::MultipleVerifiedRepairs
        } else if self.report.isolation_error.is_some() {
            RepairStatus::IsolationCheckFailed
        } else if self.report.attempted.len() == 0 {
            RepairStatus::HumanReviewRequired
        } else {
            RepairStatus::RepairAttempted
        };
        if single {
            self.report.applied = clone_candidates(&self.workspace_applied);
        }
        self.report.status = status;
        self.stage = Stage::Done;
        RepairAction::Finish
    }

    fn next_alternative(&mut self) -> (r: RepairAction)
        requires
            loosely_formed(old(self)@),
            !old(self).dry_run,
            old(self).stage != Stage::Done,
        ensures
            final(self)@ == next_alternative(old(self)@).0,
            r@ == next_alternative(old(self)@).1,
            well_formed(final(self)@),
            awaits(final(self)@.stage, r@),
    {
        if self.next_alternative < self.alternatives.len() {
            self.stage = Stage::AlternativeApplying;
            let edits = clone_edits(&self.alternatives[self.next_alternative].patch.edits);
            RepairAction::ResetAndApply { patch: Patch::new(edits) }
        } else {
            self.finalize()
        }
    }

    fn after_loop(&mut self) -> (r: RepairAction)
        requires
            well_formed(old(self)@),
            old(self).stage != Stage::Done,
            !old(self).dry_run,
        ensures
            final(self)@ == after_loop(old(self)@).0,
            r@ == after_loop(old(self)@).1,
            well_formed(final(self)@),
            awaits(final(self)@.stage, r@),
    {
        self.report.attempted = clone_attempts(&self.tried);
        self.report.attempts = self.attempts;
        match &self.verified_candidate {
            Some(v) => {
                let alts = candidates_differing(v, &self.last_batch, self.config.max_alternative_checks);
                self.alternatives = alts;
                self.next_alternative = 0;
                self.next_alternative()
            },
            None => self.finalize(),
        }
    }

    fn propose_with(&mut self, cands: Vec<RepairCandidate>) -> (r: RepairAction)
        requires
            well_formed(old(self)@),
            old(self).stage == Stage::Proposing,
        ensures
            final(self)@ == propose_with(old(self)@, candidates_view(cands@)).0,
            r@ == propose_with(old(self)@, candidates_view(cands@)).1,
            well_formed(final(self)@),
            awaits(final(self)@.stage, r@),
    {
        let empty = cands.len() == 0;
        self.report.proposed = cands;
        if self.dry_run {
            self.end_with(RepairStatus::Preview)
        } else if empty {
            self.end_with(RepairStatus::HumanReviewRequired)
        } else {
            self.stage = Stage::CreatingWorkspace;
            RepairAction::CreateWorkspace
        }
    }

    fn attempt_with(&mut self, cands: Vec<RepairCandidate>) -> (r: RepairAction)
        requires
            well_formed(old(self)@),
            old(self).stage == Stage::Gathering,
            old(self).attempts < old(self).config.max_attempts,
            cands@.len() > 0 ==> !old(self)@.history.contains(signature(cands@[0]@.edits)),
        ensures
            final(self)@ == attempt_with(old(self)@, candidates_view(cands@)).0,
            r@ == attempt_with(old(self)@, candidates_view(cands@)).1,
            well_formed(final(self)@),
            awaits(final(self)@.stage, r@),
    {
        if cands.len() == 0 {
            return self.after_loop();
        }
        let candidate = cands[0].clone();
        assert(candidates_view(cands@)[0] == cands@[0]@);
        self.last_batch = cands;
        self.attempts = self.attempts + 1;
        self.history.record_patch(&candidate.patch);
        let has_edits = candidate.patch.edits.len() > 0;
        let edits = clone_edits(&candidate.patch.edits);
        self.current = Some(candidate);
        if has_edits {
            self.stage = Stage::Applying;
            RepairAction::ApplyPatch { patch: Patch::new(edits) }
        } else {
            self.stage = Stage::Verifying;
            RepairAction::Verify
        }
    }

    fn got_candidates(&mut self, cands: Vec<RepairCandidate>) -> (r: RepairAction)
        requires
            well_formed(old(self)@),
            old(self).stage == Stage::Proposing || old(self).stage == Stage::Gathering,
            old(self).stage == Stage::Proposing || old(self).attempts < old(self).config.max_attempts,
            cands@.len() > 0 ==> !old(self)@.history.contains(signature(cands@[0]@.edits)),
        ensures
            final(self)@ == got_candidates(old(self)@, candidates_view(cands@)).0,
            r@ == got_candidates(old(self)@, candidates_view(cands@)).1,
            well_formed(final(self)@),
            awaits(final(self)@.stage, r@),
    {
        if self.stage == Stage::Proposing {
            self.propose_with(cands)
        } else {
            self.attempt_with(cands)
        }
    }

    fn request_candidates(&mut self) -> (r: RepairAction)
        requires
            well_formed(old(self)@),
            old(self).stage == Stage::Proposing || old(self).stage == Stage::Gathering,
            old(self).stage == Stage::Proposing || old(self).attempts < old(self).config.max_attempts,
        ensures
            final(self)@ == request_candidates(old(self)@).0,
            r@ == request_candidates(old(self)@).1,
            well_formed(final(self)@),
            awaits(final(self)@.stage, r@),
    {
        let errors = if self.stage == Stage::Proposing {
            clone_errors(&self.report.errors)
        } else {
            clone_errors(&self.pending_errors)
        };
        match self.planner {
            Planner::Transformations => RepairAction::ReadSources { errors },
            Planner::CompilerSuggestions => {
                let none: Vec<String> = Vec::new();
                assert(str_views(none@) =~= Seq::<Seq<char>>::empty());
                let cands = candidates_for(
                    self.planner,
                    &errors,
                    &none,
                    &self.history,
                    self.config.max_candidates,
                );
                proof {
                    lemma_candidates_untried(
                        self.planner,
                        errors_view(errors@),
                        str_views(none@),
                        self.history@,
                        self.config.max_candidates,
                    );
                    if cands@.len() > 0 {
                        assert(candidates_view(cands@)[0] == cands@[0]@);
                    }
                }
                self.got_candidates(cands)
            },
        }
    }

    fn loop_head(&mut self) -> (r: RepairAction)
        requires
            well_formed(old(self)@),
            old(self).stage != Stage::Done,
            !old(self).dry_run,
        ensures
            final(self)@ == loop_head(old(self)@).0,
            r@ == loop_head(old(self)@).1,
            well_formed(final(self)@),
            awaits(final(self)@.stage, r@),
    {
        if self.attempts < self.config.max_attempts {
            self.stage = Stage::Gathering;
            self.request_candidates()
        } else {
            self.after_loop()
        }
    }

    fn reject(&mut self, reason: String)
        requires
            well_formed(old(self)@),
            old(self).current is Some,
        ensures
            final(self)@ == rejected(old(self)@, reason@),
            well_formed(final(self)@),
    {
        let candidate = match &self.current {
            Some(c) => c.clone(),
            None => {
                assert(false);
                return;
            },
        };
        let ghost before = attempts_view(self.tried@);
        self.tried.push(AttemptedCandidate { candidate, verified: false, rejected_reason: Some(reason) });
        assert(attempts_view(self.tried@) =~= before.push(
            AttemptView { candidate: old(self)@.current.unwrap(), verified: false, rejected_reason: Some(reason@) },
        ));
        proof {
            lemma_push_keeps(before, old(self)@.verified, AttemptView {
                candidate: old(self)@.current.unwrap(),
                verified: false,
                rejected_reason: Some(reason@),
            });
        }
    }
}


/// The view of a reproduction outcome.
pub open spec fn outcome_view(o: Result<bool, String>) -> Result<bool, Seq<char>> {
    match o {
        Ok(b) => Ok(b),
        Err(m) => Err(m@),
    }
}

/// The view of a workspace outcome.
pub open spec fn unit_outcome_view(o: Result<(), String>) -> Result<(), Seq<char>> {
    match o {
        Ok(u) => Ok(u),
        Err(m) => Err(m@),
    }
}

/// The view of an oracle outcome.
pub open spec fn verdict_outcome_view(o: Result<VerificationResult, String>) -> Result<VerificationView, Seq<char>> {
    match o {
        Ok(r) => Ok(r@),
        Err(m) => Err(m@),
    }
}

impl RepairRun {
    /// The failure reproduced in isolation, did not, or could not be checked.
    pub fn on_reproduced(&mut self, outcome: Result<bool, String>) -> (r: RepairAction)
        requires
            old(self).stage == Stage::Reproducing,
            well_formed(old(self)@),
        ensures
            final(self)@ == reproduced_spec(old(self)@, outcome_view(outcome)).0,
            r@ == reproduced_spec(old(self)@, outcome_view(outcome)).1,
            well_formed(final(self)@),
            awaits(final(self)@.stage, r@),
    {
        match outcome {
            Ok(true) => {
                self.stage = Stage::Proposing;
                self.request_candidates()
            },
            Ok(false) => self.end_with(RepairStatus::NothingToRepair),
            Err(m) => {
                self.report.isolation_error = Some(m);
                self.stage = Stage::Proposing;
                self.request_candidates()
            },
        }
    }

    /// The source texts of the errors asked for, in their order.
    pub fn on_sources(&mut self, texts: Vec<String>) -> (r: RepairAction)
        requires
            old(self).stage == Stage::Proposing || old(self).stage == Stage::Gathering,
            well_formed(old(self)@),
        ensures
            final(self)@ == sources_spec(old(self)@, str_views(texts@)).0,
            r@ == sources_spec(old(self)@, str_views(texts@)).1,
            well_formed(final(self)@),
            awaits(final(self)@.stage, r@),
    {
        let errors = if self.stage == Stage::Proposing {
            clone_errors(&self.report.errors)
        } else {
            clone_errors(&self.pending_errors)
        };
        let cands = candidates_for(self.planner, &errors, &texts, &self.history, self.config.max_candidates);
        proof {
            lemma_candidates_untried(
                self.planner,
                errors_view(errors@),
                str_views(texts@),
                self.history@,
                self.config.max_candidates,
            );
            if cands@.len() > 0 {
                assert(candidates_view(cands@)[0] == cands@[0]@);
            }
        }
        self.got_candidates(cands)
    }
}


impl RepairRun {
    /// The isolated workspace was created, or could not be.
    pub fn on_workspace(&mut self, outcome: Result<(), String>) -> (r: RepairAction)
        requires
            old(self).stage == Stage::CreatingWorkspace,
            well_formed(old(self)@),
        ensures
            final(self)@ == workspace_spec(old(self)@, unit_outcome_view(outcome)).0,
            r@ == workspace_spec(old(self)@, unit_outcome_view(outcome)).1,
            well_formed(final(self)@),
            awaits(final(self)@.stage, r@),
    {
        match outcome {
            Ok(()) => self.loop_head(),
            Err(m) => {
                self.stage = Stage::Done;
                let mut message = String::from_str("could not create isolated workspace: ");
                message.append(m.as_str());
                RepairAction::Fail { message }
            },
        }
    }

    /// The current candidate's patch was applied in the workspace, or not.
    pub fn on_applied(&mut self, outcome: ApplyOutcome) -> (r: RepairAction)
        requires
            old(self).stage == Stage::Applying,
            well_formed(old(self)@),
        ensures
            final(self)@ == applied_spec(old(self)@, outcome@).0,
            r@ == applied_spec(old(self)@, outcome@).1,
            well_formed(final(self)@),
            awaits(final(self)@.stage, r@),
    {
        match outcome {
            ApplyOutcome::Applied => {
                let c = match &self.current {
                    Some(c) => c.clone(),
                    None => {
                        assert(false);
                        return RepairAction::Finish;
                    },
                };
                let ghost before = candidates_view(self.workspace_applied@);
                self.workspace_applied.push(c);
                assert(candidates_view(self.workspace_applied@) =~= before.push(
                    old(self)@.current.unwrap(),
                ));
                self.stage = Stage::Verifying;
                RepairAction::Verify
            },
            ApplyOutcome::Invalid { message } => {
                let mut reason = String::from_str("invalid patch: ");
                reason.append(message.as_str());
                self.reject(reason);
                self.loop_head()
            },
            ApplyOutcome::Failed { message } => {
                let mut reason = String::from_str("apply failed: ");
                reason.append(message.as_str());
                self.reject(reason);
                self.loop_head()
            },
        }
    }

    /// The oracle ran in the workspace (with the diagnostics it printed), or
    /// could not run.
    pub fn on_verified(
        &mut self,
        outcome: Result<VerificationResult, String>,
        next_errors: Vec<ParsedError>,
    ) -> (r: RepairAction)
        requires
            old(self).stage == Stage::Verifying,
            well_formed(old(self)@),
        ensures
            final(self)@ == verified_spec(
                old(self)@,
                verdict_outcome_view(outcome),
                errors_view(next_errors@),
            ).0,
            r@ == verified_spec(old(self)@, verdict_outcome_view(outcome), errors_view(next_errors@)).1,
            well_formed(final(self)@),
            awaits(final(self)@.stage, r@),
    {
        match outcome {
            Err(m) => {
                let mut reason = String::from_str("verification error: ");
                reason.append(m.as_str());
                self.reject(reason);
                self.loop_head()
            },
            Ok(result) => {
                let passed = result.passed;
                self.report.final_verification = Some(result);
                if passed {
                    let c = match &self.current {
                        Some(c) => c.clone(),
                        None => {
                            assert(false);
                            return RepairAction::Finish;
                        },
                    };
                    let ghost before = attempts_view(self.tried@);
                    self.tried.push(AttemptedCandidate { candidate: c.clone(), verified: true, rejected_reason: None });
                    assert(attempts_view(self.tried@) =~= before.push(
                        AttemptView {
                            candidate: old(self)@.current.unwrap(),
                            verified: true,
                            rejected_reason: None,
                        },
                    ));
                    self.verified_candidate = Some(c);
                    proof {
                        let a = AttemptView {
                            candidate: old(self)@.current.unwrap(),
                            verified: true,
                            rejected_reason: None,
                        };
                        assert(attempts_view(self.tried@)[attempts_view(self.tried@).len() - 1] == a);
                    }
                    self.after_loop()
                } else {
                    self.reject(String::from_str("`cargo check` failed in the isolated workspace"));
                    if next_errors.len() == 0 {
                        self.after_loop()
                    } else {
                        self.pending_errors = next_errors;
                        self.loop_head()
                    }
                }
            },
        }
    }

    /// The workspace was reset and the alternative's patch applied, or
    /// either step failed.
    pub fn on_alternative_ready(&mut self, ready: bool) -> (r: RepairAction)
        requires
            old(self).stage == Stage::AlternativeApplying,
            well_formed(old(self)@),
        ensures
            final(self)@ == alternative_ready_spec(old(self)@, ready).0,
            r@ == alternative_ready_spec(old(self)@, ready).1,
            well_formed(final(self)@),
            awaits(final(self)@.stage, r@),
    {
        if ready {
            self.stage = Stage::AlternativeVerifying;
            RepairAction::VerifyAlternative
        } else {
            let _n = self.alternatives.len();
            assert(candidates_view(self.alternatives@).len() == self.alternatives@.len());
            self.next_alternative = self.next_alternative + 1;
            self.next_alternative()
        }
    }

    /// The oracle ran for the alternative (`None`: it could not run).
    pub fn on_alternative_verified(&mut self, outcome: Option<VerificationResult>) -> (r: RepairAction)
        requires
            old(self).stage == Stage::AlternativeVerifying,
            well_formed(old(self)@),
        ensures
            final(self)@ == alternative_verified_spec(old(self)@, verdict_view(outcome)).0,
            r@ == alternative_verified_spec(old(self)@, verdict_view(outcome)).1,
            well_formed(final(self)@),
            awaits(final(self)@.stage, r@),
    {
        let _n = self.alternatives.len();
        assert(candidates_view(self.alternatives@).len() == self.alternatives@.len());
        let alternative = self.alternatives[self.next_alternative].clone();
        assert(candidates_view(self.alternatives@)[self.next_alternative as int] == alternative@);
        if let Some(result) = outcome {
            let passed = result.passed;
            self.report.final_verification = Some(result);
            if passed {
                let ghost a0 = attempts_view(self.report.attempted@);
                let ghost v0 = candidates_view(self.report.verified_alternatives@);
                self.report.attempted.push(
                    AttemptedCandidate { candidate: alternative.clone(), verified: true, rejected_reason: None },
                );
                self.report.verified_alternatives.push(alternative);
                assert(attempts_view(self.report.attempted@) =~= a0.push(
                    AttemptView { candidate: alternative@, verified: true, rejected_reason: None },
                ));
                assert(candidates_view(self.report.verified_alternatives@) =~= v0.push(alternative@));
            }
        }
        self.next_alternative = self.next_alternative + 1;
        self.next_alternative()
    }
}

} // verus!
