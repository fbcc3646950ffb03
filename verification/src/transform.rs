//! Repair transformations. Each decides from the evidence in a
//! [`RepairContext`] (spans, labels, the shape of the message and the source
//! text), never from an error code, whether it applies and which candidates
//! it proposes.

use crate::analyzer::DiagnosticAnalysis;
use crate::diagnostics::{opt_view, Applicability, CompilerSuggestion, ErrorView, ParsedError, SpanView, SuggestionView};
use crate::lines::{char_index_at_byte, char_pos, is_boundary, lemma_char_pos, lines_spec, split_lines, string_views};
use crate::patch::{col_index, edits_view, Edit, EditView, Patch};
use crate::repair::{
    applicability_confidence, candidates_view, confidence_rank, edit_for, patch_signature,
    push_replace_note, replace_note, signature, CandidateView, Confidence, RepairCandidate,
    RepairKind,
};
use crate::repair_context::{
    backticked, context_span, extract_backticked_identifier, from_source_view, ident_chars,
    token_at, BindingView, CtxView, LocatedSpan, LocatedView, MovedView, RepairContext,
};
use crate::order::str_views;
use crate::text::{
    byte_len, byte_offset, char_count, contains_spec, contains_str, dec, ends_with_spec,
    ends_with_str, find_spec, find_str, push_dec, slice, slice_from, starts_with_spec,
    starts_with_str, str_eq, trim_spec, trim_start_spec, trim_start_str, trim_str,
};
use crate::unicode::{alphanumeric, is_alphanumeric, lowercase, to_lowercase};
use vstd::prelude::*;
use vstd::string::StringExecFns;

verus! {

/// A reusable repair transformation.
pub trait Transform {
    /// The stable name of the transformation.
    fn name(&self) -> &'static str;

    /// Does the evidence in `ctx` call for this transformation?
    fn applicable(&self, ctx: &RepairContext<'_>) -> bool;

    /// The candidates this transformation proposes for `ctx`.
    fn generate(&self, ctx: &RepairContext<'_>) -> Vec<RepairCandidate>;
}

/// A candidate with no anchors and no label on its edit but the given one.
pub open spec fn single_edit(
    file: Seq<char>,
    line: u32,
    col: u32,
    replacement: Seq<char>,
    label: Seq<char>,
) -> EditView {
    EditView {
        file,
        line,
        start_col: col,
        end_col: col,
        replacement,
        label: Some(label),
        anchor: None,
    }
}

fn make_edit(file: String, line: u32, col: u32, replacement: &str, label: String) -> (e: Edit)
    ensures
        e@ == single_edit(file@, line, col, replacement@, label@),
{
    Edit {
        file,
        line,
        start_col: col,
        end_col: col,
        replacement: String::from_str(replacement),
        label: Some(label),
        anchor: None,
    }
}

/// `a`, `` ` ``, `b`, `` ` ``, `c` run together.
pub open spec fn quoted(a: Seq<char>, b: Seq<char>, c: Seq<char>) -> Seq<char> {
    a + "`"@ + b + "`"@ + c
}

fn push_quoted(out: &mut String, a: &str, b: &str, c: &str)
    ensures
        final(out)@ == old(out)@ + quoted(a@, b@, c@),
{
    out.append(a);
    out.append("`");
    out.append(b);
    out.append("`");
    out.append(c);
    assert(final(out)@ =~= old(out)@ + quoted(a@, b@, c@));
}

/// `<file>:<line>`.
pub open spec fn at(file: Seq<char>, line: u32) -> Seq<char> {
    file + ":"@ + dec(line as nat)
}

fn push_at(out: &mut String, file: &str, line: u32)
    ensures
        final(out)@ == old(out)@ + at(file@, line),
{
    out.append(file);
    out.append(":");
    push_dec(out, line as u64);
    assert(final(out)@ =~= old(out)@ + at(file@, line));
}

// ---------------------------------------------------------------------------
// 1. Compiler suggestions
// ---------------------------------------------------------------------------

/// The edit a suggestion asks for.
pub open spec fn suggested_edit(s: SuggestionView) -> EditView {
    EditView {
        file: s.file,
        line: s.line,
        start_col: s.column,
        end_col: s.column_end,
        replacement: s.replacement,
        label: s.label,
        anchor: None,
    }
}

/// The note of a suggestion: its label, or else its applicability.
pub open spec fn suggestion_note(s: SuggestionView) -> Seq<char> {
    match s.label {
        Some(l) => l,
        None => "Applicability: "@ + s.applicability,
    }
}

/// For each suggestion, its note and its `Replace ...` line.
pub open spec fn suggestions_evidence(s: Seq<SuggestionView>) -> Seq<Seq<char>>
    decreases s.len(),
{
    if s.len() == 0 {
        Seq::empty()
    } else {
        suggestions_evidence(s.drop_last()).push(suggestion_note(s.last())).push(
            replace_note(s.last()),
        )
    }
}

/// The worst (largest) confidence rank among the suggestions; 0 for none.
pub open spec fn worst_rank(s: Seq<SuggestionView>) -> int
    decreases s.len(),
{
    if s.len() == 0 {
        0
    } else {
        let r = confidence_rank(applicability_confidence(s.last().applicability));
        let w = worst_rank(s.drop_last());
        if r > w {
            r
        } else {
            w
        }
    }
}

/// The confidence of a rank.
pub open spec fn confidence_of_rank(r: int) -> Confidence {
    if r == 0 {
        Confidence::High
    } else if r == 1 {
        Confidence::Medium
    } else {
        Confidence::Low
    }
}

/// `Apply <n> compiler-suggested change(s) at <file>:<line>.`
pub open spec fn suggestions_description(s: Seq<SuggestionView>) -> Seq<char> {
    "Apply "@ + dec(s.len()) + " compiler-suggested change"@ + (if s.len() == 1 {
        Seq::<char>::empty()
    } else {
        "s"@
    }) + " at "@ + at(s[0].file, s[0].line) + "."@
}

/// One candidate holding every suggestion of the diagnostic, so that
/// coordinated edits apply together; its confidence is the least confident
/// applicability among them: low if any is `MaybeIncorrect`, else medium if
/// any is not `MachineApplicable`, else high.
pub open spec fn suggestions_output(e: ErrorView) -> Seq<CandidateView> {
    let s = e.suggestions;
    if s.len() == 0 {
        Seq::empty()
    } else {
        Seq::empty().push(
            CandidateView {
                kind: RepairKind::CompilerSuggested,
                confidence: confidence_of_rank(worst_rank(s)),
                description: suggestions_description(s),
                evidence: suggestions_evidence(s),
                edits: s.map_values(|x: SuggestionView| suggested_edit(x)),
            },
        )
    }
}

/// Applies the replacements rustc proposed.
pub struct CompilerSuggestionTransform;

impl Transform for CompilerSuggestionTransform {
    fn name(&self) -> (r: &'static str)
        ensures
            r@ == "compiler_suggestion"@,
    {
        "compiler_suggestion"
    }

    fn applicable(&self, ctx: &RepairContext<'_>) -> (r: bool)
        ensures
            r == (ctx@.error.suggestions.len() > 0),
    {
        ctx.error.suggestions.len() > 0
    }

    fn generate(&self, ctx: &RepairContext<'_>) -> (r: Vec<RepairCandidate>)
        ensures
            candidates_view(r@) == suggestions_output(ctx@.error),
    {
        let sugs = &ctx.error.suggestions;
        let ghost sv = ctx@.error.suggestions;
        if sugs.len() == 0 {
            let r: Vec<RepairCandidate> = Vec::new();
            assert(candidates_view(r@) =~= Seq::<CandidateView>::empty());
            return r;
        }
        let mut edits: Vec<Edit> = Vec::new();
        let mut evidence: Vec<String> = Vec::new();
        let mut worst: u8 = 0;
        let mut i: usize = 0;
        while i < sugs.len()
            invariant
                i <= sugs.len(),
                sv == ctx@.error.suggestions,
                sv.len() == sugs@.len(),
                sugs == ctx.error.suggestions,
                edits_view(edits@) == sv.take(i as int).map_values(
                    |x: SuggestionView| suggested_edit(x),
                ),
                str_views(evidence@) == suggestions_evidence(sv.take(i as int)),
                worst as int == worst_rank(sv.take(i as int)),
            decreases sugs.len() - i,
        {
            let s = &sugs[i];
            assert(sv[i as int] == s@);
            assert(sv.take(i + 1).drop_last() =~= sv.take(i as int));
            assert(sv.take(i + 1).last() == s@);
            let ghost e0 = edits_view(edits@);
            edits.push(edit_for(s));
            assert(edits_view(edits@) =~= e0.push(suggested_edit(s@)));
            assert(sv.take(i + 1).map_values(|x: SuggestionView| suggested_edit(x)) =~= sv.take(
                i as int,
            ).map_values(|x: SuggestionView| suggested_edit(x)).push(suggested_edit(s@)));
            let note = match &s.label {
                Some(l) => l.clone(),
                None => {
                    let mut t = String::from_str("Applicability: ");
                    t.append(s.applicability.as_str());
                    t
                },
            };
            let mut replace = String::new();
            push_replace_note(&mut replace, s);
            let ghost v0 = str_views(evidence@);
            evidence.push(note);
            evidence.push(replace);
            assert(str_views(evidence@) =~= v0.push(suggestion_note(s@)).push(replace_note(s@)));
            let rank: u8 = match s.applicability_enum() {
                Some(Applicability::MachineApplicable) => 0,
                Some(Applicability::MaybeIncorrect) => 2,
                _ => 1,
            };
            if rank > worst {
                worst = rank;
            }
            i = i + 1;
        }
        assert(sv.take(sugs.len() as int) =~= sv);
        let confidence = if worst == 0 {
            Confidence::High
        } else if worst == 1 {
            Confidence::Medium
        } else {
            Confidence::Low
        };
        let n = sugs.len();
        let mut description = String::from_str("Apply ");
        push_dec(&mut description, n as u64);
        description.append(" compiler-suggested change");
        if n != 1 {
            description.append("s");
        }
        description.append(" at ");
        push_at(&mut description, sugs[0].file.as_str(), sugs[0].line);
        description.append(".");
        proof {
            assert(sv[0] == sugs@[0]@);
            if n == 1 {
                assert(description@ =~= suggestions_description(sv));
            } else {
                assert(description@ =~= suggestions_description(sv));
            }
        }
        let c = RepairCandidate {
            kind: RepairKind::CompilerSuggested,
            confidence,
            description,
            evidence,
            patch: Patch::new(edits),
        };
        let r = vec![c];
        assert(candidates_view(r@) =~= suggestions_output(ctx@.error));
        r
    }
}

// ---------------------------------------------------------------------------
// 2. Mutability
// ---------------------------------------------------------------------------

/// A message that reports mutation of an immutable binding.
pub open spec fn message_mutates(msg: Seq<char>) -> bool {
    ||| contains_spec(msg, "cannot assign"@)
    ||| contains_spec(msg, "immutable variable"@)
    ||| (contains_spec(msg, "cannot borrow"@) && contains_spec(msg, "mutable"@))
}

/// A lowered label that reports mutation of an immutable binding.
pub open spec fn label_mutates(low: Seq<char>) -> bool {
    ||| contains_spec(low, "cannot assign"@)
    ||| contains_spec(low, "assignment to"@)
    ||| contains_spec(low, "immutable variable"@)
    ||| (contains_spec(low, "cannot borrow"@) && contains_spec(low, "mutable"@))
}

/// Does a lowercased label report mutation of an immutable binding?
pub fn mentions_mutation(lowered: &str) -> (r: bool)
    ensures
        r == label_mutates(lowered@),
{
    contains_str(lowered, "cannot assign") || contains_str(lowered, "assignment to")
        || contains_str(lowered, "immutable variable") || (contains_str(lowered, "cannot borrow")
        && contains_str(lowered, "mutable"))
}

/// The longest prefix of `s` made of alphanumeric characters and `_`.
pub open spec fn ident_prefix(s: Seq<char>) -> Seq<char>
    decreases s.len(),
{
    if s.len() > 0 && (alphanumeric(s[0]) || s[0] == '_') {
        seq![s[0]] + ident_prefix(s.drop_first())
    } else {
        Seq::empty()
    }
}

/// The identifier that follows `variable ` in a label, given the label
/// lowercased. The position is found in the lowercased label and taken over,
/// as a byte offset, to the label itself; where it is no character boundary
/// there, there is none.
pub open spec fn bare_identifier_in(label: Seq<char>, low: Seq<char>) -> Option<Seq<char>> {
    match find_spec(low, "variable "@) {
        None => None,
        Some(k) => {
            let b = byte_len(low.take(k + 9)) as int;
            if is_boundary(label, b) {
                let p = ident_prefix(label.skip(char_pos(label, b)));
                if p.len() > 0 {
                    Some(p)
                } else {
                    None
                }
            } else {
                None
            }
        },
    }
}

/// The identifier that follows `variable ` in a label.
pub open spec fn bare_identifier(label: Seq<char>) -> Option<Seq<char>> {
    bare_identifier_in(label, lowercase(label))
}

fn ident_prefix_of(s: &str) -> (r: String)
    ensures
        r@ == ident_prefix(s@),
{
    let n = char_count(s);
    let mut i: usize = 0;
    assert(s@.skip(0) =~= s@);
    assert(s@.take(0) =~= Seq::<char>::empty());
    assert(s@.take(0) + ident_prefix(s@.skip(0)) =~= ident_prefix(s@));
    while i < n && (is_alphanumeric(s.get_char(i)) || s.get_char(i) == '_')
        invariant
            n == s@.len(),
            i <= n,
            ident_prefix(s@) == s@.take(i as int) + ident_prefix(s@.skip(i as int)),
        decreases n - i,
    {
        assert(s@.skip(i as int).drop_first() =~= s@.skip(i + 1));
        assert(s@.skip(i as int)[0] == s@[i as int]);
        assert(s@.take(i + 1) =~= s@.take(i as int) + seq![s@[i as int]]);
        assert(s@.take(i as int) + (seq![s@[i as int]] + ident_prefix(s@.skip(i + 1))) =~= s@.take(
            i + 1,
        ) + ident_prefix(s@.skip(i + 1)));
        i = i + 1;
    }
    assert(ident_prefix(s@.skip(i as int)) == Seq::<char>::empty());
    assert(s@.subrange(0, i as int) =~= s@.take(i as int));
    String::from_str(slice(s, 0, i))
}

/// The identifier after `variable ` in a label.
pub fn extract_bare_identifier(label: &str) -> (r: Option<String>)
    ensures
        opt_view(r) == bare_identifier(label@),
{
    let lower = to_lowercase(label);
    bare_identifier_after(label, lower.as_str())
}

/// The identifier after `variable ` in a label, given the label lowercased.
pub fn bare_identifier_after(label: &str, low: &str) -> (r: Option<String>)
    ensures
        opt_view(r) == bare_identifier_in(label@, low@),
{
    let _n = char_count(low);
    proof {
        reveal_strlit("variable ");
    }
    let k = match find_str(low, "variable ") {
        Some(k) => k,
        None => return None,
    };
    crate::text::byte_len_fits(low);
    let b = byte_offset(low, k + 9);
    let j = match char_index_at_byte(label, b) {
        Some(j) => j,
        None => return None,
    };
    proof {
        lemma_char_pos(label@, j as int);
    }
    let p = ident_prefix_of(slice_from(label, j));
    if char_count(p.as_str()) == 0 {
        None
    } else {
        Some(p)
    }
}

/// The first span, from the front, whose lowered label reports mutation and
/// names the binding (in backticks, or after `variable `).
pub open spec fn label_target(spans: Seq<SpanView>) -> Option<Seq<char>>
    decreases spans.len(),
{
    if spans.len() == 0 {
        None
    } else {
        match spans[0].label {
            Some(l) => if label_mutates(lowercase(l)) {
                match backticked(l) {
                    Some(n) => Some(n),
                    None => match bare_identifier(l) {
                        Some(n) => Some(n),
                        None => label_target(spans.drop_first()),
                    },
                }
            } else {
                label_target(spans.drop_first())
            },
            None => label_target(spans.drop_first()),
        }
    }
}

/// The binding a diagnostic reports as mutated: named in backticks by a
/// message that reports mutation, or else by a label.
pub open spec fn mutation_target_of(e: ErrorView) -> Option<Seq<char>> {
    if message_mutates(e.raw_message) && backticked(e.raw_message) is Some {
        backticked(e.raw_message)
    } else {
        label_target(e.spans)
    }
}

fn mutation_target(ctx: &RepairContext<'_>) -> (r: Option<String>)
    ensures
        opt_view(r) == mutation_target_of(ctx@.error),
{
    let msg = ctx.error.raw_message.as_str();
    let looks = contains_str(msg, "cannot assign") || contains_str(msg, "immutable variable") || (
    contains_str(msg, "cannot borrow") && contains_str(msg, "mutable"));
    if looks {
        if let Some(name) = extract_backticked_identifier(msg) {
            return Some(name);
        }
    }
    let ghost sv = ctx@.error.spans;
    let mut i: usize = 0;
    assert(sv.skip(0) =~= sv);
    while i < ctx.error.spans.len()
        invariant
            i <= ctx.error.spans.len(),
            sv == ctx@.error.spans,
            sv.len() == ctx.error.spans@.len(),
            label_target(sv) == label_target(sv.skip(i as int)),
            !(message_mutates(ctx@.error.raw_message) && backticked(ctx@.error.raw_message) is Some),
        decreases ctx.error.spans.len() - i,
    {
        let span = &ctx.error.spans[i];
        assert(sv.skip(i as int).drop_first() =~= sv.skip(i + 1));
        assert(sv.skip(i as int)[0] == span@);
        if let Some(label) = &span.label {
            let low = to_lowercase(label.as_str());
            if mentions_mutation(low.as_str()) {
                if let Some(name) = extract_backticked_identifier(label.as_str()) {
                    return Some(name);
                }
                if let Some(name) = extract_bare_identifier(label.as_str()) {
                    return Some(name);
                }
            }
        }
        i = i + 1;
    }
    assert(sv.skip(sv.len() as int) =~= Seq::<SpanView>::empty());
    None
}

/// A compiler suggestion that already changes the binding's line to add
/// `mut`.
pub open spec fn has_mut_suggestion(s: Seq<SuggestionView>, b: BindingView) -> bool {
    exists|i: int|
        0 <= i < s.len() && (#[trigger] s[i]).file == b.file && s[i].line == b.line && contains_spec(
            s[i].replacement,
            "mut"@,
        )
}

fn has_compiler_mutability_suggestion(ctx: &RepairContext<'_>, binding: &crate::repair_context::Binding) -> (r: bool)
    ensures
        r == has_mut_suggestion(ctx@.error.suggestions, binding@),
{
    let ghost sv = ctx@.error.suggestions;
    let mut i: usize = 0;
    while i < ctx.error.suggestions.len()
        invariant
            i <= ctx.error.suggestions.len(),
            sv == ctx@.error.suggestions,
            sv.len() == ctx.error.suggestions@.len(),
            forall|j: int|
                0 <= j < i ==> !((#[trigger] sv[j]).file == binding@.file && sv[j].line
                    == binding@.line && contains_spec(sv[j].replacement, "mut"@)),
        decreases ctx.error.suggestions.len() - i,
    {
        let s = &ctx.error.suggestions[i];
        assert(sv[i as int] == s@);
        if str_eq(s.file.as_str(), binding.file.as_str()) && s.line == binding.line && contains_str(
            s.replacement.as_str(),
            "mut",
        ) {
            return true;
        }
        i = i + 1;
    }
    false
}

/// The mutated binding, the span that reports it and its declaration, when
/// the declaration lacks `mut`.
pub open spec fn mutation_plan(c: CtxView) -> Option<(Seq<char>, SpanView, BindingView)> {
    match mutation_target_of(c.error) {
        None => None,
        Some(t) => match context_span(c.error.spans) {
            None => None,
            Some(p) => match c.binding_spec(t, p.line_start) {
                None => None,
                Some(b) => if b.is_mut {
                    None
                } else {
                    Some((t, p, b))
                },
            },
        },
    }
}

/// The candidate that inserts `mut ` into the declaration of `t`.
pub open spec fn mutability_candidate(t: Seq<char>, p: SpanView, b: BindingView) -> CandidateView {
    CandidateView {
        kind: RepairKind::Mutability,
        confidence: Confidence::Medium,
        description: quoted("Declare "@, t, " as mutable."@),
        evidence: Seq::empty().push(
            quoted("The compiler reports mutation of "@, t, " at "@) + at(b.file, p.line_start),
        ).push(
            quoted(""@, t, " is declared with `let` at "@) + at(b.file, b.line) + " and lacks `mut`"@,
        ).push("Insert `mut ` into the binding declaration"@),
        edits: Seq::empty().push(
            single_edit(
                b.file,
                b.line,
                b.mut_insert_column,
                "mut "@,
                quoted("make "@, t, " mutable"@),
            ),
        ),
    }
}

/// What the mutability transformation proposes.
pub open spec fn mutability_output(c: CtxView) -> Seq<CandidateView> {
    match mutation_plan(c) {
        None => Seq::empty(),
        Some(x) => Seq::empty().push(mutability_candidate(x.0, x.1, x.2)),
    }
}

/// Adds `mut` to a binding that the compiler reports as mutated; silent
/// where the compiler already proposes that change.
pub struct MutabilityTransform;

impl MutabilityTransform {
    fn plan(ctx: &RepairContext<'_>) -> (r: Option<(String, u32, crate::repair_context::Binding)>)
        ensures
            match mutation_plan(ctx@) {
                None => r is None,
                Some(x) => r matches Some(y) && y.0@ == x.0 && y.1 == x.1.line_start && y.2@ == x.2,
            },
    {
        let target = match mutation_target(ctx) {
            Some(t) => t,
            None => return None,
        };
        let primary = match ctx.primary_span() {
            Some(p) => p,
            None => return None,
        };
        let binding = match ctx.binding(target.as_str(), primary.line_start) {
            Some(b) => b,
            None => return None,
        };
        if binding.is_mut {
            return None;
        }
        Some((target, primary.line_start, binding))
    }
}

impl Transform for MutabilityTransform {
    fn name(&self) -> (r: &'static str)
        ensures
            r@ == "mutability"@,
    {
        "mutability"
    }

    fn applicable(&self, ctx: &RepairContext<'_>) -> (r: bool)
        ensures
            r == (match mutation_plan(ctx@) {
                Some(x) => !has_mut_suggestion(ctx@.error.suggestions, x.2),
                None => false,
            }),
    {
        match MutabilityTransform::plan(ctx) {
            None => false,
            Some((_, _, binding)) => !has_compiler_mutability_suggestion(ctx, &binding),
        }
    }

    fn generate(&self, ctx: &RepairContext<'_>) -> (r: Vec<RepairCandidate>)
        ensures
            candidates_view(r@) == mutability_output(ctx@),
    {
        let (target, line_start, binding) = match MutabilityTransform::plan(ctx) {
            Some(x) => x,
            None => {
                let r: Vec<RepairCandidate> = Vec::new();
                assert(candidates_view(r@) =~= Seq::<CandidateView>::empty());
                return r;
            },
        };
        let t = target.as_str();
        let mut description = String::new();
        push_quoted(&mut description, "Declare ", t, " as mutable.");
        let mut e1 = String::new();
        push_quoted(&mut e1, "The compiler reports mutation of ", t, " at ");
        push_at(&mut e1, binding.file.as_str(), line_start);
        let mut e2 = String::new();
        push_quoted(&mut e2, "", t, " is declared with `let` at ");
        push_at(&mut e2, binding.file.as_str(), binding.line);
        e2.append(" and lacks `mut`");
        let e3 = String::from_str("Insert `mut ` into the binding declaration");
        let mut label = String::new();
        push_quoted(&mut label, "make ", t, " mutable");
        let edit = make_edit(binding.file.clone(), binding.line, binding.mut_insert_column, "mut ", label);
        let evidence = vec![e1, e2, e3];
        let edits = vec![edit];
        let c = RepairCandidate {
            kind: RepairKind::Mutability,
            confidence: Confidence::Medium,
            description,
            evidence,
            patch: Patch::new(edits),
        };
        proof {
            let x = mutation_plan(ctx@).unwrap();
            assert(c@.evidence =~= mutability_candidate(x.0, x.1, x.2).evidence);
            assert(c@.edits =~= mutability_candidate(x.0, x.1, x.2).edits);
        }
        let r = vec![c];
        assert(candidates_view(r@) =~= mutability_output(ctx@));
        r
    }
}

// ---------------------------------------------------------------------------
// 3 and 4. Borrowing and cloning a moved value
// ---------------------------------------------------------------------------

/// The columns of `var` on the line of a move site: the file, the line, the
/// 1-based column of its first character and the column just after it.
/// Lines of `u32::MAX` characters or more give none.
pub open spec fn var_cols(c: CtxView, var: Seq<char>, site: LocatedView) -> Option<(Seq<char>, u32, u32, u32)> {
    match c.line_of(site.file, site.line) {
        None => None,
        Some(line) => match token_at(line, var) {
            None => None,
            Some(k) => if line.len() < u32::MAX {
                Some((site.file, site.line, (k + 1) as u32, (k + var.len() + 1) as u32))
            } else {
                None
            },
        },
    }
}

fn var_columns(ctx: &RepairContext<'_>, var: &str, site: &LocatedSpan) -> (r: Option<(String, u32, u32, u32)>)
    ensures
        match var_cols(ctx@, var@, site@) {
            None => r is None,
            Some(x) => r matches Some(y) && y.0@ == x.0 && y.1 == x.1 && y.2 == x.2 && y.3 == x.3,
        },
{
    let line = match ctx.line(site.file.as_str(), site.line) {
        Some(l) => l,
        None => return None,
    };
    let text = line.as_str();
    let n = char_count(text);
    let k = match crate::repair_context::find_token(text, var) {
        Some(k) => k,
        None => return None,
    };
    if n >= 0xFFFF_FFFFusize {
        return None;
    }
    let m = char_count(var);
    Some((site.file.clone(), site.line, (k + 1) as u32, (k + m + 1) as u32))
}

/// The evidence line about the later use.
pub open spec fn use_note(m: MovedView) -> Seq<char> {
    match m.use_after_move {
        Some(u) => quoted(""@, m.name, " is used again later at "@) + at(u.file, u.line),
        None => "the value is used again after the move"@,
    }
}

fn push_use_note(out: &mut Vec<String>, moved: &crate::repair_context::MovedVar)
    ensures
        str_views(final(out)@) == str_views(old(out)@).push(use_note(moved@)),
{
    let ghost v0 = str_views(out@);
    let s = match &moved.use_after_move {
        Some(u) => {
            let mut s = String::new();
            push_quoted(&mut s, "", moved.name.as_str(), " is used again later at ");
            push_at(&mut s, u.file.as_str(), u.line);
            s
        },
        None => String::from_str("the value is used again after the move"),
    };
    out.push(s);
    assert(str_views(out@) =~= v0.push(use_note(moved@)));
}

/// The move evidence the borrow and clone transformations need: a moved
/// value, its move site and the columns of the value there.
pub open spec fn move_plan(c: CtxView) -> Option<(MovedView, (Seq<char>, u32, u32, u32))> {
    match c.moved_var_spec() {
        None => None,
        Some(m) => match m.move_site {
            None => None,
            Some(site) => match var_cols(c, m.name, site) {
                None => None,
                Some(cols) => Some((m, cols)),
            },
        },
    }
}

/// The line of the move site and the position of the moved value on it,
/// when the value was used after the move.
pub open spec fn move_line(c: CtxView) -> Option<(MovedView, LocatedView, Seq<char>)> {
    match c.moved_var_spec() {
        None => None,
        Some(m) => if m.use_after_move is Some {
            match m.move_site {
                None => None,
                Some(site) => match c.line_of(site.file, site.line) {
                    None => None,
                    Some(line) => Some((m, site, line)),
                },
            }
        } else {
            None
        },
    }
}

/// The moved value stands at `k` of `line` right after `&`.
pub open spec fn borrowed_at(line: Seq<char>, k: int) -> bool {
    k > 0 && ends_with_spec(line.take(k), "&"@)
}

/// What follows the moved value at `k` of `line`, without leading spaces.
pub open spec fn after_value(line: Seq<char>, name: Seq<char>, k: int) -> Seq<char> {
    trim_start_spec(line.skip(k + name.len()))
}

/// Borrowing applies when the value, used after the move, is a bare call
/// argument at the move site: not already borrowed, not cloned.
pub open spec fn borrow_applies(c: CtxView) -> bool {
    match move_line(c) {
        None => false,
        Some(x) => match token_at(x.2, x.0.name) {
            None => false,
            Some(k) => !borrowed_at(x.2, k) && !starts_with_spec(
                after_value(x.2, x.0.name, k),
                ".clone()"@,
            ) && c.call_argument(x.0.name, x.1.file, x.1.line),
        },
    }
}

/// Cloning applies when the value, used after the move, is a bare call
/// argument at the move site: not cloned, not borrowed, not followed by a
/// borrowing call.
pub open spec fn clone_applies(c: CtxView) -> bool {
    match move_line(c) {
        None => false,
        Some(x) => match token_at(x.2, x.0.name) {
            Some(k) => !starts_with_spec(after_value(x.2, x.0.name, k), ".clone()"@)
                && !starts_with_spec(after_value(x.2, x.0.name, k), "(&"@) && !starts_with_spec(
                after_value(x.2, x.0.name, k),
                "(& "@,
            ) && !borrowed_at(x.2, k) && c.call_argument(x.0.name, x.1.file, x.1.line),
            None => c.call_argument(x.0.name, x.1.file, x.1.line),
        },
    }
}

/// The candidate that borrows the moved value at its move site.
pub open spec fn borrow_candidate(m: MovedView, cols: (Seq<char>, u32, u32, u32)) -> CandidateView {
    CandidateView {
        kind: RepairKind::Borrow,
        confidence: Confidence::Medium,
        description: quoted("Borrow "@, m.name, " instead of moving it."@),
        evidence: Seq::empty().push(quoted(""@, m.name, " is moved at "@) + at(cols.0, cols.1)).push(
            use_note(m),
        ).push(quoted("Insert `&` before "@, m.name, " at "@) + at(cols.0, cols.1)).push(
            "Requires the called function to accept a reference"@,
        ),
        edits: Seq::empty().push(
            single_edit(
                cols.0,
                cols.1,
                cols.2,
                "&"@,
                quoted("borrow "@, m.name, " instead of move"@),
            ),
        ),
    }
}

/// The candidate that clones the moved value at its move site.
pub open spec fn clone_candidate(m: MovedView, cols: (Seq<char>, u32, u32, u32)) -> CandidateView {
    CandidateView {
        kind: RepairKind::Clone,
        confidence: Confidence::Medium,
        description: quoted("Clone "@, m.name, " to avoid moving it."@),
        evidence: Seq::empty().push(quoted(""@, m.name, " is moved at "@) + at(cols.0, cols.1)).push(
            use_note(m),
        ).push("Insert `.clone()` at "@ + at(cols.0, cols.1) + " column "@ + dec(cols.3 as nat)).push(
            "Requires the value's type to implement `Clone`"@,
        ),
        edits: Seq::empty().push(
            single_edit(
                cols.0,
                cols.1,
                cols.3,
                ".clone()"@,
                quoted("clone "@, m.name, " to avoid move"@),
            ),
        ),
    }
}

/// What the borrow transformation proposes.
pub open spec fn borrow_output(c: CtxView) -> Seq<CandidateView> {
    match move_plan(c) {
        None => Seq::empty(),
        Some(x) => Seq::empty().push(borrow_candidate(x.0, x.1)),
    }
}

/// What the clone transformation proposes.
pub open spec fn clone_output(c: CtxView) -> Seq<CandidateView> {
    match move_plan(c) {
        None => Seq::empty(),
        Some(x) => Seq::empty().push(clone_candidate(x.0, x.1)),
    }
}

/// The moved value, its move site and that line, when used after the move.
fn find_move_line(ctx: &RepairContext<'_>) -> (r: Option<(crate::repair_context::MovedVar, String)>)
    ensures
        match move_line(ctx@) {
            None => r is None,
            Some(x) => r matches Some(y) && y.0@ == x.0 && y.1@ == x.2,
        },
{
    let moved = match ctx.moved_var() {
        Some(m) => m,
        None => return None,
    };
    if moved.use_after_move.is_none() {
        return None;
    }
    let line = match &moved.move_site {
        None => return None,
        Some(site) => match ctx.line(site.file.as_str(), site.line) {
            None => return None,
            Some(l) => l,
        },
    };
    Some((moved, line))
}

/// The moved value and the columns of its move site.
fn find_move_plan(ctx: &RepairContext<'_>) -> (r: Option<(crate::repair_context::MovedVar, (String, u32, u32, u32))>)
    ensures
        match move_plan(ctx@) {
            None => r is None,
            Some(x) => r matches Some(y) && y.0@ == x.0 && y.1.0@ == x.1.0 && y.1.1 == x.1.1
                && y.1.2 == x.1.2 && y.1.3 == x.1.3,
        },
{
    let moved = match ctx.moved_var() {
        Some(m) => m,
        None => return None,
    };
    let cols = match &moved.move_site {
        None => return None,
        Some(site) => match var_columns(ctx, moved.name.as_str(), site) {
            None => return None,
            Some(c) => c,
        },
    };
    Some((moved, cols))
}

/// Borrows a moved value at a call argument instead of moving it.
pub struct BorrowTransform;

impl Transform for BorrowTransform {
    fn name(&self) -> (r: &'static str)
        ensures
            r@ == "borrow"@,
    {
        "borrow"
    }

    fn applicable(&self, ctx: &RepairContext<'_>) -> (r: bool)
        ensures
            r == borrow_applies(ctx@),
    {
        let (moved, line) = match find_move_line(ctx) {
            Some(x) => x,
            None => return false,
        };
        let text = line.as_str();
        let name = moved.name.as_str();
        let _n = char_count(text);
        let k = match crate::repair_context::find_token(text, name) {
            Some(k) => k,
            None => return false,
        };
        assert(text@.subrange(0, k as int) =~= text@.take(k as int));
        if k > 0 && ends_with_str(slice(text, 0, k), "&") {
            return false;
        }
        let after = trim_start_str(slice_from(text, k + char_count(name)));
        if starts_with_str(after, ".clone()") {
            return false;
        }
        match &moved.move_site {
            Some(site) => ctx.is_call_argument(name, site.file.as_str(), site.line),
            None => false,
        }
    }

    fn generate(&self, ctx: &RepairContext<'_>) -> (r: Vec<RepairCandidate>)
        ensures
            candidates_view(r@) == borrow_output(ctx@),
    {
        let (moved, (file, line, col, _col_end)) = match find_move_plan(ctx) {
            Some(x) => x,
            None => {
                let r: Vec<RepairCandidate> = Vec::new();
                assert(candidates_view(r@) =~= Seq::<CandidateView>::empty());
                return r;
            },
        };
        let name = moved.name.as_str();
        let mut description = String::new();
        push_quoted(&mut description, "Borrow ", name, " instead of moving it.");
        let mut evidence: Vec<String> = Vec::new();
        let mut e1 = String::new();
        push_quoted(&mut e1, "", name, " is moved at ");
        push_at(&mut e1, file.as_str(), line);
        let ghost g1 = e1@;
        evidence.push(e1);
        assert(str_views(evidence@) =~= seq![g1]);
        push_use_note(&mut evidence, &moved);
        assert(str_views(evidence@) =~= seq![g1, use_note(moved@)]);
        let mut e3 = String::new();
        push_quoted(&mut e3, "Insert `&` before ", name, " at ");
        push_at(&mut e3, file.as_str(), line);
        let ghost g3 = e3@;
        evidence.push(e3);
        evidence.push(String::from_str("Requires the called function to accept a reference"));
        assert(str_views(evidence@) =~= seq![g1, use_note(moved@), g3, "Requires the called function to accept a reference"@]);
        let mut label = String::new();
        push_quoted(&mut label, "borrow ", name, " instead of move");
        let edit = make_edit(file, line, col, "&", label);
        let edits = vec![edit];
        let c = RepairCandidate {
            kind: RepairKind::Borrow,
            confidence: Confidence::Medium,
            description,
            evidence,
            patch: Patch::new(edits),
        };
        proof {
            let x = move_plan(ctx@).unwrap();
            assert(c@.evidence =~= borrow_candidate(x.0, x.1).evidence);
            assert(c@.edits =~= borrow_candidate(x.0, x.1).edits);
        }
        let r = vec![c];
        assert(candidates_view(r@) =~= borrow_output(ctx@));
        r
    }
}

/// Clones a moved value at a call argument so that it stays usable.
pub struct CloneTransform;

impl Transform for CloneTransform {
    fn name(&self) -> (r: &'static str)
        ensures
            r@ == "clone"@,
    {
        "clone"
    }

    fn applicable(&self, ctx: &RepairContext<'_>) -> (r: bool)
        ensures
            r == clone_applies(ctx@),
    {
        let (moved, line) = match find_move_line(ctx) {
            Some(x) => x,
            None => return false,
        };
        let text = line.as_str();
        let name = moved.name.as_str();
        let _n = char_count(text);
        if let Some(k) = crate::repair_context::find_token(text, name) {
            let after = trim_start_str(slice_from(text, k + char_count(name)));
            if starts_with_str(after, ".clone()") {
                return false;
            }
            if starts_with_str(after, "(&") || starts_with_str(after, "(& ") {
                return false;
            }
            assert(text@.subrange(0, k as int) =~= text@.take(k as int));
            if k > 0 && ends_with_str(slice(text, 0, k), "&") {
                return false;
            }
        }
        match &moved.move_site {
            Some(site) => ctx.is_call_argument(name, site.file.as_str(), site.line),
            None => false,
        }
    }

    fn generate(&self, ctx: &RepairContext<'_>) -> (r: Vec<RepairCandidate>)
        ensures
            candidates_view(r@) == clone_output(ctx@),
    {
        let (moved, (file, line, _col, col_end)) = match find_move_plan(ctx) {
            Some(x) => x,
            None => {
                let r: Vec<RepairCandidate> = Vec::new();
                assert(candidates_view(r@) =~= Seq::<CandidateView>::empty());
                return r;
            },
        };
        let name = moved.name.as_str();
        let mut description = String::new();
        push_quoted(&mut description, "Clone ", name, " to avoid moving it.");
        let mut evidence: Vec<String> = Vec::new();
        let mut e1 = String::new();
        push_quoted(&mut e1, "", name, " is moved at ");
        push_at(&mut e1, file.as_str(), line);
        let ghost g1 = e1@;
        evidence.push(e1);
        assert(str_views(evidence@) =~= seq![g1]);
        push_use_note(&mut evidence, &moved);
        assert(str_views(evidence@) =~= seq![g1, use_note(moved@)]);
        let mut e3 = String::from_str("Insert `.clone()` at ");
        push_at(&mut e3, file.as_str(), line);
        e3.append(" column ");
        push_dec(&mut e3, col_end as u64);
        let ghost g3 = e3@;
        evidence.push(e3);
        evidence.push(String::from_str("Requires the value's type to implement `Clone`"));
        assert(str_views(evidence@) =~= seq![g1, use_note(moved@), g3, "Requires the value's type to implement `Clone`"@]);
        let mut label = String::new();
        push_quoted(&mut label, "clone ", name, " to avoid move");
        let edit = make_edit(file, line, col_end, ".clone()", label);
        let edits = vec![edit];
        let c = RepairCandidate {
            kind: RepairKind::Clone,
            confidence: Confidence::Medium,
            description,
            evidence,
            patch: Patch::new(edits),
        };
        proof {
            let x = move_plan(ctx@).unwrap();
            assert(c@.evidence =~= clone_candidate(x.0, x.1).evidence);
            assert(c@.edits =~= clone_candidate(x.0, x.1).edits);
        }
        let r = vec![c];
        assert(candidates_view(r@) =~= clone_output(ctx@));
        r
    }
}


// ---------------------------------------------------------------------------
// Running every transformation
// ---------------------------------------------------------------------------

/// An edit stamped with the trimmed source line it was made against, unless
/// it has an anchor already or its line does not exist.
pub open spec fn stamp_edit(e: EditView, lines: Seq<Seq<char>>) -> EditView {
    if e.anchor is None && col_index(e.line) < lines.len() {
        EditView { anchor: Some(trim_spec(lines[col_index(e.line)])), ..e }
    } else {
        e
    }
}

/// A generated candidate as it is handed on: its edits stamped against the
/// source text and the transformation named first in its evidence.
pub open spec fn finish(c: CandidateView, name: Seq<char>, text: Seq<char>) -> CandidateView {
    CandidateView {
        evidence: Seq::empty().push("Transformation: "@ + name) + c.evidence,
        edits: c.edits.map_values(|e: EditView| stamp_edit(e, lines_spec(text))),
        ..c
    }
}

/// [`finish`] on each candidate.
pub open spec fn finish_all(cs: Seq<CandidateView>, name: Seq<char>, text: Seq<char>) -> Seq<CandidateView> {
    cs.map_values(|c: CandidateView| finish(c, name, text))
}

/// Whether the mutability transformation applies.
pub open spec fn mutability_applies(c: CtxView) -> bool {
    match mutation_plan(c) {
        Some(x) => !has_mut_suggestion(c.error.suggestions, x.2),
        None => false,
    }
}

/// Every transformation in turn (compiler suggestions, mutability, borrow,
/// clone), each contributing its candidates when it applies.
pub open spec fn all_transforms(c: CtxView, text: Seq<char>) -> Seq<CandidateView> {
    finish_all(
        if c.error.suggestions.len() > 0 {
            suggestions_output(c.error)
        } else {
            Seq::empty()
        },
        "compiler_suggestion"@,
        text,
    ) + finish_all(
        if mutability_applies(c) {
            mutability_output(c)
        } else {
            Seq::empty()
        },
        "mutability"@,
        text,
    ) + finish_all(
        if borrow_applies(c) {
            borrow_output(c)
        } else {
            Seq::empty()
        },
        "borrow"@,
        text,
    ) + finish_all(
        if clone_applies(c) {
            clone_output(c)
        } else {
            Seq::empty()
        },
        "clone"@,
        text,
    )
}

/// The candidates without those whose patch signature an earlier one has.
pub open spec fn dedup(cs: Seq<CandidateView>) -> Seq<CandidateView>
    decreases cs.len(),
{
    if cs.len() == 0 {
        cs
    } else {
        let d = dedup(cs.drop_last());
        if exists|i: int| 0 <= i < d.len() && signature(d[i].edits) == signature(cs.last().edits) {
            d
        } else {
            d.push(cs.last())
        }
    }
}

/// No two candidates that de-duplication keeps share a patch signature, and
/// each of them is one of the input candidates.
pub proof fn lemma_dedup_unique(cs: Seq<CandidateView>)
    ensures
        forall|i: int, j: int|
            0 <= i < j < dedup(cs).len() ==> signature(#[trigger] dedup(cs)[i].edits) != signature(
                #[trigger] dedup(cs)[j].edits,
            ),
        forall|i: int| 0 <= i < dedup(cs).len() ==> cs.contains(#[trigger] dedup(cs)[i]),
    decreases cs.len(),
{
    if cs.len() > 0 {
        lemma_dedup_unique(cs.drop_last());
        let d = dedup(cs.drop_last());
        assert forall|i: int| 0 <= i < d.len() implies cs.contains(#[trigger] d[i]) by {
            assert(cs.drop_last().contains(d[i]));
            let k = choose|k: int| 0 <= k < cs.drop_last().len() && cs.drop_last()[k] == d[i];
            assert(cs[k] == d[i]);
        }
        assert(cs[cs.len() - 1] == cs.last());
    }
}

fn stamp_edit_anchors(candidate: &mut RepairCandidate, source_text: &str)
    ensures
        final(candidate)@ == (CandidateView {
            edits: old(candidate)@.edits.map_values(
                |e: EditView| stamp_edit(e, lines_spec(source_text@)),
            ),
            ..old(candidate)@
        }),
{
    let lines = split_lines(source_text);
    let ghost lv = lines_spec(source_text@);
    let ghost ev = old(candidate)@.edits;
    let mut edits: Vec<Edit> = Vec::new();
    let mut i: usize = 0;
    while i < candidate.patch.edits.len()
        invariant
            i <= candidate.patch.edits.len(),
            ev == edits_view(candidate.patch.edits@),
            string_views(lines@) == lv,
            edits_view(edits@) == ev.take(i as int).map_values(|e: EditView| stamp_edit(e, lv)),
        decreases candidate.patch.edits.len() - i,
    {
        let mut e = candidate.patch.edits[i].clone();
        assert(ev[i as int] == e@);
        if e.anchor.is_none() {
            let li: usize = if e.line == 0 {
                0
            } else {
                (e.line - 1) as usize
            };
            if li < lines.len() {
                assert(lv[li as int] == lines@[li as int]@);
                e.anchor = Some(String::from_str(trim_str(lines[li].as_str())));
            }
        }
        let ghost before = edits_view(edits@);
        edits.push(e);
        assert(edits_view(edits@) =~= before.push(stamp_edit(ev[i as int], lv)));
        assert(ev.take(i + 1).map_values(|e: EditView| stamp_edit(e, lv)) =~= ev.take(i as int).map_values(
            |e: EditView| stamp_edit(e, lv),
        ).push(stamp_edit(ev[i as int], lv)));
        i = i + 1;
    }
    assert(ev.take(ev.len() as int) =~= ev);
    candidate.patch.edits = edits;
}

fn finish_candidates(out: &mut Vec<RepairCandidate>, generated: Vec<RepairCandidate>, name: &str, source_text: &str)
    ensures
        candidates_view(final(out)@) == candidates_view(old(out)@) + finish_all(
            candidates_view(generated@),
            name@,
            source_text@,
        ),
{
    let ghost gv = candidates_view(generated@);
    let ghost start = candidates_view(out@);
    let mut rest = generated;
    let mut i: usize = 0;
    let n = rest.len();
    assert(generated@.skip(0) =~= generated@);
    assert(finish_all(gv.take(0), name@, source_text@) =~= Seq::<CandidateView>::empty());
    assert(start + Seq::<CandidateView>::empty() =~= start);
    while i < n
        invariant
            n == gv.len(),
            i <= n,
            candidates_view(rest@) == gv.skip(i as int),
            rest@.len() == n - i,
            candidates_view(out@) == start + finish_all(gv.take(i as int), name@, source_text@),
        decreases n - i,
    {
        assert(candidates_view(rest@)[0] == gv[i as int]);
        let ghost r0 = rest@;
        let mut c = rest.remove(0);
        assert(rest@ =~= r0.skip(1));
        assert(candidates_view(rest@) =~= gv.skip(i + 1)) by {
            assert forall|k: int| 0 <= k < rest@.len() implies candidates_view(rest@)[k] == gv.skip(
                i + 1,
            )[k] by {
                assert(candidates_view(r0)[k + 1] == gv.skip(i as int)[k + 1]);
            }
        }
        stamp_edit_anchors(&mut c, source_text);
        let mut note = String::from_str("Transformation: ");
        note.append(name);
        let ghost ev = str_views(c.evidence@);
        c.evidence.insert(0, note);
        assert(str_views(c.evidence@) =~= Seq::empty().push("Transformation: "@ + name@) + ev);
        let ghost before = candidates_view(out@);
        out.push(c);
        assert(candidates_view(out@) =~= before.push(finish(gv[i as int], name@, source_text@)));
        assert(finish_all(gv.take(i + 1), name@, source_text@) =~= finish_all(
            gv.take(i as int),
            name@,
            source_text@,
        ).push(finish(gv[i as int], name@, source_text@)));
        i = i + 1;
    }
    assert(gv.take(n as int) =~= gv);
}

fn has_string(v: &Vec<String>, s: &str) -> (r: bool)
    ensures
        r == str_views(v@).contains(s@),
{
    let mut i: usize = 0;
    while i < v.len()
        invariant
            i <= v.len(),
            forall|k: int| 0 <= k < i ==> v@[k]@ != s@,
        decreases v.len() - i,
    {
        if str_eq(v[i].as_str(), s) {
            assert(str_views(v@)[i as int] == s@);
            return true;
        }
        i = i + 1;
    }
    proof {
        if str_views(v@).contains(s@) {
            let k = choose|k: int| 0 <= k < str_views(v@).len() && str_views(v@)[k] == s@;
            assert(v@[k]@ == s@);
        }
    }
    false
}

/// Keeps the first candidate of each patch signature.
fn deduplicate_candidates(candidates: Vec<RepairCandidate>) -> (r: Vec<RepairCandidate>)
    ensures
        candidates_view(r@) == dedup(candidates_view(candidates@)),
{
    let ghost cv = candidates_view(candidates@);
    let mut rest = candidates;
    let mut unique: Vec<RepairCandidate> = Vec::new();
    let mut seen: Vec<String> = Vec::new();
    let n = rest.len();
    let mut i: usize = 0;
    assert(cv.skip(0) =~= cv);
    assert(cv.take(0) =~= Seq::<CandidateView>::empty());
    assert(candidates_view(unique@) =~= Seq::<CandidateView>::empty());
    while i < n
        invariant
            n == cv.len(),
            i <= n,
            candidates_view(rest@) == cv.skip(i as int),
            rest@.len() == n - i,
            candidates_view(unique@) == dedup(cv.take(i as int)),
            str_views(seen@).len() == unique@.len(),
            forall|k: int|
                0 <= k < unique@.len() ==> str_views(seen@)[k] == signature(
                    #[trigger] candidates_view(unique@)[k].edits,
                ),
        decreases n - i,
    {
        assert(candidates_view(rest@)[0] == cv[i as int]);
        let ghost r0 = rest@;
        let c = rest.remove(0);
        assert(rest@ =~= r0.skip(1));
        assert(candidates_view(rest@) =~= cv.skip(i + 1)) by {
            assert forall|k: int| 0 <= k < rest@.len() implies candidates_view(rest@)[k] == cv.skip(
                i + 1,
            )[k] by {
                assert(candidates_view(r0)[k + 1] == cv.skip(i as int)[k + 1]);
            }
        }
        let sig = patch_signature(&c.patch);
        let ghost d = dedup(cv.take(i as int));
        assert(cv.take(i + 1).drop_last() =~= cv.take(i as int));
        assert(cv.take(i + 1).last() == c@);
        if has_string(&seen, sig.as_str()) {
            proof {
                let k = choose|k: int| 0 <= k < str_views(seen@).len() && str_views(seen@)[k] == sig@;
                assert(signature(d[k].edits) == signature(c@.edits));
            }
        } else {
            proof {
                assert forall|k: int| 0 <= k < d.len() implies signature(d[k].edits) != signature(
                    c@.edits,
                ) by {
                    assert(str_views(seen@)[k] == signature(candidates_view(unique@)[k].edits));
                }
            }
            let ghost sb = str_views(seen@);
            let ghost ub = candidates_view(unique@);
            seen.push(sig);
            unique.push(c);
            assert(str_views(seen@) =~= sb.push(signature(c@.edits)));
            assert(candidates_view(unique@) =~= ub.push(c@));
        }
        i = i + 1;
    }
    assert(cv.take(n as int) =~= cv);
    unique
}

/// Runs every transformation over the context of `error` and its source
/// text, in a fixed order, and keeps the first candidate of each patch.
/// A diagnostic may yield no candidate, one or several.
pub fn generate_candidates(
    error: &ParsedError,
    analysis: &DiagnosticAnalysis,
    source_text: &str,
) -> (r: Vec<RepairCandidate>)
    ensures
        candidates_view(r@) == dedup(all_transforms(from_source_view(error@, source_text@), source_text@)),
{
    let ctx = RepairContext::from_source(error, analysis, source_text);
    let ghost c = ctx@;
    let mut candidates: Vec<RepairCandidate> = Vec::new();
    let ghost e: Seq<CandidateView> = Seq::empty();
    let t1 = CompilerSuggestionTransform;
    let g1 = if t1.applicable(&ctx) {
        t1.generate(&ctx)
    } else {
        Vec::new()
    };
    assert(candidates_view(g1@) == if c.error.suggestions.len() > 0 {
        suggestions_output(c.error)
    } else {
        e
    }) by {
        if !(c.error.suggestions.len() > 0) {
            assert(candidates_view(g1@) =~= e);
        }
    }
    finish_candidates(&mut candidates, g1, t1.name(), source_text);
    let t2 = MutabilityTransform;
    let g2 = if t2.applicable(&ctx) {
        t2.generate(&ctx)
    } else {
        Vec::new()
    };
    assert(candidates_view(g2@) == if mutability_applies(c) {
        mutability_output(c)
    } else {
        e
    }) by {
        if !mutability_applies(c) {
            assert(candidates_view(g2@) =~= e);
        }
    }
    finish_candidates(&mut candidates, g2, t2.name(), source_text);
    let t3 = BorrowTransform;
    let g3 = if t3.applicable(&ctx) {
        t3.generate(&ctx)
    } else {
        Vec::new()
    };
    assert(candidates_view(g3@) == if borrow_applies(c) {
        borrow_output(c)
    } else {
        e
    }) by {
        if !borrow_applies(c) {
            assert(candidates_view(g3@) =~= e);
        }
    }
    finish_candidates(&mut candidates, g3, t3.name(), source_text);
    let t4 = CloneTransform;
    let g4 = if t4.applicable(&ctx) {
        t4.generate(&ctx)
    } else {
        Vec::new()
    };
    assert(candidates_view(g4@) == if clone_applies(c) {
        clone_output(c)
    } else {
        e
    }) by {
        if !clone_applies(c) {
            assert(candidates_view(g4@) =~= e);
        }
    }
    finish_candidates(&mut candidates, g4, t4.name(), source_text);
    assert(candidates_view(candidates@) =~= all_transforms(c, source_text@));
    deduplicate_candidates(candidates)
}

} // verus!
