//! The structured diagnostics that `cargo --message-format=json` reports, and
//! their normalisation into [`ParsedError`].

use crate::sorting::{stable_sort_of, lemma_insert_stable, lemma_stable_empty};
use crate::text::str_eq;
use vstd::prelude::*;

verus! {

/// One line of cargo's JSON message stream.
#[derive(Debug)]
pub struct CargoMessage {
    pub reason: String,
    pub message: Option<RustcMessage>,
}

/// The error code attached to a rustc diagnostic.
#[derive(Debug)]
pub struct ErrorCode {
    pub code: String,
}

/// A rustc diagnostic as reported in JSON.
#[derive(Debug)]
pub struct RustcMessage {
    pub code: Option<ErrorCode>,
    pub level: String,
    pub message: String,
    pub spans: Vec<Span>,
    pub children: Vec<DiagnosticChild>,
}

/// A note or help message attached to a diagnostic.
#[derive(Debug)]
pub struct DiagnosticChild {
    pub message: String,
    pub spans: Vec<Span>,
}

/// A source region reported by rustc.
#[derive(Debug)]
pub struct Span {
    pub file_name: String,
    pub line_start: u32,
    pub line_end: u32,
    pub column_start: u32,
    pub column_end: u32,
    pub is_primary: bool,
    pub label: Option<String>,
    pub text: Vec<SpanText>,
    pub suggested_replacement: Option<String>,
    pub suggestion_applicability: Option<String>,
}

/// A line of source text quoted by a span.
#[derive(Debug)]
pub struct SpanText {
    pub text: String,
}

/// A normalised compiler error.
#[derive(Debug)]
pub struct ParsedError {
    pub code: String,
    pub raw_message: String,
    pub spans: Vec<Span>,
    pub suggestions: Vec<CompilerSuggestion>,
}

/// A concrete replacement that rustc proposed for one region.
#[derive(Debug)]
pub struct CompilerSuggestion {
    pub file: String,
    pub line: u32,
    pub column: u32,
    pub column_end: u32,
    pub replacement: String,
    pub applicability: String,
    pub label: Option<String>,
}

/// How confident rustc is that a suggestion is correct.
#[derive(Debug, Clone, Copy, PartialEq, Eq, Structural)]
pub enum Applicability {
    MachineApplicable,
    MaybeIncorrect,
    HasPlaceholders,
    Unspecified,
}

// ---------------------------------------------------------------------------
// Views
// ---------------------------------------------------------------------------

/// The view of an optional string.
pub open spec fn opt_view(o: Option<String>) -> Option<Seq<char>> {
    match o {
        Some(s) => Some(s@),
        None => None,
    }
}

/// The mathematical content of a [`Span`].
pub struct SpanView {
    pub file_name: Seq<char>,
    pub line_start: u32,
    pub line_end: u32,
    pub column_start: u32,
    pub column_end: u32,
    pub is_primary: bool,
    pub label: Option<Seq<char>>,
    pub text: Seq<Seq<char>>,
    pub suggested_replacement: Option<Seq<char>>,
    pub suggestion_applicability: Option<Seq<char>>,
}

impl View for SpanText {
    type V = Seq<char>;

    open spec fn view(&self) -> Seq<char> {
        self.text@
    }
}

impl View for Span {
    type V = SpanView;

    open spec fn view(&self) -> SpanView {
        SpanView {
            file_name: self.file_name@,
            line_start: self.line_start,
            line_end: self.line_end,
            column_start: self.column_start,
            column_end: self.column_end,
            is_primary: self.is_primary,
            label: opt_view(self.label),
            text: self.text@.map_values(|t: SpanText| t@),
            suggested_replacement: opt_view(self.suggested_replacement),
            suggestion_applicability: opt_view(self.suggestion_applicability),
        }
    }
}

/// The views of a sequence of spans.
pub open spec fn spans_view(v: Seq<Span>) -> Seq<SpanView> {
    v.map_values(|s: Span| s@)
}

/// The mathematical content of a [`CompilerSuggestion`].
pub struct SuggestionView {
    pub file: Seq<char>,
    pub line: u32,
    pub column: u32,
    pub column_end: u32,
    pub replacement: Seq<char>,
    pub applicability: Seq<char>,
    pub label: Option<Seq<char>>,
}

impl View for CompilerSuggestion {
    type V = SuggestionView;

    open spec fn view(&self) -> SuggestionView {
        SuggestionView {
            file: self.file@,
            line: self.line,
            column: self.column,
            column_end: self.column_end,
            replacement: self.replacement@,
            applicability: self.applicability@,
            label: opt_view(self.label),
        }
    }
}

/// The views of a sequence of suggestions.
pub open spec fn suggestions_view(v: Seq<CompilerSuggestion>) -> Seq<SuggestionView> {
    v.map_values(|s: CompilerSuggestion| s@)
}

/// The views of a sequence of errors.
pub open spec fn errors_view(v: Seq<ParsedError>) -> Seq<ErrorView> {
    v.map_values(|e: ParsedError| e@)
}

/// The mathematical content of a [`ParsedError`].
pub struct ErrorView {
    pub code: Seq<char>,
    pub raw_message: Seq<char>,
    pub spans: Seq<SpanView>,
    pub suggestions: Seq<SuggestionView>,
}

impl View for ParsedError {
    type V = ErrorView;

    open spec fn view(&self) -> ErrorView {
        ErrorView {
            code: self.code@,
            raw_message: self.raw_message@,
            spans: spans_view(self.spans@),
            suggestions: suggestions_view(self.suggestions@),
        }
    }
}

// ---------------------------------------------------------------------------
// Copies
// ---------------------------------------------------------------------------

/// A copy of an optional string.
pub fn clone_opt_string(o: &Option<String>) -> (r: Option<String>)
    ensures
        r == *o,
{
    match o {
        Some(s) => Some(s.clone()),
        None => None,
    }
}

impl Clone for SpanText {
    fn clone(&self) -> (r: Self)
        ensures
            r == *self,
    {
        SpanText { text: self.text.clone() }
    }
}

/// A copy of a list of quoted source lines.
pub fn clone_span_texts(v: &Vec<SpanText>) -> (r: Vec<SpanText>)
    ensures
        r@ == v@,
{
    let mut r: Vec<SpanText> = Vec::new();
    let mut i: usize = 0;
    while i < v.len()
        invariant
            i <= v.len(),
            r@ == v@.take(i as int),
        decreases v.len() - i,
    {
        r.push(v[i].clone());
        assert(v@.take(i + 1) =~= v@.take(i as int).push(v@[i as int]));
        i = i + 1;
    }
    assert(v@.take(v.len() as int) =~= v@);
    r
}

impl Clone for Span {
    fn clone(&self) -> (r: Self)
        ensures
            r@ == self@,
    {
        let text = clone_span_texts(&self.text);
        let r = Span {
            file_name: self.file_name.clone(),
            line_start: self.line_start,
            line_end: self.line_end,
            column_start: self.column_start,
            column_end: self.column_end,
            is_primary: self.is_primary,
            label: clone_opt_string(&self.label),
            text,
            suggested_replacement: clone_opt_string(&self.suggested_replacement),
            suggestion_applicability: clone_opt_string(&self.suggestion_applicability),
        };
        assert(r.text@.map_values(|t: SpanText| t@) =~= self.text@.map_values(|t: SpanText| t@));
        r
    }
}

/// A copy of a list of spans.
pub fn clone_spans(v: &Vec<Span>) -> (r: Vec<Span>)
    ensures
        spans_view(r@) == spans_view(v@),
{
    let mut r: Vec<Span> = Vec::new();
    let mut i: usize = 0;
    while i < v.len()
        invariant
            i <= v.len(),
            spans_view(r@) == spans_view(v@.take(i as int)),
        decreases v.len() - i,
    {
        r.push(v[i].clone());
        assert(spans_view(v@.take(i + 1)) =~= spans_view(v@.take(i as int)).push(v@[i as int]@));
        assert(spans_view(r@) =~= spans_view(v@.take(i as int)).push(v@[i as int]@));
        i = i + 1;
    }
    assert(v@.take(v.len() as int) =~= v@);
    r
}

impl Clone for CompilerSuggestion {
    fn clone(&self) -> (r: Self)
        ensures
            r == *self,
    {
        CompilerSuggestion {
            file: self.file.clone(),
            line: self.line,
            column: self.column,
            column_end: self.column_end,
            replacement: self.replacement.clone(),
            applicability: self.applicability.clone(),
            label: clone_opt_string(&self.label),
        }
    }
}

/// A copy of a list of suggestions.
pub fn clone_suggestions(v: &Vec<CompilerSuggestion>) -> (r: Vec<CompilerSuggestion>)
    ensures
        r@ == v@,
{
    let mut r: Vec<CompilerSuggestion> = Vec::new();
    let mut i: usize = 0;
    while i < v.len()
        invariant
            i <= v.len(),
            r@ == v@.take(i as int),
        decreases v.len() - i,
    {
        r.push(v[i].clone());
        assert(v@.take(i + 1) =~= v@.take(i as int).push(v@[i as int]));
        i = i + 1;
    }
    assert(v@.take(v.len() as int) =~= v@);
    r
}

impl Clone for ParsedError {
    fn clone(&self) -> (r: Self)
        ensures
            r@ == self@,
    {
        ParsedError {
            code: self.code.clone(),
            raw_message: self.raw_message.clone(),
            spans: clone_spans(&self.spans),
            suggestions: clone_suggestions(&self.suggestions),
        }
    }
}

/// A copy of a list of errors.
pub fn clone_errors(v: &Vec<ParsedError>) -> (r: Vec<ParsedError>)
    ensures
        errors_view(r@) == errors_view(v@),
{
    let mut r: Vec<ParsedError> = Vec::new();
    let mut i: usize = 0;
    while i < v.len()
        invariant
            i <= v.len(),
            errors_view(r@) == errors_view(v@.take(i as int)),
        decreases v.len() - i,
    {
        r.push(v[i].clone());
        assert(errors_view(v@.take(i + 1)) =~= errors_view(v@.take(i as int)).push(v@[i as int]@));
        assert(errors_view(r@) =~= errors_view(v@.take(i as int)).push(v@[i as int]@));
        i = i + 1;
    }
    assert(v@.take(v.len() as int) =~= v@);
    r
}

impl Default for ParsedError {
    fn default() -> (r: Self)
        ensures
            r.code@ == Seq::<char>::empty(),
            r.raw_message@ == Seq::<char>::empty(),
            r.spans@ == Seq::<Span>::empty(),
            r.suggestions@ == Seq::<CompilerSuggestion>::empty(),
    {
        ParsedError {
            code: String::new(),
            raw_message: String::new(),
            spans: Vec::new(),
            suggestions: Vec::new(),
        }
    }
}

// ---------------------------------------------------------------------------
// Specification of normalisation
// ---------------------------------------------------------------------------

/// Spans are ordered by their start position: line, then column.
pub open spec fn span_pos_key(s: SpanView) -> int {
    s.line_start as int * 0x1_0000_0000 + s.column_start as int
}

/// The spans of `spans` that carry a replacement, each with the label its
/// suggestion gets.
pub open spec fn replacement_sources(
    spans: Seq<SpanView>,
    label: spec_fn(SpanView) -> Option<Seq<char>>,
) -> Seq<(SpanView, Option<Seq<char>>)>
    decreases spans.len(),
{
    if spans.len() == 0 {
        Seq::empty()
    } else {
        let rest = replacement_sources(spans.drop_last(), label);
        if spans.last().suggested_replacement is Some {
            rest.push((spans.last(), label(spans.last())))
        } else {
            rest
        }
    }
}

/// The label a child's suggestions get: the child's message.
pub open spec fn child_label_fn(c: DiagnosticChild) -> spec_fn(SpanView) -> Option<Seq<char>> {
    |s: SpanView| Some(c.message@)
}

/// The label a diagnostic's own suggestions get: the span's label.
pub open spec fn own_label_fn() -> spec_fn(SpanView) -> Option<Seq<char>> {
    |s: SpanView| s.label
}

/// The replacement-carrying spans of all children; their suggestions are
/// labelled with the child's message.
pub open spec fn child_sources(children: Seq<DiagnosticChild>) -> Seq<(SpanView, Option<Seq<char>>)>
    decreases children.len(),
{
    if children.len() == 0 {
        Seq::empty()
    } else {
        let c = children.last();
        child_sources(children.drop_last()) + replacement_sources(
            spans_view(c.spans@),
            child_label_fn(c),
        )
    }
}

/// Where each suggestion of a diagnostic comes from, in order: first the
/// diagnostic's own spans (labelled with the span's label), then the spans
/// of its children (labelled with the child's message).
pub open spec fn suggestion_sources(msg: RustcMessage) -> Seq<(SpanView, Option<Seq<char>>)> {
    replacement_sources(spans_view(msg.spans@), own_label_fn()) + child_sources(msg.children@)
}

/// `s` is the suggestion built from `span` with label `label`.
pub open spec fn suggestion_from(s: SuggestionView, span: SpanView, label: Option<Seq<char>>) -> bool {
    &&& s.file == span.file_name
    &&& s.line == span.line_start
    &&& s.column == span.column_start
    &&& s.column_end == span.column_end
    &&& span.suggested_replacement == Some(s.replacement)
    &&& match span.suggestion_applicability {
        Some(a) => s.applicability == a,
        None => s.applicability == "Unknown"@,
    }
    &&& s.label == label
}

/// `out` holds exactly the suggestions built from `sources`, in order.
pub open spec fn suggestions_built(
    out: Seq<SuggestionView>,
    sources: Seq<(SpanView, Option<Seq<char>>)>,
) -> bool {
    &&& out.len() == sources.len()
    &&& forall|i: int| 0 <= i < out.len() ==> suggestion_from(out[i], sources[i].0, sources[i].1)
}

/// `e` is the normalisation of `msg`.
pub open spec fn parsed_from(e: ErrorView, msg: RustcMessage) -> bool {
    &&& msg.code matches Some(c) && e.code == c.code@
    &&& e.raw_message == msg.message@
    &&& stable_sort_of(e.spans, spans_view(msg.spans@), |s: SpanView| span_pos_key(s))
    &&& suggestions_built(e.suggestions, suggestion_sources(msg))
}

/// Diagnostics of level `error` that carry a code are the ones normalised.
pub open spec fn is_reportable(msg: RustcMessage) -> bool {
    msg.level@ == "error"@ && msg.code is Some
}

// ---------------------------------------------------------------------------
// Normalisation
// ---------------------------------------------------------------------------

/// The suggestion built from `span`, labelled `label`.
fn suggestion_of(span: &Span, replacement: &String, label: Option<String>) -> (r: CompilerSuggestion)
    requires
        span.suggested_replacement == Some(*replacement),
    ensures
        suggestion_from(r@, span@, opt_view(label)),
{
    let applicability = match &span.suggestion_applicability {
        Some(a) => a.clone(),
        None => String::from_str("Unknown"),
    };
    CompilerSuggestion {
        file: span.file_name.clone(),
        line: span.line_start,
        column: span.column_start,
        column_end: span.column_end,
        replacement: replacement.clone(),
        applicability,
        label,
    }
}

/// Appends the suggestions of `spans`; each gets its span's label, or
/// `child_label` when one is given.
fn push_span_suggestions(
    out: &mut Vec<CompilerSuggestion>,
    spans: &Vec<Span>,
    child_label: &Option<String>,
    Ghost(sources): Ghost<Seq<(SpanView, Option<Seq<char>>)>>,
    Ghost(label): Ghost<spec_fn(SpanView) -> Option<Seq<char>>>,
)
    requires
        suggestions_built(suggestions_view(old(out)@), sources),
        forall|s: SpanView| #[trigger] label(s) == (match *child_label {
            Some(m) => Some(m@),
            None => s.label,
        }),
    ensures
        suggestions_built(
            suggestions_view(final(out)@),
            sources + replacement_sources(spans_view(spans@), label),
        ),
{
    let mut i: usize = 0;
    while i < spans.len()
        invariant
            i <= spans.len(),
            forall|s: SpanView| #[trigger] label(s) == (match *child_label {
                Some(m) => Some(m@),
                None => s.label,
            }),
            suggestions_built(
                suggestions_view(out@),
                sources + replacement_sources(spans_view(spans@.take(i as int)), label),
            ),
        decreases spans.len() - i,
    {
        let span = &spans[i];
        let ghost before = out@;
        let ghost sv = spans_view(spans@.take(i + 1));
        assert(sv.drop_last() =~= spans_view(spans@.take(i as int)));
        assert(sv.last() == spans@[i as int]@);
        if let Some(replacement) = &span.suggested_replacement {
            let l = match child_label {
                Some(m) => Some(m.clone()),
                None => clone_opt_string(&span.label),
            };
            out.push(suggestion_of(span, replacement, l));
            proof {
                let s0 = sources + replacement_sources(spans_view(spans@.take(i as int)), label);
                let s1 = s0.push((span@, label(span@)));
                assert(sources + replacement_sources(sv, label) =~= s1);
                assert(suggestions_view(out@) =~= suggestions_view(before).push(out@.last()@));
                assert forall|k: int| 0 <= k < suggestions_view(out@).len() implies suggestion_from(
                    suggestions_view(out@)[k],
                    s1[k].0,
                    s1[k].1,
                ) by {
                    if k < before.len() {
                        assert(suggestions_view(out@)[k] == suggestions_view(before)[k]);
                    }
                }
            }
        } else {
            assert(sources + replacement_sources(sv, label) =~= sources + replacement_sources(
                spans_view(spans@.take(i as int)),
                label,
            ));
        }
        i = i + 1;
    }
    assert(spans@.take(spans.len() as int) =~= spans@);
}

/// The spans of `spans` in stable (line, column) order.
fn sort_spans(spans: &Vec<Span>) -> (r: Vec<Span>)
    ensures
        stable_sort_of(spans_view(r@), spans_view(spans@), |s: SpanView| span_pos_key(s)),
{
    let ghost key = |s: SpanView| span_pos_key(s);
    let mut out: Vec<Span> = Vec::new();
    proof {
        lemma_stable_empty(key);
        assert(spans_view(spans@.take(0)) =~= Seq::<SpanView>::empty());
        assert(spans_view(out@) =~= Seq::<SpanView>::empty());
    }
    let mut i: usize = 0;
    while i < spans.len()
        invariant
            i <= spans.len(),
            key == (|s: SpanView| span_pos_key(s)),
            stable_sort_of(spans_view(out@), spans_view(spans@.take(i as int)), key),
        decreases spans.len() - i,
    {
        let x = spans[i].clone();
        let mut p = out.len();
        while p > 0 && (out[p - 1].line_start > x.line_start || (out[p - 1].line_start
            == x.line_start && out[p - 1].column_start > x.column_start))
            invariant
                p <= out.len(),
                key == (|s: SpanView| span_pos_key(s)),
                forall|j: int| p <= j < out@.len() ==> key(out@[j]@) > key(x@),
            decreases p,
        {
            p = p - 1;
        }
        let ghost ov = spans_view(out@);
        proof {
            assert forall|j: int| 0 <= j < p implies key(ov[j]) <= key(x@) by {
                if p > 0 {
                    assert(key(ov[j]) <= key(ov[p - 1]));
                }
            }
            assert forall|j: int| p <= j < ov.len() implies key(ov[j]) > key(x@) by {
                assert(ov[j] == out@[j]@);
            }
            lemma_insert_stable(ov, spans_view(spans@.take(i as int)), x@, p as int, key);
            assert(spans_view(spans@.take(i + 1)) =~= spans_view(spans@.take(i as int)).push(x@));
        }
        let ghost old_out = out@;
        out.insert(p, x);
        assert(spans_view(out@) =~= ov.take(p as int) + seq![x@] + ov.skip(p as int));
        i = i + 1;
    }
    assert(spans@.take(spans.len() as int) =~= spans@);
    out
}

impl ParsedError {
    /// Normalises a rustc diagnostic: only errors with a code are kept; the
    /// spans are ordered by position and every suggested replacement, of the
    /// diagnostic and of its children, becomes a [`CompilerSuggestion`].
    pub fn from_rustc_message(msg: &RustcMessage) -> (r: Option<Self>)
        ensures
            r is Some <==> is_reportable(*msg),
            r matches Some(e) ==> parsed_from(e@, *msg),
            r is Some ==> msg.level@ == "error"@ && msg.code is Some,
            msg.level@ != "error"@ ==> r is None,
    {
        if !str_eq(msg.level.as_str(), "error") {
            return None;
        }
        let code = match &msg.code {
            Some(c) => c.code.clone(),
            None => return None,
        };
        let mut suggestions: Vec<CompilerSuggestion> = Vec::new();
        let ghost own_label = own_label_fn();
        proof {
            assert(suggestions_view(suggestions@) =~= Seq::<SuggestionView>::empty());
        }
        push_span_suggestions(
            &mut suggestions,
            &msg.spans,
            &None,
            Ghost(Seq::empty()),
            Ghost(own_label),
        );
        assert(Seq::<(SpanView, Option<Seq<char>>)>::empty() + replacement_sources(
            spans_view(msg.spans@),
            own_label,
        ) =~= replacement_sources(spans_view(msg.spans@), own_label));
        let mut c: usize = 0;
        while c < msg.children.len()
            invariant
                c <= msg.children.len(),
                own_label == own_label_fn(),
                suggestions_built(
                    suggestions_view(suggestions@),
                    replacement_sources(spans_view(msg.spans@), own_label) + child_sources(
                        msg.children@.take(c as int),
                    ),
                ),
            decreases msg.children.len() - c,
        {
            let child = &msg.children[c];
            let ghost child_label = child_label_fn(*child);
            let ghost before = replacement_sources(spans_view(msg.spans@), own_label)
                + child_sources(msg.children@.take(c as int));
            push_span_suggestions(
                &mut suggestions,
                &child.spans,
                &Some(child.message.clone()),
                Ghost(before),
                Ghost(child_label),
            );
            proof {
                assert(msg.children@.take(c + 1).drop_last() =~= msg.children@.take(c as int));
                assert(msg.children@.take(c + 1).last() == msg.children@[c as int]);
                assert(before + replacement_sources(spans_view(child.spans@), child_label)
                    =~= replacement_sources(spans_view(msg.spans@), own_label) + child_sources(
                    msg.children@.take(c + 1),
                ));
            }
            c = c + 1;
        }
        assert(msg.children@.take(msg.children.len() as int) =~= msg.children@);
        let spans = sort_spans(&msg.spans);
        Some(ParsedError { code, raw_message: msg.message.clone(), spans, suggestions })
    }

    /// The first span that rustc marks as primary.
    pub fn primary_span(&self) -> (r: Option<&Span>)
        ensures
            r matches Some(s) ==> exists|i: int|
                0 <= i < self.spans@.len() && self.spans@[i] == *s && s.is_primary && forall|j: int|
                    0 <= j < i ==> !self.spans@[j].is_primary,
            r is None ==> forall|j: int| 0 <= j < self.spans@.len() ==> !self.spans@[j].is_primary,
    {
        let mut i: usize = 0;
        while i < self.spans.len()
            invariant
                i <= self.spans.len(),
                forall|j: int| 0 <= j < i ==> !self.spans@[j].is_primary,
            decreases self.spans.len() - i,
        {
            if self.spans[i].is_primary {
                return Some(&self.spans[i]);
            }
            i = i + 1;
        }
        None
    }
}

impl CompilerSuggestion {
    /// The applicability as a closed set; `None` for a value rustc does not
    /// define (including the `Unknown` placeholder for a missing one).
    pub fn applicability_enum(&self) -> (r: Option<Applicability>)
        ensures
            r == applicability_of(self.applicability@),
    {
        let a = self.applicability.as_str();
        if str_eq(a, "MachineApplicable") {
            Some(Applicability::MachineApplicable)
        } else if str_eq(a, "MaybeIncorrect") {
            Some(Applicability::MaybeIncorrect)
        } else if str_eq(a, "HasPlaceholders") {
            Some(Applicability::HasPlaceholders)
        } else if str_eq(a, "Unspecified") {
            Some(Applicability::Unspecified)
        } else {
            None
        }
    }
}

/// The applicability named by `s`.
pub open spec fn applicability_of(s: Seq<char>) -> Option<Applicability> {
    if s == "MachineApplicable"@ {
        Some(Applicability::MachineApplicable)
    } else if s == "MaybeIncorrect"@ {
        Some(Applicability::MaybeIncorrect)
    } else if s == "HasPlaceholders"@ {
        Some(Applicability::HasPlaceholders)
    } else if s == "Unspecified"@ {
        Some(Applicability::Unspecified)
    } else {
        None
    }
}

/// The errors that a message stream reports, in order: the compiler messages
/// whose diagnostic normalises.
pub open spec fn errors_of(messages: Seq<CargoMessage>) -> Seq<RustcMessage>
    decreases messages.len(),
{
    if messages.len() == 0 {
        Seq::empty()
    } else {
        let m = messages.last();
        let rest = errors_of(messages.drop_last());
        match m.message {
            Some(d) => if m.reason@ == "compiler-message"@ && is_reportable(d) {
                rest.push(d)
            } else {
                rest
            },
            None => rest,
        }
    }
}

/// Only errors are reported: every diagnostic taken from a message stream
/// has level `error` and a code, and came from a `compiler-message`; a
/// stream whose diagnostics are all of another level (warnings, notes)
/// reports nothing.
pub proof fn lemma_only_errors_reported(messages: Seq<CargoMessage>)
    ensures
        forall|i: int|
            0 <= i < errors_of(messages).len() ==> (#[trigger] errors_of(messages)[i]).level@
                == "error"@ && errors_of(messages)[i].code is Some,
        (forall|i: int|
            0 <= i < messages.len() ==> match (#[trigger] messages[i]).message {
                Some(d) => d.level@ != "error"@,
                None => true,
            }) ==> errors_of(messages).len() == 0,
    decreases messages.len(),
{
    if messages.len() > 0 {
        let t = messages.drop_last();
        lemma_only_errors_reported(t);
        if forall|i: int|
            0 <= i < messages.len() ==> match (#[trigger] messages[i]).message {
                Some(d) => d.level@ != "error"@,
                None => true,
            } {
            assert forall|i: int| 0 <= i < t.len() implies match (#[trigger] t[i]).message {
                Some(d) => d.level@ != "error"@,
                None => true,
            } by {
                assert(t[i] == messages[i]);
            }
            assert(match messages[messages.len() - 1].message {
                Some(d) => d.level@ != "error"@,
                None => true,
            });
        }
    }
}

/// Collects the compiler errors of a cargo message stream: messages whose
/// reason is `compiler-message` and whose diagnostic is a reportable error.
pub fn errors_from_messages(messages: &Vec<CargoMessage>) -> (r: Vec<ParsedError>)
    ensures
        r@.len() == errors_of(messages@).len(),
        forall|i: int| 0 <= i < r@.len() ==> parsed_from(r@[i]@, errors_of(messages@)[i]),
{
    let mut out: Vec<ParsedError> = Vec::new();
    let mut i: usize = 0;
    while i < messages.len()
        invariant
            i <= messages.len(),
            out@.len() == errors_of(messages@.take(i as int)).len(),
            forall|k: int|
                0 <= k < out@.len() ==> parsed_from(out@[k]@, errors_of(messages@.take(i as int))[k]),
        decreases messages.len() - i,
    {
        let m = &messages[i];
        assert(messages@.take(i + 1).drop_last() =~= messages@.take(i as int));
        assert(messages@.take(i + 1).last() == messages@[i as int]);
        if str_eq(m.reason.as_str(), "compiler-message") {
            if let Some(d) = &m.message {
                if let Some(e) = ParsedError::from_rustc_message(d) {
                    out.push(e);
                }
            }
        }
        i = i + 1;
    }
    assert(messages@.take(messages.len() as int) =~= messages@);
    out
}

} // verus!
