//! Derived facts about a diagnostic: the reported locations, how they relate,
//! the compiler's fixes, and the expected/found types named in span labels.

use crate::diagnostics::{opt_view, ParsedError, Span, SpanView, clone_opt_string, spans_view};
use crate::text::{
    char_count, dec, find_spec, find_str, push_dec, slice, slice_from, str_eq, to_owned_string,
    trim_spec, trim_start_spec, trim_start_str, trim_str,
};
use vstd::prelude::*;
use vstd::string::StringExecFns;

verus! {

/// Everything derived from one diagnostic.
#[derive(Debug)]
pub struct DiagnosticAnalysis {
    pub locations: Vec<CodeLocation>,
    pub relationships: Vec<DiagnosticRelationship>,
    pub suggestions: Vec<CompilerFix>,
    pub expected_type: Option<String>,
    pub found_type: Option<String>,
}

/// A compiler-reported location.
#[derive(Debug)]
pub struct CodeLocation {
    pub file: String,
    pub line: u32,
    pub column: u32,
    pub snippet: String,
    pub label: Option<String>,
}

/// A sentence relating two reported locations.
#[derive(Debug)]
pub struct DiagnosticRelationship {
    pub explanation: String,
}

/// A replacement proposed by the compiler.
#[derive(Debug)]
pub struct CompilerFix {
    pub file: String,
    pub line: u32,
    pub column: u32,
    pub replacement: String,
    pub applicability: String,
    pub label: Option<String>,
}

// ---------------------------------------------------------------------------
// Specification
// ---------------------------------------------------------------------------

/// `label` or, when absent, `default`.
pub open spec fn label_or(label: Option<Seq<char>>, default: Seq<char>) -> Seq<char> {
    match label {
        Some(l) => l,
        None => default,
    }
}

/// The snippet shown for a span: its first quoted line, trimmed.
pub open spec fn snippet_of(s: SpanView) -> Seq<char> {
    if s.text.len() > 0 {
        trim_spec(s.text[0])
    } else {
        Seq::empty()
    }
}

/// `loc` describes `s`.
pub open spec fn location_of(loc: CodeLocation, s: SpanView) -> bool {
    &&& loc.file@ == s.file_name
    &&& loc.line == s.line_start
    &&& loc.column == s.column_start
    &&& loc.snippet@ == snippet_of(s)
    &&& opt_view(loc.label) == s.label
}

/// Two spans are related when they lie in the same file at different start
/// positions.
pub open spec fn related(a: SpanView, b: SpanView) -> bool {
    a.file_name == b.file_name && !(a.line_start == b.line_start && a.column_start
        == b.column_start)
}

/// The sentence relating `a` to `b`.
pub open spec fn relation_text(a: SpanView, b: SpanView) -> Seq<char> {
    "Line "@ + dec(a.line_start as nat) + " is related to line "@ + dec(b.line_start as nat)
        + ": \""@ + label_or(a.label, "compiler-reported location"@) + "\" → \""@ + label_or(
        b.label,
        "related compiler location"@,
    ) + "\"."@
}

/// The sentences relating span `i` to each later span `j < m`.
pub open spec fn relation_row(spans: Seq<SpanView>, i: int, m: int) -> Seq<Seq<char>>
    decreases m - i,
{
    if m <= i + 1 {
        Seq::empty()
    } else {
        let rest = relation_row(spans, i, m - 1);
        if related(spans[i], spans[m - 1]) {
            rest.push(relation_text(spans[i], spans[m - 1]))
        } else {
            rest
        }
    }
}

/// The sentences for every pair `i < j` with `i < n`, ordered by `i` then `j`.
pub open spec fn relations_upto(spans: Seq<SpanView>, n: int) -> Seq<Seq<char>>
    decreases n,
{
    if n <= 0 {
        Seq::empty()
    } else {
        relations_upto(spans, n - 1) + relation_row(spans, n - 1, spans.len() as int)
    }
}

/// The relationship sentences of a diagnostic.
pub open spec fn relations_of(spans: Seq<SpanView>) -> Seq<Seq<char>> {
    relations_upto(spans, spans.len() as int)
}

/// `s` with every trailing `c` removed.
pub open spec fn strip_trailing(s: Seq<char>, c: char) -> Seq<char>
    decreases s.len(),
{
    if s.len() > 0 && s.last() == c {
        strip_trailing(s.drop_last(), c)
    } else {
        s
    }
}

/// The text between the first backtick of `s` and the next one, trimmed,
/// when there are two backticks and that text is not blank.
pub open spec fn backticked(s: Seq<char>) -> Option<Seq<char>> {
    match find_spec(s, seq!['`']) {
        Some(a) => match find_spec(s.skip(a + 1), seq!['`']) {
            Some(b) => {
                let v = trim_spec(s.skip(a + 1).take(b));
                if v.len() > 0 {
                    Some(v)
                } else {
                    None
                }
            },
            None => None,
        },
        None => None,
    }
}

/// The text before the first comma of `s` (all of `s` when there is none).
pub open spec fn before_comma(s: Seq<char>) -> Seq<char> {
    match find_spec(s, seq![',']) {
        Some(k) => s.take(k),
        None => s,
    }
}

/// The type named after `prefix` in `text`: a backtick-quoted name right
/// after the prefix, else the first backtick-quoted name before the next
/// comma, else the text up to the next comma without trailing periods.
pub open spec fn type_after(text: Seq<char>, prefix: Seq<char>) -> Option<Seq<char>> {
    match find_spec(text, prefix) {
        None => None,
        Some(start) => {
            let remaining = text.skip(start + prefix.len());
            let immediate = trim_start_spec(remaining);
            let quoted_now = if immediate.len() > 0 && immediate[0] == '`' {
                match find_spec(immediate.skip(1), seq!['`']) {
                    Some(e) => {
                        let v = trim_spec(immediate.skip(1).take(e));
                        if v.len() > 0 {
                            Some(v)
                        } else {
                            None
                        }
                    },
                    None => None,
                }
            } else {
                None
            };
            if quoted_now is Some {
                quoted_now
            } else {
                let segment = trim_spec(before_comma(remaining));
                if backticked(segment) is Some {
                    backticked(segment)
                } else {
                    let v = strip_trailing(trim_spec(segment), '.');
                    if v.len() > 0 {
                        Some(v)
                    } else {
                        None
                    }
                }
            }
        },
    }
}

/// The last type found after `prefix` in the labels of `spans[..n]`.
pub open spec fn last_type_upto(spans: Seq<SpanView>, prefix: Seq<char>, n: int) -> Option<
    Seq<char>,
>
    decreases n,
{
    if n <= 0 {
        None
    } else {
        let here = match spans[n - 1].label {
            Some(l) => type_after(l, prefix),
            None => None,
        };
        if here is Some {
            here
        } else {
            last_type_upto(spans, prefix, n - 1)
        }
    }
}

/// The last type found after `prefix` in any span label.
pub open spec fn last_type(spans: Seq<SpanView>, prefix: Seq<char>) -> Option<Seq<char>> {
    last_type_upto(spans, prefix, spans.len() as int)
}

/// `fix` carries the suggestion `s`.
pub open spec fn fix_of(fix: CompilerFix, s: crate::diagnostics::SuggestionView) -> bool {
    &&& fix.file@ == s.file
    &&& fix.line == s.line
    &&& fix.column == s.column
    &&& fix.replacement@ == s.replacement
    &&& fix.applicability@ == s.applicability
    &&& opt_view(fix.label) == s.label
}

/// `a` is the analysis of `e`.
pub open spec fn analysis_of(a: DiagnosticAnalysis, e: crate::diagnostics::ErrorView) -> bool {
    &&& a.locations@.len() == e.spans.len()
    &&& forall|i: int| 0 <= i < e.spans.len() ==> location_of(#[trigger] a.locations@[i], e.spans[i])
    &&& a.relationships@.map_values(|r: DiagnosticRelationship| r.explanation@) == relations_of(
        e.spans,
    )
    &&& a.suggestions@.len() == e.suggestions.len()
    &&& forall|i: int|
        0 <= i < e.suggestions.len() ==> fix_of(#[trigger] a.suggestions@[i], e.suggestions[i])
    &&& opt_view(a.expected_type) == last_type(e.spans, "expected "@)
    &&& opt_view(a.found_type) == last_type(e.spans, "found "@)
}

// ---------------------------------------------------------------------------
// Implementation
// ---------------------------------------------------------------------------

/// Derives locations, relationships, fixes and the expected/found types of
/// a diagnostic.
pub fn analyze(error: &ParsedError) -> (r: DiagnosticAnalysis)
    ensures
        analysis_of(r, error@),
{
    let mut locations: Vec<CodeLocation> = Vec::new();
    let mut i: usize = 0;
    while i < error.spans.len()
        invariant
            i <= error.spans.len(),
            locations@.len() == i,
            forall|k: int| 0 <= k < i ==> location_of(#[trigger] locations@[k], error@.spans[k]),
        decreases error.spans.len() - i,
    {
        locations.push(location_from_span(&error.spans[i]));
        i = i + 1;
    }
    let relationships = analyze_relationships(&error.spans);
    let mut suggestions: Vec<CompilerFix> = Vec::new();
    let mut j: usize = 0;
    while j < error.suggestions.len()
        invariant
            j <= error.suggestions.len(),
            suggestions@.len() == j,
            forall|k: int|
                0 <= k < j ==> fix_of(#[trigger] suggestions@[k], error@.suggestions[k]),
        decreases error.suggestions.len() - j,
    {
        let s = &error.suggestions[j];
        suggestions.push(
            CompilerFix {
                file: s.file.clone(),
                line: s.line,
                column: s.column,
                replacement: s.replacement.clone(),
                applicability: s.applicability.clone(),
                label: clone_opt_string(&s.label),
            },
        );
        j = j + 1;
    }
    let expected_type = extract_last_type(&error.spans, "expected ");
    let found_type = extract_last_type(&error.spans, "found ");
    DiagnosticAnalysis { locations, relationships, suggestions, expected_type, found_type }
}

/// The location reported by one span.
fn location_from_span(span: &Span) -> (r: CodeLocation)
    ensures
        location_of(r, span@),
{
    let snippet = if span.text.len() > 0 {
        to_owned_string(trim_str(span.text[0].text.as_str()))
    } else {
        String::new()
    };
    CodeLocation {
        file: span.file_name.clone(),
        line: span.line_start,
        column: span.column_start,
        snippet,
        label: clone_opt_string(&span.label),
    }
}

/// The label of `span`, or `default` when it has none.
fn label_text<'a>(span: &'a Span, default: &'a str) -> (r: &'a str)
    ensures
        r@ == label_or(span@.label, default@),
{
    match &span.label {
        Some(l) => l.as_str(),
        None => default,
    }
}

/// The sentence relating two locations.
fn relation_sentence(a: &Span, b: &Span) -> (r: String)
    ensures
        r@ == relation_text(a@, b@),
{
    let mut s = String::from_str("Line ");
    push_dec(&mut s, a.line_start as u64);
    s.append(" is related to line ");
    push_dec(&mut s, b.line_start as u64);
    s.append(": \"");
    s.append(label_text(a, "compiler-reported location"));
    s.append("\" → \"");
    s.append(label_text(b, "related compiler location"));
    s.append("\".");
    s
}

/// One sentence per related pair of spans, in order of the first span, then
/// the second.
fn analyze_relationships(spans: &Vec<Span>) -> (r: Vec<DiagnosticRelationship>)
    ensures
        r@.map_values(|x: DiagnosticRelationship| x.explanation@) == relations_of(spans_view(spans@)),
{
    let ghost sv = spans_view(spans@);
    let n = spans.len();
    let mut out: Vec<DiagnosticRelationship> = Vec::new();
    let mut i: usize = 0;
    assert(out@.map_values(|x: DiagnosticRelationship| x.explanation@) =~= relations_upto(sv, 0));
    while i < n
        invariant
            n == spans@.len(),
            sv == spans_view(spans@),
            i <= n,
            out@.map_values(|x: DiagnosticRelationship| x.explanation@) == relations_upto(
                sv,
                i as int,
            ),
        decreases n - i,
    {
        let ghost base = out@.map_values(|x: DiagnosticRelationship| x.explanation@);
        let mut j: usize = i + 1;
        assert(relation_row(sv, i as int, j as int) =~= Seq::<Seq<char>>::empty());
        assert(base + relation_row(sv, i as int, j as int) =~= base);
        while j < n
            invariant
                n == spans@.len(),
                sv == spans_view(spans@),
                i < j <= n,
                out@.map_values(|x: DiagnosticRelationship| x.explanation@) == base
                    + relation_row(sv, i as int, j as int),
            decreases n - j,
        {
            let a = &spans[i];
            let b = &spans[j];
            assert(sv[i as int] == a@ && sv[j as int] == b@);
            let same_file = str_eq(a.file_name.as_str(), b.file_name.as_str());
            if same_file && !(a.line_start == b.line_start && a.column_start == b.column_start) {
                let ghost before = out@;
                out.push(DiagnosticRelationship { explanation: relation_sentence(a, b) });
                assert(out@.map_values(|x: DiagnosticRelationship| x.explanation@)
                    =~= before.map_values(|x: DiagnosticRelationship| x.explanation@).push(
                    relation_text(a@, b@),
                ));
            }
            j = j + 1;
        }
        i = i + 1;
    }
    out
}

/// `s` without trailing periods.
fn strip_trailing_dots<'a>(s: &'a str) -> (r: &'a str)
    ensures
        r@ == strip_trailing(s@, '.'),
{
    let mut end = char_count(s);
    assert(s@.subrange(0, end as int) =~= s@);
    while end > 0 && s.get_char(end - 1) == '.'
        invariant
            end <= s@.len(),
            strip_trailing(s@, '.') == strip_trailing(s@.subrange(0, end as int), '.'),
        decreases end,
    {
        assert(s@.subrange(0, end as int).drop_last() =~= s@.subrange(0, end - 1));
        end = end - 1;
    }
    slice(s, 0, end)
}

/// The first backtick-quoted name in `s`.
fn backticked_exec(s: &str) -> (r: Option<String>)
    ensures
        opt_view(r) == backticked(s@),
{
    match find_str(s, "`") {
        Some(a) => {
            proof {
                reveal_strlit("`");
            }
            assert("`"@ =~= seq!['`']);
            let n = char_count(s);
            let after = slice_from(s, a + 1);
            match find_str(after, "`") {
                Some(b) => {
                    let inner = slice(after, 0, b);
                    assert(inner@ =~= after@.take(b as int));
                    let v = trim_str(inner);
                    if char_count(v) > 0 {
                        Some(to_owned_string(v))
                    } else {
                        None
                    }
                },
                None => None,
            }
        },
        None => {
            proof {
                reveal_strlit("`");
            }
            assert("`"@ =~= seq!['`']);
            None
        },
    }
}

/// The first occurrence of a character is where it stands when no earlier
/// character is that one.
proof fn lemma_find_first_char(x: Seq<char>, c: char, k: int)
    requires
        0 <= k < x.len(),
        x[k] == c,
        forall|i: int| 0 <= i < k ==> x[i] != c,
    ensures
        find_spec(x, seq![c]) == Some(k),
{
    crate::text::lemma_find_from(x, seq![c], 0);
    assert(x.subrange(k, k + 1) =~= seq![c]);
    assert(crate::text::occurs_at(x, seq![c], k));
    match find_spec(x, seq![c]) {
        Some(j) => {
            if j < k {
                assert(x.subrange(j, j + 1)[0] == x[j]);
            }
        },
        None => {},
    }
}

/// A type quoted right after the prefix is the one found: in
/// `a + prefix + "`t`" + b`, where the prefix first occurs right after `a`,
/// the type after the prefix is `t` (trimmed), provided `t` holds no
/// backtick and is not blank.
pub proof fn lemma_type_after_quoted(a: Seq<char>, prefix: Seq<char>, t: Seq<char>, b: Seq<char>)
    requires
        forall|j: int|
            0 <= j < a.len() ==> !crate::text::occurs_at(
                a + prefix + seq!['`'] + t + seq!['`'] + b,
                prefix,
                j,
            ),
        forall|i: int| 0 <= i < t.len() ==> t[i] != '`',
        trim_spec(t).len() > 0,
    ensures
        type_after(a + prefix + seq!['`'] + t + seq!['`'] + b, prefix) == Some(trim_spec(t)),
{
    let text = a + prefix + seq!['`'] + t + seq!['`'] + b;
    crate::text::lemma_find_from(text, prefix, 0);
    assert(text.subrange(a.len() as int, (a.len() + prefix.len()) as int) =~= prefix);
    assert(crate::text::occurs_at(text, prefix, a.len() as int));
    assert(find_spec(text, prefix) == Some(a.len() as int));
    let remaining = text.skip((a.len() + prefix.len()) as int);
    assert(remaining =~= seq!['`'] + t + seq!['`'] + b);
    assert(!crate::text::is_ws('`'));
    assert(trim_start_spec(remaining) == remaining);
    let rest = remaining.skip(1);
    assert(rest =~= t + seq!['`'] + b);
    assert forall|i: int| 0 <= i < t.len() implies rest[i] != '`' by {
        assert(rest[i] == t[i]);
    }
    assert(rest[t.len() as int] == '`');
    lemma_find_first_char(rest, '`', t.len() as int);
    assert(rest.take(t.len() as int) =~= t);
}

/// The type named after `prefix` in `text`.
pub fn extract_type_after(text: &str, prefix: &str) -> (r: Option<String>)
    ensures
        opt_view(r) == type_after(text@, prefix@),
{
    proof {
        reveal_strlit("`");
        reveal_strlit(",");
    }
    assert("`"@ =~= seq!['`']);
    assert(","@ =~= seq![',']);
    let start = match find_str(text, prefix) {
        Some(k) => k,
        None => return None,
    };
    proof {
        crate::text::lemma_find_contains(text@, prefix@);
    }
    let plen = char_count(prefix);
    let tlen = char_count(text);
    assert(start + plen <= tlen);
    let remaining = slice_from(text, start + plen);
    let immediate = trim_start_str(remaining);
    if char_count(immediate) > 0 && immediate.get_char(0) == '`' {
        let after = slice_from(immediate, 1);
        if let Some(e) = find_str(after, "`") {
            let inner = slice(after, 0, e);
            assert(inner@ =~= after@.take(e as int));
            let v = trim_str(inner);
            if char_count(v) > 0 {
                return Some(to_owned_string(v));
            }
        }
    }
    let head = match find_str(remaining, ",") {
        Some(k) => {
            let h = slice(remaining, 0, k);
            assert(h@ =~= remaining@.take(k as int));
            h
        },
        None => remaining,
    };
    let segment = trim_str(head);
    let quoted = backticked_exec(segment);
    if quoted.is_some() {
        return quoted;
    }
    let value = strip_trailing_dots(trim_str(segment));
    if char_count(value) == 0 {
        None
    } else {
        Some(to_owned_string(value))
    }
}

/// The last type named after `prefix` in any span label.
fn extract_last_type(spans: &Vec<Span>, prefix: &str) -> (r: Option<String>)
    ensures
        opt_view(r) == last_type(spans_view(spans@), prefix@),
{
    let ghost sv = spans_view(spans@);
    let mut found: Option<String> = None;
    let mut i: usize = 0;
    while i < spans.len()
        invariant
            i <= spans.len(),
            sv == spans_view(spans@),
            opt_view(found) == last_type_upto(sv, prefix@, i as int),
        decreases spans.len() - i,
    {
        assert(sv[i as int] == spans@[i as int]@);
        if let Some(label) = &spans[i].label {
            let here = extract_type_after(label.as_str(), prefix);
            if here.is_some() {
                found = here;
            }
        }
        i = i + 1;
    }
    found
}

} // verus!
