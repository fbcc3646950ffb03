//! What a repair transformation knows about one diagnostic: the error, its
//! analysis and the text of the files it names, with the questions the
//! transformations ask of them (which value was moved, where a binding is
//! declared, whether a token is a call argument).

use crate::analyzer::DiagnosticAnalysis;
use crate::diagnostics::{opt_view, ErrorView, ParsedError, Span, SpanView};
use crate::lines::{char_pos, is_boundary, lemma_char_pos, lines_spec, split_lines, string_views};
use crate::patch::col_index;
use crate::text::{
    byte_len, byte_offset, char_count, contains_spec, contains_str, ends_with_spec,
    find_spec, find_str, is_word_char, is_word_spec, lemma_byte_len_prefix, lemma_find_from,
    matches_at, occurs_at, slice, slice_from, starts_with_spec, starts_with_str, str_eq,
    trim_spec, trim_start_spec, trim_start_str, trim_str,
};
use crate::unicode::{alphanumeric, is_alphanumeric, lowercase, to_lowercase};
use vstd::prelude::*;
use vstd::string::StringExecFns;

verus! {

// ---------------------------------------------------------------------------
// Whole-word tokens and columns
// ---------------------------------------------------------------------------

/// The match of `t` at character `k` of `s` is a whole word: no identifier
/// character (ASCII alphanumeric or `_`) touches it on either side.
pub open spec fn whole_word_at(s: Seq<char>, t: Seq<char>, k: int) -> bool {
    &&& (k == 0 || !is_word_spec(s[k - 1]))
    &&& (k + t.len() >= s.len() || !is_word_spec(s[k + t.len()]))
}

/// The first whole-word occurrence of `t` in `s` found by scanning from `i`:
/// a match that is not a whole word is skipped as a whole.
pub open spec fn token_from(s: Seq<char>, t: Seq<char>, i: int) -> Option<int>
    decreases s.len() - i,
{
    if t.len() == 0 || i < 0 || i + t.len() > s.len() {
        None
    } else if occurs_at(s, t, i) {
        if whole_word_at(s, t, i) {
            Some(i)
        } else {
            token_from(s, t, i + t.len())
        }
    } else {
        token_from(s, t, i + 1)
    }
}

/// The character index of the first whole-word occurrence of `t` in `s`.
pub open spec fn token_at(s: Seq<char>, t: Seq<char>) -> Option<int> {
    token_from(s, t, 0)
}

proof fn lemma_token_from(s: Seq<char>, t: Seq<char>, i: int)
    requires
        0 <= i,
    ensures
        token_from(s, t, i) matches Some(k) ==> i <= k && occurs_at(s, t, k) && whole_word_at(
            s,
            t,
            k,
        ),
    decreases s.len() - i,
{
    if t.len() == 0 || i + t.len() > s.len() {
    } else if occurs_at(s, t, i) {
        if !whole_word_at(s, t, i) {
            lemma_token_from(s, t, i + t.len());
        }
    } else {
        lemma_token_from(s, t, i + 1);
    }
}

/// Character index of the first whole-word occurrence of `token` in `line`.
pub fn find_token(line: &str, token: &str) -> (r: Option<usize>)
    ensures
        r matches Some(k) ==> token_at(line@, token@) == Some(k as int) && k + token@.len()
            <= line@.len(),
        r is None ==> token_at(line@, token@) is None,
{
    let n = char_count(line);
    let m = char_count(token);
    if m == 0 {
        return None;
    }
    let mut i: usize = 0;
    while i <= n && m <= n - i
        invariant
            n == line@.len(),
            m == token@.len(),
            m > 0,
            token_at(line@, token@) == token_from(line@, token@, i as int),
        decreases n - i,
    {
        if matches_at(line, token, i) {
            let before_ok = i == 0 || !is_word_char(line.get_char(i - 1));
            let after_ok = i + m >= n || !is_word_char(line.get_char(i + m));
            if before_ok && after_ok {
                return Some(i);
            }
            i = i + m;
        } else {
            i = i + 1;
        }
    }
    None
}

/// The byte offset of the first whole-word occurrence of `token` in `line`:
/// an occurrence counts when the characters around it are not ASCII
/// alphanumeric or `_`; an empty token is never found.
pub fn find_token_byte(line: &str, token: &str) -> (r: Option<usize>)
    ensures
        r == match token_at(line@, token@) {
            Some(k) => Some(byte_len(line@.take(k)) as usize),
            None => None::<usize>,
        },
{
    crate::text::byte_len_fits(line);
    match find_token(line, token) {
        Some(k) => {
            proof {
                lemma_byte_len_prefix(line@, k as int);
            }
            Some(byte_offset(line, k))
        },
        None => None,
    }
}

/// The 1-based character column of byte offset `b` of `line`: one past the
/// last character when `b` is at or beyond the end.
pub open spec fn char_column(line: Seq<char>, b: int) -> int {
    if b >= byte_len(line) {
        line.len() + 1int
    } else {
        char_pos(line, b) + 1
    }
}

/// A byte offset on a character boundary of a line, turned into a
/// 1-based character column and back into a byte offset, is unchanged.
pub proof fn lemma_column_round_trip(line: Seq<char>, b: int)
    requires
        line.len() < u32::MAX,
        0 <= b <= byte_len(line),
        is_boundary(line, b),
    ensures
        crate::patch::column_byte_spec(line, char_column(line, b) as u32) == Ok::<
            int,
            crate::patch::EditError,
        >(b),
{
    if b >= byte_len(line) {
        assert(line.take(line.len() as int) =~= line);
    } else {
        let k = char_pos(line, b);
        assert(0 <= k <= line.len() && byte_len(line.take(k)) == b);
    }
}

/// Converts a byte offset within `line` into a 1-based character column.
pub fn byte_to_char_column(line: &str, byte_offset: usize) -> (r: u32)
    requires
        line@.len() < u32::MAX,
        byte_offset >= byte_len(line@) || is_boundary(line@, byte_offset as int),
    ensures
        r == char_column(line@, byte_offset as int),
{
    let n = char_count(line);
    let mut k: usize = 0;
    let mut acc: usize = 0;
    assert(line@.take(0) =~= Seq::<char>::empty());
    while k < n && acc < byte_offset
        invariant
            n == line@.len(),
            k <= n,
            acc == byte_len(line@.take(k as int)),
            acc <= byte_offset,
            line@.len() < u32::MAX,
            byte_offset >= byte_len(line@) || is_boundary(line@, byte_offset as int),
        decreases n - k,
    {
        proof {
            assert(line@.take(k + 1) =~= line@.take(k as int).push(line@[k as int]));
            crate::text::lemma_byte_len_push(line@.take(k as int), line@[k as int]);
        }
        let w = crate::text::char_width(line.get_char(k));
        if w > byte_offset - acc {
            proof {
                if byte_offset < byte_len(line@) {
                    let j = char_pos(line@, byte_offset as int);
                    assert(0 <= j <= line@.len() && byte_len(line@.take(j)) == byte_offset);
                    if j <= k {
                        if j < k {
                            crate::text::lemma_byte_len_take_strict(line@, j, k as int);
                        }
                    } else if j > k + 1 {
                        crate::text::lemma_byte_len_take_strict(line@, k + 1, j);
                    }
                } else {
                    crate::text::lemma_byte_len_prefix(line@, k + 1);
                }
            }
            return (n as u32) + 1;
        }
        acc = acc + w;
        k = k + 1;
    }
    proof {
        if k == n {
            assert(line@.take(n as int) =~= line@);
        }
    }
    if acc < byte_offset || k == n {
        proof {
            if k < n {
                assert(false);
            }
        }
        (n as u32) + 1
    } else {
        proof {
            lemma_char_pos(line@, k as int);
            if byte_offset >= byte_len(line@) {
                crate::text::lemma_byte_len_take_strict(line@, k as int, n as int);
                assert(line@.take(n as int) =~= line@);
            }
        }
        (k as u32) + 1
    }
}

// ---------------------------------------------------------------------------
// The context
// ---------------------------------------------------------------------------

/// The text of `file` among `(file, text)` entries: the last entry for it,
/// as when the entries are inserted into a map in order.
pub open spec fn source_of(sources: Seq<(Seq<char>, Seq<char>)>, file: Seq<char>) -> Option<Seq<char>>
    decreases sources.len(),
{
    if sources.len() == 0 {
        None
    } else if sources.last().0 == file {
        Some(sources.last().1)
    } else {
        source_of(sources.drop_last(), file)
    }
}

/// The views of `(file, text)` entries.
pub open spec fn sources_view(v: Seq<(String, String)>) -> Seq<(Seq<char>, Seq<char>)> {
    v.map_values(|p: (String, String)| (p.0@, p.1@))
}

/// Line `n` (1-based; 0 counts as 1) of a text, as `str::lines` splits it.
pub open spec fn line_spec(text: Seq<char>, n: u32) -> Option<Seq<char>> {
    let ls = lines_spec(text);
    if col_index(n) < ls.len() {
        Some(ls[col_index(n)])
    } else {
        None
    }
}

/// The first primary span, or else the first span.
pub open spec fn context_span(spans: Seq<SpanView>) -> Option<SpanView> {
    if exists|i: int| 0 <= i < spans.len() && spans[i].is_primary {
        let i = choose|i: int|
            0 <= i < spans.len() && spans[i].is_primary && forall|j: int|
                0 <= j < i ==> !spans[j].is_primary;
        Some(spans[i])
    } else if spans.len() > 0 {
        Some(spans[0])
    } else {
        None
    }
}

/// The context of one source text filed under the first span's file.
pub open spec fn from_source_view(error: ErrorView, text: Seq<char>) -> CtxView {
    CtxView {
        error,
        sources: if error.spans.len() > 0 {
            seq![(error.spans[0].file_name, text)]
        } else {
            Seq::empty()
        },
    }
}

/// Structured context for repair transformations: the diagnostic, its
/// analysis and the source text of the files it names.
pub struct RepairContext<'a> {
    pub error: &'a ParsedError,
    pub analysis: &'a DiagnosticAnalysis,
    /// `(file, text)` entries; the last entry for a file counts.
    pub sources: Vec<(String, String)>,
}

/// The mathematical content of a [`RepairContext`]: the error and the
/// `(file, text)` entries.
pub struct CtxView {
    pub error: ErrorView,
    pub sources: Seq<(Seq<char>, Seq<char>)>,
}

impl<'a> View for RepairContext<'a> {
    type V = CtxView;

    open spec fn view(&self) -> CtxView {
        CtxView { error: self.error@, sources: sources_view(self.sources@) }
    }
}

impl CtxView {
    /// The text of `file`, if the context holds it.
    pub open spec fn source(self, file: Seq<char>) -> Option<Seq<char>> {
        source_of(self.sources, file)
    }

    /// Line `n` of `file`.
    pub open spec fn line_of(self, file: Seq<char>, n: u32) -> Option<Seq<char>> {
        match self.source(file) {
            Some(text) => line_spec(text, n),
            None => None,
        }
    }
}

impl<'a> RepairContext<'a> {
    /// A context over `sources`, `(file, text)` entries of which the last
    /// one for a file counts.
    pub fn new(
        error: &'a ParsedError,
        analysis: &'a DiagnosticAnalysis,
        sources: Vec<(String, String)>,
    ) -> (r: Self)
        ensures
            r.error == error,
            r.analysis == analysis,
            r@ == (CtxView { error: error@, sources: sources_view(sources@) }),
    {
        RepairContext { error, analysis, sources }
    }

    /// A context holding one source text, filed under the file of the first
    /// span; with no span it holds none.
    pub fn from_source(
        error: &'a ParsedError,
        analysis: &'a DiagnosticAnalysis,
        source_text: &'a str,
    ) -> (r: Self)
        ensures
            r.error == error,
            r.analysis == analysis,
            r@ == from_source_view(error@, source_text@),
    {
        let mut sources: Vec<(String, String)> = Vec::new();
        if error.spans.len() > 0 {
            sources.push((error.spans[0].file_name.clone(), String::from_str(source_text)));
        }
        let r = RepairContext::new(error, analysis, sources);
        proof {
            if error.spans.len() > 0 {
                assert(error@.spans[0] == error.spans@[0]@);
                assert(sources_view(sources@) =~= seq![(error@.spans[0].file_name, source_text@)]);
            } else {
                assert(sources_view(sources@) =~= Seq::<(Seq<char>, Seq<char>)>::empty());
            }
        }
        r
    }

    /// The first primary span of the error, or else its first span.
    pub fn primary_span(&self) -> (r: Option<&Span>)
        ensures
            match context_span(self.error@.spans) {
                Some(s) => r matches Some(x) && x@ == s,
                None => r is None,
            },
    {
        match self.error.primary_span() {
            Some(s) => {
                proof {
                    let i = choose|i: int|
                        0 <= i < self.error.spans@.len() && self.error.spans@[i] == *s
                            && s.is_primary && forall|j: int|
                            0 <= j < i ==> !self.error.spans@[j].is_primary;
                    let sv = self.error@.spans;
                    assert(sv[i] == s@);
                    assert(sv[i].is_primary);
                    let c = choose|c: int|
                        0 <= c < sv.len() && sv[c].is_primary && forall|j: int|
                            0 <= j < c ==> !sv[j].is_primary;
                    if c < i {
                        assert(!self.error.spans@[c].is_primary);
                    } else if c > i {
                        assert(!sv[i].is_primary);
                    }
                }
                Some(s)
            },
            None => {
                proof {
                    let sv = self.error@.spans;
                    assert forall|i: int| 0 <= i < sv.len() implies !sv[i].is_primary by {
                        assert(sv[i] == self.error.spans@[i]@);
                    }
                }
                if self.error.spans.len() > 0 {
                    Some(&self.error.spans[0])
                } else {
                    None
                }
            },
        }
    }

    /// The file of [`Self::primary_span`].
    pub fn primary_file(&self) -> (r: Option<&str>)
        ensures
            match context_span(self.error@.spans) {
                Some(s) => r matches Some(x) && x@ == s.file_name,
                None => r is None,
            },
    {
        match self.primary_span() {
            Some(span) => Some(span.file_name.as_str()),
            None => None,
        }
    }

    /// Line `line_number` of `file` (1-based; 0 counts as 1).
    pub fn line(&self, file: &str, line_number: u32) -> (r: Option<String>)
        ensures
            opt_view(r) == self@.line_of(file@, line_number),
    {
        let mut found: Option<usize> = None;
        let mut i: usize = 0;
        let ghost sv = sources_view(self.sources@);
        while i < self.sources.len()
            invariant
                i <= self.sources.len(),
                sv == sources_view(self.sources@),
                match found {
                    Some(k) => k < i && source_of(sv.take(i as int), file@) == Some(sv[k as int].1),
                    None => source_of(sv.take(i as int), file@) is None,
                },
            decreases self.sources.len() - i,
        {
            assert(sv.take(i + 1).drop_last() =~= sv.take(i as int));
            if str_eq(self.sources[i].0.as_str(), file) {
                found = Some(i);
            }
            i = i + 1;
        }
        assert(sv.take(self.sources.len() as int) =~= sv);
        match found {
            None => None,
            Some(k) => {
                let lines = split_lines(self.sources[k].1.as_str());
                let li: usize = if line_number == 0 {
                    0
                } else {
                    (line_number - 1) as usize
                };
                if li < lines.len() {
                    assert(string_views(lines@)[li as int] == lines@[li as int]@);
                    Some(lines[li].clone())
                } else {
                    None
                }
            },
        }
    }
}


// ---------------------------------------------------------------------------
// Located spans, moved values and bindings
// ---------------------------------------------------------------------------

/// A compiler-reported location with its label.
#[derive(Debug)]
pub struct LocatedSpan {
    pub file: String,
    pub line: u32,
    pub column: u32,
    pub label: String,
}

/// The mathematical content of a [`LocatedSpan`].
pub struct LocatedView {
    pub file: Seq<char>,
    pub line: u32,
    pub column: u32,
    pub label: Seq<char>,
}

impl View for LocatedSpan {
    type V = LocatedView;

    open spec fn view(&self) -> LocatedView {
        LocatedView { file: self.file@, line: self.line, column: self.column, label: self.label@ }
    }
}

impl Clone for LocatedSpan {
    fn clone(&self) -> (r: Self)
        ensures
            r@ == self@,
    {
        LocatedSpan {
            file: self.file.clone(),
            line: self.line,
            column: self.column,
            label: self.label.clone(),
        }
    }
}

/// The location of a span: its file, first line and column, and its label
/// (empty when it has none).
pub open spec fn located(s: SpanView) -> LocatedView {
    LocatedView {
        file: s.file_name,
        line: s.line_start,
        column: s.column_start,
        label: match s.label {
            Some(l) => l,
            None => Seq::empty(),
        },
    }
}

/// The location of an optional span.
pub open spec fn located_opt(s: Option<SpanView>) -> Option<LocatedView> {
    match s {
        Some(x) => Some(located(x)),
        None => None,
    }
}

/// The view of an optional location.
pub open spec fn located_view(l: Option<LocatedSpan>) -> Option<LocatedView> {
    match l {
        Some(x) => Some(x@),
        None => None,
    }
}

impl LocatedSpan {
    /// The location of `span`.
    pub fn from_span(span: &Span) -> (r: Self)
        ensures
            r@ == located(span@),
    {
        LocatedSpan {
            file: span.file_name.clone(),
            line: span.line_start,
            column: span.column_start,
            label: match &span.label {
                Some(l) => l.clone(),
                None => String::new(),
            },
        }
    }
}

/// Evidence that a value was moved and then used again.
#[derive(Debug)]
pub struct MovedVar {
    pub name: String,
    pub move_site: Option<LocatedSpan>,
    pub use_after_move: Option<LocatedSpan>,
}

/// The mathematical content of a [`MovedVar`].
pub struct MovedView {
    pub name: Seq<char>,
    pub move_site: Option<LocatedView>,
    pub use_after_move: Option<LocatedView>,
}

impl View for MovedVar {
    type V = MovedView;

    open spec fn view(&self) -> MovedView {
        MovedView {
            name: self.name@,
            move_site: located_view(self.move_site),
            use_after_move: located_view(self.use_after_move),
        }
    }
}

/// The `let` or `let mut` declaration of a binding.
#[derive(Debug)]
pub struct Binding {
    pub file: String,
    pub line: u32,
    /// Character column (1-based) where the pattern after `let ` starts.
    pub name_column: u32,
    /// Character column (1-based) where `mut ` is inserted.
    pub mut_insert_column: u32,
    pub is_mut: bool,
}

/// The mathematical content of a [`Binding`].
pub struct BindingView {
    pub file: Seq<char>,
    pub line: u32,
    pub name_column: u32,
    pub mut_insert_column: u32,
    pub is_mut: bool,
}

impl View for Binding {
    type V = BindingView;

    open spec fn view(&self) -> BindingView {
        BindingView {
            file: self.file@,
            line: self.line,
            name_column: self.name_column,
            mut_insert_column: self.mut_insert_column,
            is_mut: self.is_mut,
        }
    }
}

// ---------------------------------------------------------------------------
// Names in messages and labels
// ---------------------------------------------------------------------------

/// The text of `s` made only of characters that are alphanumeric or `_`.
pub open spec fn ident_chars(s: Seq<char>) -> bool {
    forall|i: int| 0 <= i < s.len() ==> alphanumeric(#[trigger] s[i]) || s[i] == '_'
}

/// The identifier between the first two backticks of `text`, trimmed; none
/// when it is empty or holds other characters.
pub open spec fn backticked(text: Seq<char>) -> Option<Seq<char>> {
    match find_spec(text, "`"@) {
        None => None,
        Some(s) => {
            let rest = text.skip(s + 1);
            match find_spec(rest, "`"@) {
                None => None,
                Some(e) => {
                    let name = trim_spec(rest.take(e));
                    if name.len() > 0 && ident_chars(name) {
                        Some(name)
                    } else {
                        None
                    }
                },
            }
        },
    }
}

/// The identifier between the first two backticks of `text`.
pub fn extract_backticked_identifier(text: &str) -> (r: Option<String>)
    ensures
        opt_view(r) == backticked(text@),
{
    let total = char_count(text);
    proof {
        reveal_strlit("`");
    }
    let s = match find_str(text, "`") {
        Some(s) => s,
        None => return None,
    };
    let rest = slice_from(text, s + 1);
    let e = match find_str(rest, "`") {
        Some(e) => e,
        None => return None,
    };
    let name = trim_str(slice(rest, 0, e));
    assert(rest@.subrange(0, e as int) =~= rest@.take(e as int));
    let n = char_count(name);
    if n == 0 || !all_ident_chars(name) {
        return None;
    }
    Some(String::from_str(name))
}

/// Is every character of `s` alphanumeric or `_`?
pub fn all_ident_chars(s: &str) -> (r: bool)
    ensures
        r == ident_chars(s@),
{
    let n = char_count(s);
    let mut i: usize = 0;
    while i < n
        invariant
            n == s@.len(),
            i <= n,
            forall|j: int| 0 <= j < i ==> alphanumeric(#[trigger] s@[j]) || s@[j] == '_',
        decreases n - i,
    {
        let c = s.get_char(i);
        if !(is_alphanumeric(c) || c == '_') {
            return false;
        }
        i = i + 1;
    }
    true
}

/// The name that follows `prefix` at the start of `msg`, up to the next
/// backtick; none when it is empty.
pub open spec fn name_after(msg: Seq<char>, prefix: Seq<char>) -> Option<Seq<char>> {
    if starts_with_spec(msg, prefix) {
        let rest = msg.skip(prefix.len() as int);
        match find_spec(rest, "`"@) {
            Some(e) => if e > 0 {
                Some(rest.take(e))
            } else {
                None
            },
            None => None,
        }
    } else {
        None
    }
}

/// The moved value a message names: `use of moved value: `x``,
/// `borrow of moved value: `x``, `move out of `x`` or `cannot move out of
/// `x``, tried in that order.
pub open spec fn name_from_message(msg: Seq<char>) -> Option<Seq<char>> {
    match name_after(msg, "use of moved value: `"@) {
        Some(n) => Some(n),
        None => match name_after(msg, "borrow of moved value: `"@) {
            Some(n) => Some(n),
            None => match name_after(msg, "move out of `"@) {
                Some(n) => Some(n),
                None => name_after(msg, "cannot move out of `"@),
            },
        },
    }
}

fn name_after_exec(msg: &str, prefix: &str) -> (r: Option<String>)
    ensures
        opt_view(r) == name_after(msg@, prefix@),
{
    if !starts_with_str(msg, prefix) {
        return None;
    }
    let rest = slice_from(msg, char_count(prefix));
    proof {
        reveal_strlit("`");
    }
    match find_str(rest, "`") {
        Some(e) => if e > 0 {
            assert(rest@.subrange(0, e as int) =~= rest@.take(e as int));
            Some(String::from_str(slice(rest, 0, e)))
        } else {
            None
        },
        None => None,
    }
}

/// A lowered label that speaks of a moved value.
pub open spec fn names_moved_value(low: Seq<char>) -> bool {
    ||| contains_spec(low, "moved here"@)
    ||| contains_spec(low, "borrowed here after move"@)
    ||| contains_spec(low, "used here after move"@)
    ||| contains_spec(low, "value moved"@)
}

/// Does a lowercased label speak of a moved value?
pub fn mentions_moved_value(lowered: &str) -> (r: bool)
    ensures
        r == names_moved_value(lowered@),
{
    contains_str(lowered, "moved here") || contains_str(lowered, "borrowed here after move")
        || contains_str(lowered, "used here after move") || contains_str(lowered, "value moved")
}

/// The first span, from the front, whose lowered label speaks of a moved
/// value and holds a backticked identifier: that identifier.
pub open spec fn name_from_spans(spans: Seq<SpanView>) -> Option<Seq<char>>
    decreases spans.len(),
{
    if spans.len() == 0 {
        None
    } else {
        match spans[0].label {
            Some(l) => if names_moved_value(lowercase(l)) && backticked(l) is Some {
                backticked(l)
            } else {
                name_from_spans(spans.drop_first())
            },
            None => name_from_spans(spans.drop_first()),
        }
    }
}

/// The name of the moved value: from the message, or else from the labels.
pub open spec fn moved_name(e: ErrorView) -> Option<Seq<char>> {
    match name_from_message(e.raw_message) {
        Some(n) => Some(n),
        None => name_from_spans(e.spans),
    }
}

/// The name of the value an ownership diagnostic reports as moved.
pub fn extract_moved_var_name(error: &ParsedError) -> (r: Option<String>)
    ensures
        opt_view(r) == moved_name(error@),
{
    let msg = error.raw_message.as_str();
    if let Some(n) = name_after_exec(msg, "use of moved value: `") {
        return Some(n);
    }
    if let Some(n) = name_after_exec(msg, "borrow of moved value: `") {
        return Some(n);
    }
    if let Some(n) = name_after_exec(msg, "move out of `") {
        return Some(n);
    }
    if let Some(n) = name_after_exec(msg, "cannot move out of `") {
        return Some(n);
    }
    let ghost sv = error@.spans;
    let mut i: usize = 0;
    assert(sv.skip(0) =~= sv);
    while i < error.spans.len()
        invariant
            i <= error.spans.len(),
            sv == error@.spans,
            sv.len() == error.spans@.len(),
            name_from_spans(sv) == name_from_spans(sv.skip(i as int)),
            name_from_message(error@.raw_message) is None,
        decreases error.spans.len() - i,
    {
        assert(sv.skip(i as int).drop_first() =~= sv.skip(i + 1));
        assert(sv.skip(i as int)[0] == error.spans@[i as int]@);
        if let Some(label) = &error.spans[i].label {
            let low = to_lowercase(label.as_str());
            assert(sv.skip(i as int)[0].label == Some(label@));
            if mentions_moved_value(low.as_str()) {
                if let Some(name) = extract_backticked_identifier(label.as_str()) {
                    assert(name_from_spans(sv.skip(i as int)) == backticked(label@));
                    return Some(name);
                }
            }
        }
        i = i + 1;
    }
    None
}

/// A lowered label that reports where a value was moved.
pub open spec fn is_move_label(low: Seq<char>) -> bool {
    contains_spec(low, "moved here"@) || contains_spec(low, "move occurs"@)
}

/// A lowered label that reports a use after the move.
pub open spec fn is_use_label(low: Seq<char>) -> bool {
    contains_spec(low, "used here after move"@) || contains_spec(low, "borrowed here after move"@)
}

/// Does a lowercased label report where a value was moved?
pub fn mentions_move(lowered: &str) -> (r: bool)
    ensures
        r == is_move_label(lowered@),
{
    contains_str(lowered, "moved here") || contains_str(lowered, "move occurs")
}

/// Does a lowercased label report a use after a move?
pub fn mentions_use_after_move(lowered: &str) -> (r: bool)
    ensures
        r == is_use_label(lowered@),
{
    contains_str(lowered, "used here after move") || contains_str(lowered, "borrowed here after move")
}

/// The first span, from the front, whose label reports the move.
pub open spec fn first_move(spans: Seq<SpanView>) -> Option<SpanView>
    decreases spans.len(),
{
    if spans.len() == 0 {
        None
    } else {
        match spans[0].label {
            Some(l) => if is_move_label(lowercase(l)) {
                Some(spans[0])
            } else {
                first_move(spans.drop_first())
            },
            None => first_move(spans.drop_first()),
        }
    }
}

/// The last span whose label reports a use after the move (and not the move).
pub open spec fn last_use(spans: Seq<SpanView>) -> Option<SpanView>
    decreases spans.len(),
{
    if spans.len() == 0 {
        None
    } else {
        match spans.last().label {
            Some(l) => if !is_move_label(lowercase(l)) && is_use_label(lowercase(l)) {
                Some(spans.last())
            } else {
                last_use(spans.drop_last())
            },
            None => last_use(spans.drop_last()),
        }
    }
}

/// Does `token` stand at the `k`-th character of `line` as a bare call
/// argument: after an opening parenthesis on that line, not right after `&`,
/// not followed by `.clone()`, and with a closing parenthesis after it?
pub open spec fn call_argument_at(line: Seq<char>, token: Seq<char>, k: int) -> bool {
    let before = line.take(k);
    let after = line.skip(k + token.len());
    &&& contains_spec(before, "("@)
    &&& before.len() > 0
    &&& before.last() != '&'
    &&& !starts_with_spec(after, ".clone()"@)
    &&& contains_spec(after, ")"@)
}

/// The `let` on a line that declares `name`: where its pattern starts
/// (a character index) and whether it is `let mut`.
pub open spec fn let_decl(line: Seq<char>, name: Seq<char>) -> Option<(int, bool)> {
    match token_at(line, "let"@) {
        None => None,
        Some(k) => {
            let after_let = trim_start_spec(line.skip(k + 3));
            let start = line.len() - after_let.len();
            let is_mut = starts_with_spec(after_let, "mut "@) || starts_with_spec(
                after_let,
                "mut\t"@,
            );
            let pattern = if is_mut {
                trim_start_spec(after_let.skip(3))
            } else {
                after_let
            };
            if token_at(pattern, name) is Some {
                Some((start, is_mut))
            } else {
                None
            }
        },
    }
}

impl CtxView {
    /// Is `token` a bare argument of a call on line `n` of `file`?
    pub open spec fn call_argument(self, token: Seq<char>, file: Seq<char>, n: u32) -> bool {
        match self.line_of(file, n) {
            None => false,
            Some(line) => match token_at(line, token) {
                None => false,
                Some(k) => call_argument_at(line, token, k),
            },
        }
    }

    /// The first span, from the front, that is a call argument for `name`.
    pub open spec fn first_call_site(self, name: Seq<char>, spans: Seq<SpanView>) -> Option<SpanView>
        decreases spans.len(),
    {
        if spans.len() == 0 {
            None
        } else if self.call_argument(name, spans[0].file_name, spans[0].line_start) {
            Some(spans[0])
        } else {
            self.first_call_site(name, spans.drop_first())
        }
    }

    /// What [`Self::moved_var`] returns.
    pub open spec fn moved_var_spec(self) -> Option<MovedView> {
        match moved_name(self.error) {
            None => None,
            Some(n) => Some(
                MovedView {
                    name: n,
                    move_site: match first_move(self.error.spans) {
                        Some(s) => Some(located(s)),
                        None => located_opt(self.first_call_site(n, self.error.spans)),
                    },
                    use_after_move: located_opt(last_use(self.error.spans)),
                },
            ),
        }
    }

    /// The declaration of `name` found scanning lines `l`, `l - 1`, ...,
    /// `lo` of `file`, upward from `l`: the nearest one wins, and a line that
    /// is missing ends the scan with none.
    pub open spec fn binding_scan(self, file: Seq<char>, name: Seq<char>, l: int, lo: int) -> Option<BindingView>
        decreases l - lo + 1,
    {
        if l < lo || l < 0 || l > u32::MAX {
            None
        } else {
            match self.line_of(file, l as u32) {
                None => None,
                Some(line) => match let_decl(line, name) {
                    Some(d) => if line.len() < u32::MAX {
                        Some(
                            BindingView {
                                file,
                                line: l as u32,
                                name_column: (d.0 + 1) as u32,
                                mut_insert_column: (d.0 + 1) as u32,
                                is_mut: d.1,
                            },
                        )
                    } else {
                        self.binding_scan(file, name, l - 1, lo)
                    },
                    None => self.binding_scan(file, name, l - 1, lo),
                },
            }
        }
    }

    /// What [`Self::binding`] returns.
    pub open spec fn binding_spec(self, name: Seq<char>, near: u32) -> Option<BindingView> {
        match context_span(self.error.spans) {
            None => None,
            Some(s) => {
                let depth: int = if near < 60 {
                    near as int
                } else {
                    60
                };
                self.binding_scan(s.file_name, name, near - 1, near - depth)
            },
        }
    }

}

impl<'a> RepairContext<'a> {
    /// Is the token at the reported location a bare argument of a call on
    /// the same line?
    pub fn is_call_argument(&self, token: &str, file: &str, line_number: u32) -> (r: bool)
        ensures
            r == self@.call_argument(token@, file@, line_number),
    {
        let line = match self.line(file, line_number) {
            Some(l) => l,
            None => return false,
        };
        let text = line.as_str();
        let total = char_count(text);
        let k = match find_token(text, token) {
            Some(k) => k,
            None => return false,
        };
        let m = char_count(token);
        let before = slice(text, 0, k);
        let after = slice_from(text, k + m);
        assert(text@.subrange(0, k as int) =~= text@.take(k as int));
        let nb = char_count(before);
        let before_ok = contains_str(before, "(") && nb > 0 && before.get_char(nb - 1) != '&'
            && !starts_with_str(after, ".clone()");
        before_ok && contains_str(after, ")")
    }

    /// A value the compiler reports as moved, where it was moved (a label
    /// saying so, or else the first span where it is a call argument) and
    /// where it was used afterwards. The evidence comes from the message and
    /// the labels, never from the error code.
    pub fn moved_var(&self) -> (r: Option<MovedVar>)
        ensures
            match self@.moved_var_spec() {
                Some(m) => r matches Some(x) && x@ == m,
                None => r is None,
            },
    {
        let name = match extract_moved_var_name(self.error) {
            Some(n) => n,
            None => return None,
        };
        let ghost sv = self.error@.spans;
        let mut move_site: Option<LocatedSpan> = None;
        let mut use_after_move: Option<LocatedSpan> = None;
        let mut i: usize = 0;
        assert(sv.skip(0) =~= sv);
        assert(sv.take(0) =~= Seq::<SpanView>::empty());
        while i < self.error.spans.len()
            invariant
                i <= self.error.spans.len(),
                sv == self.error@.spans,
                sv.len() == self.error.spans@.len(),
                move_site is Some ==> first_move(sv) is Some && located_view(move_site) == Some(
                    located(first_move(sv).unwrap()),
                ),
                move_site is None ==> first_move(sv) == first_move(sv.skip(i as int)),
                located_view(use_after_move) == located_opt(last_use(sv.take(i as int))),
            decreases self.error.spans.len() - i,
        {
            let span = &self.error.spans[i];
            assert(sv.skip(i as int).drop_first() =~= sv.skip(i + 1));
            assert(sv.skip(i as int)[0] == span@);
            assert(sv.take(i + 1).drop_last() =~= sv.take(i as int));
            assert(sv.take(i + 1).last() == span@);
            if let Some(label) = &span.label {
                let low = to_lowercase(label.as_str());
                if mentions_move(low.as_str()) {
                    if move_site.is_none() {
                        move_site = Some(LocatedSpan::from_span(span));
                    }
                } else if mentions_use_after_move(low.as_str()) {
                    use_after_move = Some(LocatedSpan::from_span(span));
                }
            }
            i = i + 1;
        }
        assert(sv.take(sv.len() as int) =~= sv);
        assert(sv.skip(sv.len() as int) =~= Seq::<SpanView>::empty());
        if move_site.is_none() {
            let mut j: usize = 0;
            let ghost nm = name@;
            assert(sv.skip(0) =~= sv);
            while j < self.error.spans.len() && move_site.is_none()
                invariant
                    j <= self.error.spans.len(),
                    sv == self.error@.spans,
                    sv.len() == self.error.spans@.len(),
                    nm == name@,
                    first_move(sv) is None,
                    move_site is None ==> self@.first_call_site(nm, sv) == self@.first_call_site(
                        nm,
                        sv.skip(j as int),
                    ),
                    move_site is Some ==> located_view(move_site) == located_opt(
                        self@.first_call_site(nm, sv),
                    ),
                decreases self.error.spans.len() - j,
            {
                let span = &self.error.spans[j];
                assert(sv.skip(j as int).drop_first() =~= sv.skip(j + 1));
                assert(sv.skip(j as int)[0] == span@);
                if self.is_call_argument(name.as_str(), span.file_name.as_str(), span.line_start) {
                    move_site = Some(LocatedSpan::from_span(span));
                }
                j = j + 1;
            }
            assert(sv.skip(sv.len() as int) =~= Seq::<SpanView>::empty());
        }
        Some(MovedVar { name, move_site, use_after_move })
    }

    /// The nearest `let` declaration of `name` in the primary file above
    /// `near_line`, scanning upward through at most 60 lines (a line that
    /// does not exist ends the search); lines of `u32::MAX` characters or
    /// more are passed over.
    pub fn binding(&self, name: &str, near_line: u32) -> (r: Option<Binding>)
        ensures
            match self@.binding_spec(name@, near_line) {
                Some(b) => r matches Some(x) && x@ == b,
                None => r is None,
            },
    {
        let file = match self.primary_file() {
            Some(f) => f,
            None => return None,
        };
        let depth: u32 = if near_line < 60 {
            near_line
        } else {
            60
        };
        let lo: u32 = near_line - depth;
        let mut l: u32 = near_line;
        while l > lo
            invariant
                lo <= l <= near_line,
                lo == near_line - depth,
                self@.binding_spec(name@, near_line) == self@.binding_scan(
                    file@,
                    name@,
                    l - 1,
                    lo as int,
                ),
            decreases l,
        {
            l = l - 1;
            let line = match self.line(file, l) {
                Some(t) => t,
                None => return None,
            };
            let text = line.as_str();
            let n = char_count(text);
            proof {
                reveal_strlit("let");
                reveal_strlit("mut ");
                reveal_strlit("mut\t");
            }
            if let Some(k) = find_token(text, "let") {
                let tail = slice_from(text, k + 3);
                let after_let = trim_start_str(tail);
                proof {
                    crate::text::lemma_trim_start_is_skip(tail@);
                }
                let start_col = n - char_count(after_let);
                let is_mut = starts_with_str(after_let, "mut ") || starts_with_str(after_let, "mut\t");
                let pattern = if is_mut {
                    trim_start_str(slice_from(after_let, 3))
                } else {
                    after_let
                };
                if find_token(pattern, name).is_some() && n < 0xFFFF_FFFFusize {
                    return Some(
                        Binding {
                            file: String::from_str(file),
                            line: l,
                            name_column: (start_col + 1) as u32,
                            mut_insert_column: (start_col + 1) as u32,
                            is_mut,
                        },
                    );
                }
            }
        }
        None
    }
}

} // verus!
