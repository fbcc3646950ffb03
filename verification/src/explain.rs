//! Plain-language explanations of compiler errors, assembled from the
//! compiler's own span labels and line numbers.

use crate::analyzer::DiagnosticAnalysis;
use crate::diagnostics::{opt_view, ErrorView, ParsedError, Span, SpanView, SuggestionView, spans_view};
use crate::sorting::{lemma_insert_stable, lemma_stable_empty, lemma_stable_sort_unique, stable_sort_of};
use crate::text::{
    char_count, contains_spec, occurs_at, contains_str, dec, push_dec, starts_with_spec, starts_with_str,
    str_eq, trim_spec, trim_str,
};
use vstd::prelude::*;
use vstd::string::StringExecFns;

verus! {

/// The explanation of one error.
#[derive(Debug)]
pub struct Explanation {
    pub title: String,
    pub plain_summary: String,
    pub fix_options: Vec<String>,
    pub concept: Option<String>,
    pub principle: Option<String>,
}

/// The mathematical content of an [`Explanation`].
pub struct ExplanationView {
    pub title: Seq<char>,
    pub summary: Seq<char>,
    pub fix_options: Seq<Seq<char>>,
    pub concept: Option<Seq<char>>,
    pub principle: Option<Seq<char>>,
}

/// The views of a list of strings.
pub open spec fn strs(v: Seq<String>) -> Seq<Seq<char>> {
    v.map_values(|s: String| s@)
}

impl View for Explanation {
    type V = ExplanationView;

    open spec fn view(&self) -> ExplanationView {
        ExplanationView {
            title: self.title@,
            summary: self.plain_summary@,
            fix_options: strs(self.fix_options@),
            concept: opt_view(self.concept),
            principle: opt_view(self.principle),
        }
    }
}

// ---------------------------------------------------------------------------
// Fixed texts
// ---------------------------------------------------------------------------

pub const OWNERSHIP: &'static str = "Ownership";
pub const BORROWING: &'static str = "Borrowing";
pub const LIFETIMES: &'static str = "Lifetimes";
pub const MUTABILITY: &'static str = "Mutability";
pub const TRAITS: &'static str = "Traits";
pub const METHODS_TRAITS: &'static str = "Methods & Traits";
pub const TYPE_INFERENCE: &'static str = "Type Inference";
pub const PATHS_MODULES: &'static str = "Paths & Modules";
pub const TYPES: &'static str = "Types";

pub const PRINCIPLE_OWNERSHIP: &'static str = "Every value has exactly one owner at a time. Moving it to a new owner leaves the old binding invalid, so it can no longer be used.";
pub const PRINCIPLE_BORROWING: &'static str = "At any moment a value can have either many immutable references or one mutable reference — never both, because concurrent reads and writes would race.";
pub const PRINCIPLE_LIFETIMES: &'static str = "A reference must never outlive the data it points to. Each borrow carries a lifetime, which the compiler checks to guarantee dangling references cannot exist.";
pub const PRINCIPLE_MUTABILITY: &'static str = "Bindings are read-only by default. Declaring `mut` is you, the programmer, stating that you intend to write to the value.";
pub const PRINCIPLE_TRAITS: &'static str = "Traits are Rust's contracts: a type only gains the behavior described by a trait when it implements that trait (or the trait is otherwise in scope).";
pub const PRINCIPLE_METHODS: &'static str = "A method call only works if the type provides that method — either defined on the type itself or via a trait that is in scope.";
pub const PRINCIPLE_INFERENCE: &'static str = "Rust usually infers types from usage. When the code alone doesn't pin the type down, the compiler asks you to state it explicitly.";
pub const PRINCIPLE_PATHS: &'static str = "A name is usable only if it can be resolved: the item must exist and be reachable from the path you wrote.";

// ---------------------------------------------------------------------------
// Specification
// ---------------------------------------------------------------------------

/// The rule behind a concept, for the concepts that have one.
pub open spec fn principle_spec(concept: Seq<char>) -> Option<Seq<char>> {
    if concept == OWNERSHIP@ {
        Some(PRINCIPLE_OWNERSHIP@)
    } else if concept == BORROWING@ {
        Some(PRINCIPLE_BORROWING@)
    } else if concept == LIFETIMES@ {
        Some(PRINCIPLE_LIFETIMES@)
    } else if concept == MUTABILITY@ {
        Some(PRINCIPLE_MUTABILITY@)
    } else if concept == TRAITS@ {
        Some(PRINCIPLE_TRAITS@)
    } else if concept == METHODS_TRAITS@ {
        Some(PRINCIPLE_METHODS@)
    } else if concept == TYPE_INFERENCE@ || concept == TYPES@ {
        Some(PRINCIPLE_INFERENCE@)
    } else if concept == PATHS_MODULES@ {
        Some(PRINCIPLE_PATHS@)
    } else {
        None
    }
}

/// A labelled line: the line number and the non-empty label reported there.
pub type LineLabel = (u32, Seq<char>);

/// The non-empty span labels with their lines, in span order.
pub open spec fn labels_of(spans: Seq<SpanView>) -> Seq<LineLabel>
    decreases spans.len(),
{
    if spans.len() == 0 {
        Seq::empty()
    } else {
        let rest = labels_of(spans.drop_last());
        match spans.last().label {
            Some(l) => if l.len() > 0 {
                rest.push((spans.last().line_start, l))
            } else {
                rest
            },
            None => rest,
        }
    }
}

/// Labelled lines are ordered by line.
pub open spec fn line_key() -> spec_fn(LineLabel) -> int {
    |p: LineLabel| p.0 as int
}

/// The labels of `spans` ordered by line, keeping the span order among
/// labels on the same line.
pub open spec fn sorted_labels(spans: Seq<SpanView>) -> Seq<LineLabel> {
    choose|s: Seq<LineLabel>| stable_sort_of(s, labels_of(spans), line_key())
}

/// Index of the first entry at or after `i` that satisfies `pred`.
pub open spec fn first_from(ls: Seq<LineLabel>, pred: spec_fn(LineLabel) -> bool, i: int) -> Option<
    int,
>
    decreases ls.len() - i,
{
    if i < 0 || i >= ls.len() {
        None
    } else if pred(ls[i]) {
        Some(i)
    } else {
        first_from(ls, pred, i + 1)
    }
}

/// Index of the first entry that satisfies `pred`.
pub open spec fn first_idx(ls: Seq<LineLabel>, pred: spec_fn(LineLabel) -> bool) -> Option<int> {
    first_from(ls, pred, 0)
}

/// The label mentions one of `pats`.
pub open spec fn mentions_any(l: Seq<char>, pats: Seq<Seq<char>>) -> bool {
    exists|k: int| 0 <= k < pats.len() && contains_spec(l, pats[k])
}

/// An explanation without a principle yet.
pub open spec fn ev(
    title: Seq<char>,
    summary: Seq<char>,
    fixes: Seq<Seq<char>>,
    concept: Option<Seq<char>>,
) -> ExplanationView {
    ExplanationView { title, summary, fix_options: fixes, concept, principle: None }
}

/// `raw. label (line n).`
pub open spec fn label_line_sentence(raw: Seq<char>, line: u32, label: Seq<char>) -> Seq<char> {
    raw + ". "@ + label + " (line "@ + dec(line as nat) + ")."@
}

/// Summary for the diagnostics that cite their first labelled line.
pub open spec fn first_label_line_summary(e: ErrorView) -> Seq<char> {
    let ls = sorted_labels(e.spans);
    if ls.len() > 0 {
        label_line_sentence(e.raw_message, ls[0].0, ls[0].1)
    } else {
        e.raw_message
    }
}

/// Summary for the diagnostics that quote their first label.
pub open spec fn first_label_summary(e: ErrorView) -> Seq<char> {
    let ls = sorted_labels(e.spans);
    if ls.len() > 0 {
        e.raw_message + ". "@ + ls[0].1
    } else {
        e.raw_message
    }
}

/// `raw. l0 (line a), sep l1 (line b).` for the first and `j`-th labels,
/// when there are at least two labels.
pub open spec fn two_label_summary(e: ErrorView, sep: Seq<char>, use_last: bool) -> Seq<char> {
    let ls = sorted_labels(e.spans);
    let j = if use_last {
        ls.len() - 1
    } else {
        1
    };
    if ls.len() >= 2 {
        e.raw_message + ". "@ + ls[0].1 + " (line "@ + dec(ls[0].0 as nat) + "), "@ + sep + ls[j].1
            + " (line "@ + dec(ls[j].0 as nat) + ")."@
    } else {
        e.raw_message
    }
}

pub open spec fn moved_pats() -> Seq<Seq<char>> {
    seq!["moved here"@, "move occurs"@, "value moved"@]
}

pub open spec fn used_after_move_pats() -> Seq<Seq<char>> {
    seq!["used here after move"@, "borrowed here after move"@]
}

/// A label that reports where a value was moved.
pub open spec fn moved_pred() -> spec_fn(LineLabel) -> bool {
    |p: LineLabel| mentions_any(p.1, moved_pats())
}

/// A label on another line than `move_line` that reports a use after the move.
pub open spec fn used_pred(move_line: u32) -> spec_fn(LineLabel) -> bool {
    |p: LineLabel| p.0 != move_line && mentions_any(p.1, used_after_move_pats())
}

/// A label that starts with `move out of`.
pub open spec fn move_out_pred() -> spec_fn(LineLabel) -> bool {
    |p: LineLabel| starts_with_spec(p.1, "move out of"@)
}

/// A label that mentions a later use of the borrow.
pub open spec fn later_used_pred() -> spec_fn(LineLabel) -> bool {
    |p: LineLabel| contains_spec(p.1, "later used here"@)
}

/// A label that reports where the borrowed value is dropped.
pub open spec fn dropped_pred() -> spec_fn(LineLabel) -> bool {
    |p: LineLabel| contains_spec(p.1, "dropped here"@)
}

/// Summary of a use of a moved value (E0382).
pub open spec fn moved_value_summary(e: ErrorView) -> Seq<char> {
    let ls = sorted_labels(e.spans);
    let raw = e.raw_message;
    let (move_line, move_label) = match first_idx(ls, moved_pred()) {
        Some(i) => (ls[i].0, ls[i].1),
        None => if ls.len() > 0 {
            (ls[0].0, ls[0].1)
        } else {
            (0u32, raw)
        },
    };
    match first_idx(ls, used_pred(move_line)) {
        Some(u) => raw + ". The value is moved "@ + move_label + " (line "@ + dec(move_line as nat)
            + "), then used again at line "@ + dec(ls[u].0 as nat) + "."@,
        None => if ls.len() >= 2 {
            raw + ". "@ + move_label + " (line "@ + dec(move_line as nat) + "), then used at line "@
                + dec(ls.last().0 as nat) + "."@
        } else {
            raw + ". "@ + move_label
        },
    }
}

/// Summary of a move out of a borrowed value (E0505).
pub open spec fn move_while_borrowed_summary(e: ErrorView) -> Seq<char> {
    let ls = sorted_labels(e.spans);
    let raw = e.raw_message;
    if ls.len() >= 2 {
        let move_line = match first_idx(ls, move_out_pred()) {
            Some(i) => ls[i].0,
            None => ls[0].0,
        };
        match first_idx(ls, later_used_pred()) {
            Some(h) => raw + ". The value is moved at line "@ + dec(move_line as nat) + ", while "@
                + ls[h].1 + "."@,
            None => raw + ". Move occurs at line "@ + dec(move_line as nat) + "."@,
        }
    } else {
        raw
    }
}

/// Summary of a borrowed value that does not live long enough (E0597).
pub open spec fn not_long_enough_summary(e: ErrorView) -> Seq<char> {
    let ls = sorted_labels(e.spans);
    let raw = e.raw_message;
    if ls.len() >= 2 {
        match (
            first_idx(ls, dropped_pred()),
            first_idx(ls, later_used_pred()),
        ) {
            (Some(d), Some(u)) => raw + ". "@ + ls[d].1 + " at line "@ + dec(ls[d].0 as nat)
                + ", then "@ + ls[u].1 + "."@,
            _ => raw,
        }
    } else {
        raw
    }
}

/// The fix line for one compiler suggestion.
pub open spec fn suggestion_fix_line(s: SuggestionView) -> Seq<char> {
    let where_to = s.file + ":"@ + dec(s.line as nat);
    let what = if trim_spec(s.replacement).len() == 0 {
        "remove the flagged text"@
    } else {
        "replace it with `"@ + trim_spec(s.replacement) + "`"@
    };
    match s.label {
        Some(l) => where_to + ": "@ + l + " — "@ + what,
        None => where_to + ": "@ + what,
    }
}

/// The explanation of an error code without a dedicated explanation.
pub open spec fn generic_spec(e: ErrorView) -> ExplanationView {
    let fixes = if e.suggestions.len() > 0 {
        e.suggestions.map_values(|s: SuggestionView| suggestion_fix_line(s)).push(
            "This suggestion comes directly from the compiler; apply it, then re-run to verify."@,
        )
    } else {
        seq![
            "Inspect the compiler evidence and source context above."@,
            "Check the related source locations mentioned by the compiler."@,
        ]
    };
    ev(
        "Rust compiler error "@ + e.code,
        "Rust reported: "@ + e.raw_message,
        fixes,
        None,
    )
}

/// Summary and fix options for a type mismatch between two named types.
pub open spec fn classify_spec(expected: Seq<char>, found: Seq<char>) -> (Seq<char>, Seq<Seq<char>>) {
    if expected == "i32"@ && found == "&str"@ {
        (
            "Rust expected an integer of type `i32`, but the code provided a string slice of type `&str`. The value cannot be used as an integer."@,
            seq![
                "Replace the string value with an integer, for example `42`."@,
                "If the value should be text, change the variable type to `String` or `&str`."@,
            ],
        )
    } else if expected == "i64"@ && found == "&str"@ {
        (
            "Rust expected an integer of type `i64`, but the code provided a string slice of type `&str`."@,
            seq![
                "Replace the string with an `i64` value."@,
                "If the value comes from text input, parse it into `i64`."@,
            ],
        )
    } else if (expected == "f32"@ || expected == "f64"@) && found == "&str"@ {
        (
            "Rust expected a floating-point value of type `"@ + expected
                + "`, but the code provided a string slice of type `&str`."@,
            seq![
                "Replace the string with a `"@ + expected + "` value."@,
                "If the value comes from text, parse the string into `"@ + expected + "`."@,
            ],
        )
    } else if expected == "String"@ && found == "&str"@ {
        (
            "Rust expected an owned `String`, but the code provided a string slice `&str`. A string literal such as `\"hello\"` normally has type `&str`."@,
            seq!["Convert the string slice using `.to_string()`."@, "Convert it using `String::from(...)`."@],
        )
    } else if expected == "&str"@ && found == "String"@ {
        (
            "Rust expected a borrowed string slice `&str`, but the code provided an owned `String`. The String needs to be borrowed when an `&str` is required."@,
            seq!["Borrow the String using `&value`."@, "Use `.as_str()` when an `&str` is required."@],
        )
    } else if expected == "i32"@ && (found == "f32"@ || found == "f64"@) {
        (
            "Rust expected an integer of type `i32`, but the code provided a floating-point value of type `"@
                + found
                + "`. Rust does not automatically convert between these numeric types."@,
            seq![
                "Use an integer value if `i32` is intended."@,
                "Convert the value explicitly if a floating-point value is intended."@,
            ],
        )
    } else if (expected == "f32"@ || expected == "f64"@) && found == "i32"@ {
        (
            "Rust expected a floating-point value of type `"@ + expected
                + "`, but the code provided an integer of type `i32`."@,
            seq![
                "Convert the integer explicitly to `"@ + expected + "`."@,
                "Change the expected type to `i32` if an integer is intended."@,
            ],
        )
    } else if expected == "bool"@ && (found == "i32"@ || found == "i64"@) {
        (
            "Rust expected a boolean value, but the code provided an integer of type `"@ + found
                + "`. Rust does not automatically treat integers as booleans."@,
            seq![
                "Use `true` or `false` when a boolean is required."@,
                "If the integer represents a condition, compare it explicitly."@,
            ],
        )
    } else {
        (
            "Rust expected a value of type `"@ + expected + "`, but the code provided a value of type `"@
                + found + "`. These types are incompatible in this context."@,
            seq![
                "Change the provided value so that it has type `"@ + expected + "`."@,
                "If `"@ + found + "` is the intended type, change the expected type."@,
            ],
        )
    }
}

/// The expected type is named, backticked, right before
/// `, but the code provided `.
pub open spec fn names_expected(summary: Seq<char>, x: Seq<char>) -> bool {
    exists|i: int| #[trigger] occurs_at(summary, "`"@ + x + "`, but the code provided "@, i)
}

/// The found type is named, backticked, after `, but the code provided `.
pub open spec fn names_found(summary: Seq<char>, f: Seq<char>) -> bool {
    exists|i: int, j: int|
        #[trigger] occurs_at(summary, ", but the code provided "@, i) && i < j && #[trigger] occurs_at(
            summary,
            "`"@ + f + "`"@,
            j,
        )
}

proof fn lemma_names_shape(h: Seq<char>, x: Seq<char>, m: Seq<char>, f: Seq<char>, tail: Seq<char>)
    ensures
        names_expected(h + "`"@ + x + "`, but the code provided "@ + m + "`"@ + f + "`"@ + tail, x),
        names_found(h + "`"@ + x + "`, but the code provided "@ + m + "`"@ + f + "`"@ + tail, f),
{
    reveal_strlit("`");
    reveal_strlit("`, but the code provided ");
    reveal_strlit(", but the code provided ");
    let sep = ", but the code provided "@;
    let s = h + "`"@ + x + "`, but the code provided "@ + m + "`"@ + f + "`"@ + tail;
    let p = "`"@ + x + "`, but the code provided "@;
    let a = h + "`"@ + x + "`"@;
    let q = "`"@ + f + "`"@;
    assert("`, but the code provided "@ =~= "`"@ + sep);
    assert(s =~= h + p + (m + q + tail));
    assert(s =~= a + sep + m + q + tail);
    let i = h.len() as int;
    assert(s.subrange(i, i + p.len()) =~= p);
    assert(occurs_at(s, p, i));
    let i2 = a.len() as int;
    assert(s.subrange(i2, i2 + sep.len()) =~= sep);
    assert(occurs_at(s, sep, i2));
    let j = i2 + sep.len() + m.len();
    assert(s.subrange(j, j + q.len()) =~= q);
    assert(occurs_at(s, q, j));
}

proof fn lemma_found_shape(h: Seq<char>, m: Seq<char>, f: Seq<char>, tail: Seq<char>)
    ensures
        names_found(h + ", but the code provided "@ + m + "`"@ + f + "`"@ + tail, f),
{
    reveal_strlit("`");
    reveal_strlit(", but the code provided ");
    let s = h + ", but the code provided "@ + m + "`"@ + f + "`"@ + tail;
    let i = h.len() as int;
    assert(s.subrange(i, i + 24) =~= ", but the code provided "@);
    assert(occurs_at(s, ", but the code provided "@, i));
    let j = i + 24 + m.len();
    let q = "`"@ + f + "`"@;
    assert(s.subrange(j, j + q.len()) =~= q);
    assert(occurs_at(s, q, j));
}

/// A type-mismatch summary names the expected type as the one expected and
/// the found type as the one provided: the found type, backticked, comes
/// after "but the code provided", and (but for a boolean, which is named in
/// words) the expected type, backticked, comes right before it. For an
/// expected `String` and a found `&str` the advice converts the slice.
pub proof fn lemma_mismatch_names_types(x: Seq<char>, f: Seq<char>)
    ensures
        names_found(classify_spec(x, f).0, f),
        x != "bool"@ ==> names_expected(classify_spec(x, f).0, x),
        x == "String"@ && f == "&str"@ ==> classify_spec(x, f).1 == seq![
            "Convert the string slice using `.to_string()`."@,
            "Convert it using `String::from(...)`."@,
        ],
{
    reveal_strlit("`");
    reveal_strlit("`, but the code provided ");
    reveal_strlit(", but the code provided ");
    reveal_strlit("i32");
    reveal_strlit("i64");
    reveal_strlit("f32");
    reveal_strlit("f64");
    reveal_strlit("String");
    reveal_strlit("&str");
    reveal_strlit("bool");
    if x == "i32"@ && f == "&str"@ {
        reveal_strlit("&str");
        reveal_strlit(". The value cannot be used as an integer.");
        reveal_strlit("Rust expected an integer of type ");
        reveal_strlit("Rust expected an integer of type `i32`, but the code provided a string slice of type `&str`. The value cannot be used as an integer.");
        reveal_strlit("a string slice of type ");
        reveal_strlit("i32");
        assert("Rust expected an integer of type `i32`, but the code provided a string slice of type `&str`. The value cannot be used as an integer."@ =~= "Rust expected an integer of type "@ + "`"@ + "i32"@ + "`, but the code provided "@ + "a string slice of type "@ + "`"@ + "&str"@ + "`"@ + ". The value cannot be used as an integer."@);
        lemma_names_shape("Rust expected an integer of type "@, "i32"@, "a string slice of type "@, "&str"@, ". The value cannot be used as an integer."@);
    } else if x == "i64"@ && f == "&str"@ {
        reveal_strlit("&str");
        reveal_strlit(".");
        reveal_strlit("Rust expected an integer of type ");
        reveal_strlit("Rust expected an integer of type `i64`, but the code provided a string slice of type `&str`.");
        reveal_strlit("a string slice of type ");
        reveal_strlit("i64");
        assert("Rust expected an integer of type `i64`, but the code provided a string slice of type `&str`."@ =~= "Rust expected an integer of type "@ + "`"@ + "i64"@ + "`, but the code provided "@ + "a string slice of type "@ + "`"@ + "&str"@ + "`"@ + "."@);
        lemma_names_shape("Rust expected an integer of type "@, "i64"@, "a string slice of type "@, "&str"@, "."@);
    } else if (x == "f32"@ || x == "f64"@) && f == "&str"@ {
        reveal_strlit("&str");
        reveal_strlit(".");
        reveal_strlit("Rust expected a floating-point value of type ");
        reveal_strlit("Rust expected a floating-point value of type `");
        reveal_strlit("`, but the code provided a string slice of type `&str`.");
        reveal_strlit("a string slice of type ");
        assert("Rust expected a floating-point value of type `"@ + x + "`, but the code provided a string slice of type `&str`."@ =~= "Rust expected a floating-point value of type "@ + "`"@ + x + "`, but the code provided "@ + "a string slice of type "@ + "`"@ + "&str"@ + "`"@ + "."@);
        lemma_names_shape("Rust expected a floating-point value of type "@, x, "a string slice of type "@, "&str"@, "."@);
    } else if x == "String"@ && f == "&str"@ {
        reveal_strlit("&str");
        reveal_strlit(". A string literal such as `\"hello\"` normally has type `&str`.");
        reveal_strlit("Rust expected an owned ");
        reveal_strlit("Rust expected an owned `String`, but the code provided a string slice `&str`. A string literal such as `\"hello\"` normally has type `&str`.");
        reveal_strlit("String");
        reveal_strlit("a string slice ");
        assert("Rust expected an owned `String`, but the code provided a string slice `&str`. A string literal such as `\"hello\"` normally has type `&str`."@ =~= "Rust expected an owned "@ + "`"@ + "String"@ + "`, but the code provided "@ + "a string slice "@ + "`"@ + "&str"@ + "`"@ + ". A string literal such as `\"hello\"` normally has type `&str`."@);
        lemma_names_shape("Rust expected an owned "@, "String"@, "a string slice "@, "&str"@, ". A string literal such as `\"hello\"` normally has type `&str`."@);
    } else if x == "&str"@ && f == "String"@ {
        reveal_strlit("&str");
        reveal_strlit(". The String needs to be borrowed when an `&str` is required.");
        reveal_strlit("Rust expected a borrowed string slice ");
        reveal_strlit("Rust expected a borrowed string slice `&str`, but the code provided an owned `String`. The String needs to be borrowed when an `&str` is required.");
        reveal_strlit("String");
        reveal_strlit("an owned ");
        assert("Rust expected a borrowed string slice `&str`, but the code provided an owned `String`. The String needs to be borrowed when an `&str` is required."@ =~= "Rust expected a borrowed string slice "@ + "`"@ + "&str"@ + "`, but the code provided "@ + "an owned "@ + "`"@ + "String"@ + "`"@ + ". The String needs to be borrowed when an `&str` is required."@);
        lemma_names_shape("Rust expected a borrowed string slice "@, "&str"@, "an owned "@, "String"@, ". The String needs to be borrowed when an `&str` is required."@);
    } else if x == "i32"@ && (f == "f32"@ || f == "f64"@) {
        reveal_strlit(". Rust does not automatically convert between these numeric types.");
        reveal_strlit("Rust expected an integer of type ");
        reveal_strlit("Rust expected an integer of type `i32`, but the code provided a floating-point value of type `");
        reveal_strlit("`. Rust does not automatically convert between these numeric types.");
        reveal_strlit("a floating-point value of type ");
        reveal_strlit("i32");
        assert("Rust expected an integer of type `i32`, but the code provided a floating-point value of type `"@ + f + "`. Rust does not automatically convert between these numeric types."@ =~= "Rust expected an integer of type "@ + "`"@ + "i32"@ + "`, but the code provided "@ + "a floating-point value of type "@ + "`"@ + f + "`"@ + ". Rust does not automatically convert between these numeric types."@);
        lemma_names_shape("Rust expected an integer of type "@, "i32"@, "a floating-point value of type "@, f, ". Rust does not automatically convert between these numeric types."@);
    } else if (x == "f32"@ || x == "f64"@) && f == "i32"@ {
        reveal_strlit(".");
        reveal_strlit("Rust expected a floating-point value of type ");
        reveal_strlit("Rust expected a floating-point value of type `");
        reveal_strlit("`, but the code provided an integer of type `i32`.");
        reveal_strlit("an integer of type ");
        reveal_strlit("i32");
        assert("Rust expected a floating-point value of type `"@ + x + "`, but the code provided an integer of type `i32`."@ =~= "Rust expected a floating-point value of type "@ + "`"@ + x + "`, but the code provided "@ + "an integer of type "@ + "`"@ + "i32"@ + "`"@ + "."@);
        lemma_names_shape("Rust expected a floating-point value of type "@, x, "an integer of type "@, "i32"@, "."@);
    } else if x == "bool"@ && (f == "i32"@ || f == "i64"@) {
        reveal_strlit(". Rust does not automatically treat integers as booleans.");
        reveal_strlit("Rust expected a boolean value");
        reveal_strlit("Rust expected a boolean value, but the code provided an integer of type `");
        reveal_strlit("`. Rust does not automatically treat integers as booleans.");
        reveal_strlit("an integer of type ");
        reveal_strlit("bool");
        assert("Rust expected a boolean value, but the code provided an integer of type `"@ + f + "`. Rust does not automatically treat integers as booleans."@ =~= "Rust expected a boolean value"@ + ", but the code provided "@ + "an integer of type "@ + "`"@ + f + "`"@ + ". Rust does not automatically treat integers as booleans."@);
        lemma_found_shape("Rust expected a boolean value"@, "an integer of type "@, f, ". Rust does not automatically treat integers as booleans."@);
    } else {
        reveal_strlit(". These types are incompatible in this context.");
        reveal_strlit("Rust expected a value of type ");
        reveal_strlit("Rust expected a value of type `");
        reveal_strlit("`, but the code provided a value of type `");
        reveal_strlit("`. These types are incompatible in this context.");
        reveal_strlit("a value of type ");
        assert("Rust expected a value of type `"@ + x + "`, but the code provided a value of type `"@ + f + "`. These types are incompatible in this context."@ =~= "Rust expected a value of type "@ + "`"@ + x + "`, but the code provided "@ + "a value of type "@ + "`"@ + f + "`"@ + ". These types are incompatible in this context."@);
        lemma_names_shape("Rust expected a value of type "@, x, "a value of type "@, f, ". These types are incompatible in this context."@);
    }
}

/// The explanation of a type mismatch (E0308).
pub open spec fn types_spec(e: ErrorView, expected: Option<Seq<char>>, found: Option<Seq<char>>) -> ExplanationView {
    match (expected, found) {
        (Some(x), Some(f)) => ev(
            "Mismatched types (E0308)"@,
            classify_spec(x, f).0,
            classify_spec(x, f).1,
            Some(TYPES@),
        ),
        _ => ev(
            "Mismatched types (E0308)"@,
            "Rust found incompatible types. The compiler reported: "@ + e.raw_message,
            seq![
                "Check the type expected by this expression."@,
                "Check the type of the value being provided."@,
            ],
            Some(TYPES@),
        ),
    }
}

/// Use of a moved value (E0382).
pub open spec fn moved_value_spec(e: ErrorView) -> ExplanationView {
    ev(
        "Use of a moved value (E0382)"@,
        moved_value_summary(e),
        seq![
            "Borrow the value instead of moving it where possible."@,
            "Clone the value if an owned copy is acceptable."@,
            "Reorder the code so the value is used before it is moved."@,
        ],
        Some(OWNERSHIP@),
    )
}

/// Assignment to an immutable variable (E0384).
pub open spec fn immutable_assignment_spec(e: ErrorView) -> ExplanationView {
    ev(
        "Assignment to immutable variable (E0384)"@,
        two_label_summary(e, "then "@, true),
        seq![
            "Declare the variable with `mut` if it must change."@,
            "Use a new `let` binding instead of reassigning."@,
        ],
        Some(MUTABILITY@),
    )
}

/// Several simultaneous mutable borrows (E0499).
pub open spec fn multiple_mutable_borrows_spec(e: ErrorView) -> ExplanationView {
    ev(
        "Multiple mutable borrows (E0499)"@,
        two_label_summary(e, ""@, false),
        seq![
            "Reduce the number of simultaneous mutable borrows."@,
            "Scope each borrow so it ends before the next begins."@,
            "Use a single `&mut` if the borrows can be merged."@,
        ],
        Some(BORROWING@),
    )
}

/// A mutable borrow while an immutable one is active (E0500).
pub open spec fn borrow_with_existing_mut_spec(e: ErrorView) -> ExplanationView {
    ev(
        "Cannot borrow as mutable while an immutable borrow is active (E0500)"@,
        two_label_summary(e, "then "@, false),
        seq![
            "Scope the immutable borrow so it ends before the mutable borrow begins."@,
            "Use a non-mutating method instead of taking `&mut`."@,
            "If sharing is intended, avoid mutating while references exist."@,
        ],
        Some(BORROWING@),
    )
}

/// Conflicting borrows (E0502).
pub open spec fn borrow_conflict_spec(e: ErrorView) -> ExplanationView {
    ev(
        "Conflicting borrows (E0502)"@,
        two_label_summary(e, ""@, false),
        seq![
            "Ensure the immutable borrow ends before the mutable borrow begins."@,
            "Narrow the scope of the immutable borrow."@,
            "Clone the value if an owned copy is acceptable."@,
        ],
        Some(BORROWING@),
    )
}

/// Use of a value while it is mutably borrowed (E0503).
pub open spec fn moved_while_borrowed_spec(e: ErrorView) -> ExplanationView {
    let ls = sorted_labels(e.spans);
    ev(
        "Cannot use a value that has been moved while it is borrowed (E0503)"@,
        if ls.len() >= 2 {
            e.raw_message + ". "@ + ls[0].1 + " (line "@ + dec(ls[0].0 as nat)
                + "), and the borrow is used at line "@ + dec(ls[1].0 as nat) + "."@
        } else {
            e.raw_message
        },
        seq![
            "Keep the borrow alive until after the value's last use."@,
            "Clone the value if it needs to be both borrowed and moved."@,
            "Reorder so the move happens after the borrow is finished."@,
        ],
        Some(OWNERSHIP@),
    )
}

/// A move out of a borrowed value (E0505).
pub open spec fn move_while_borrowed_spec(e: ErrorView) -> ExplanationView {
    ev(
        "Cannot move with an active borrow (E0505)"@,
        move_while_borrowed_summary(e),
        seq!["End the borrow before moving the value."@, "Clone the value if it must be moved while borrowed."@],
        Some(OWNERSHIP@),
    )
}

/// Assignment to a borrowed variable (E0506).
pub open spec fn assign_while_borrowed_spec(e: ErrorView) -> ExplanationView {
    ev(
        "Cannot assign to a variable while it is borrowed (E0506)"@,
        two_label_summary(e, "then "@, false),
        seq![
            "Ensure the borrow ends before reassigning the variable."@,
            "Reduce the borrow's scope so it does not overlap the assignment."@,
            "Mutate via the reference if it is a `&mut` borrow."@,
        ],
        Some(BORROWING@),
    )
}

/// A returned reference to a local (E0515).
pub open spec fn return_referencing_local_spec(e: ErrorView) -> ExplanationView {
    let ls = sorted_labels(e.spans);
    ev(
        "Cannot return a reference to a local variable (E0515)"@,
        if ls.len() >= 2 {
            e.raw_message + ". The value is created at line "@ + dec(ls[0].0 as nat)
                + ", but returned as a reference at line "@ + dec(ls.last().0 as nat) + "."@
        } else {
            e.raw_message + ". The function returns a reference to a value that is local to it."@
        },
        seq![
            "Return the value by ownership instead of by reference."@,
            "Have the caller pass data in so it outlives the function."@,
            "Use a smart pointer like `Box` or `Rc` to extend the value's lifetime."@,
        ],
        Some(LIFETIMES@),
    )
}

/// Borrowed data escaping its function (E0521).
pub open spec fn borrowed_data_escapes_spec(e: ErrorView) -> ExplanationView {
    let ls = sorted_labels(e.spans);
    ev(
        "Borrowed data escapes outside of its function (E0521)"@,
        if ls.len() >= 2 {
            e.raw_message + ". The reference is captured at line "@ + dec(ls[0].0 as nat)
                + ", but it would escape the function at line "@ + dec(ls.last().0 as nat) + "."@
        } else {
            e.raw_message
        },
        seq![
            "Add a lifetime parameter so the borrowed data is tied to the caller."@,
            "Return the owned value instead of a reference into local data."@,
            "Use a reference that is valid for at least the function's return lifetime."@,
        ],
        Some(LIFETIMES@),
    )
}

/// A borrowed value that does not live long enough (E0597).
pub open spec fn borrowed_not_long_enough_spec(e: ErrorView) -> ExplanationView {
    ev(
        "Borrowed value does not live long enough (E0597)"@,
        not_long_enough_summary(e),
        seq![
            "Ensure the borrowed value lives at least as long as its borrow."@,
            "Extend the scope of the value or restructure so the reference is valid."@,
        ],
        Some(LIFETIMES@),
    )
}

/// A missing lifetime specifier (E0106).
pub open spec fn missing_lifetime_spec(e: ErrorView) -> ExplanationView {
    ev(
        "Missing lifetime specifier (E0106)"@,
        first_label_summary(e),
        seq![
            "Add a lifetime parameter, for example `<'a>`."@,
            "Use an explicit lifetime on the reference that is returned."@,
        ],
        Some(LIFETIMES@),
    )
}

/// An unsatisfied trait bound (E0277).
pub open spec fn trait_bound_spec(e: ErrorView) -> ExplanationView {
    ev(
        "Trait bound not satisfied ("@ + e.code + ")"@,
        first_label_summary(e),
        seq!["Implement the required trait for this type."@, "Use a type that already satisfies the trait bound."@],
        Some(TRAITS@),
    )
}

/// A mutable borrow through a shared reference (E0596).
pub open spec fn mutable_borrow_spec(e: ErrorView) -> ExplanationView {
    ev(
        "Cannot borrow as mutable (E0596)"@,
        first_label_line_summary(e),
        seq![
            "Make the reference itself mutable, for example `&mut ...`."@,
            "Or declare the value binding as `mut` so it can be borrowed mutably."@,
            "If the mutation is not required, change the receiver/parameter type."@,
        ],
        Some(BORROWING@),
    )
}

/// A method that does not exist (E0599).
pub open spec fn method_not_found_spec(e: ErrorView) -> ExplanationView {
    ev(
        "Method not found (E0599)"@,
        first_label_line_summary(e),
        seq![
            "Check that the method name is spelled correctly."@,
            "Confirm the type actually provides this method (trait must be imported)."@,
            "If the method belongs to a trait, bring that trait into scope with `use`."@,
        ],
        Some(METHODS_TRAITS@),
    )
}

/// A type that cannot be inferred (E0282).
pub open spec fn type_annotation_spec(e: ErrorView) -> ExplanationView {
    ev(
        "Type annotations needed (E0282)"@,
        first_label_line_summary(e),
        seq![
            "Add an explicit type annotation where the value is declared."@,
            "For collections, specify the element type, for example `Vec<String>`."@,
            "If the type is fixed by an assignment, use a typed binding or `let ... = ...: T`."@,
        ],
        Some(TYPE_INFERENCE@),
    )
}

/// An unresolved name or path (E0432, E0433).
pub open spec fn unresolved_path_spec(e: ErrorView) -> ExplanationView {
    ev(
        "Unresolved name or path (E0432/E0433)"@,
        first_label_line_summary(e),
        seq![
            "Check the spelling of the item `use`d or referenced."@,
            "Confirm the module/item actually exists at the referenced path."@,
            "Ensure any required dependency is declared under `[dependencies]`."@,
        ],
        Some(PATHS_MODULES@),
    )
}

/// A temporary dropped while borrowed (E0716).
pub open spec fn temporary_dropped_spec(e: ErrorView) -> ExplanationView {
    ev(
        "Temporary value dropped while borrowed (E0716)"@,
        first_label_line_summary(e),
        seq![
            "Bind the temporary to a variable that outlives the borrow."@,
            "Extend the temporary's lifetime so the reference stays valid."@,
            "Restructure so the reference does not outlive the temporary."@,
        ],
        Some(LIFETIMES@),
    )
}

/// The explanation for `e` before its concept's principle is attached.
pub open spec fn base_spec(e: ErrorView, expected: Option<Seq<char>>, found: Option<Seq<char>>) -> ExplanationView {
    let c = e.code;
    if c == "E0308"@ {
        types_spec(e, expected, found)
    } else if c == "E0382"@ {
        moved_value_spec(e)
    } else if c == "E0384"@ {
        immutable_assignment_spec(e)
    } else if c == "E0499"@ {
        multiple_mutable_borrows_spec(e)
    } else if c == "E0500"@ {
        borrow_with_existing_mut_spec(e)
    } else if c == "E0502"@ {
        borrow_conflict_spec(e)
    } else if c == "E0503"@ {
        moved_while_borrowed_spec(e)
    } else if c == "E0505"@ {
        move_while_borrowed_spec(e)
    } else if c == "E0506"@ {
        assign_while_borrowed_spec(e)
    } else if c == "E0515"@ {
        return_referencing_local_spec(e)
    } else if c == "E0521"@ {
        borrowed_data_escapes_spec(e)
    } else if c == "E0597"@ {
        borrowed_not_long_enough_spec(e)
    } else if c == "E0106"@ {
        missing_lifetime_spec(e)
    } else if c == "E0277"@ {
        trait_bound_spec(e)
    } else if c == "E0596"@ {
        mutable_borrow_spec(e)
    } else if c == "E0599"@ {
        method_not_found_spec(e)
    } else if c == "E0282"@ {
        type_annotation_spec(e)
    } else if c == "E0432"@ || c == "E0433"@ {
        unresolved_path_spec(e)
    } else if c == "E0716"@ {
        temporary_dropped_spec(e)
    } else {
        generic_spec(e)
    }
}

/// The explanation of `e`: the code's explanation with the rule behind its
/// concept attached.
pub open spec fn explain_spec(e: ErrorView, expected: Option<Seq<char>>, found: Option<Seq<char>>) -> ExplanationView {
    let b = base_spec(e, expected, found);
    ExplanationView {
        principle: match b.concept {
            Some(c) => principle_spec(c),
            None => None,
        },
        ..b
    }
}


// ---------------------------------------------------------------------------
// Implementation
// ---------------------------------------------------------------------------

/// The views of labelled lines.
pub open spec fn labels_view(v: Seq<(u32, String)>) -> Seq<LineLabel> {
    v.map_values(|p: (u32, String)| (p.0, p.1@))
}

/// The non-empty span labels with their lines, ordered by line; labels on
/// the same line keep their span order.
pub fn labels_by_line(spans: &Vec<Span>) -> (r: Vec<(u32, String)>)
    ensures
        labels_view(r@) == sorted_labels(spans_view(spans@)),
        stable_sort_of(labels_view(r@), labels_of(spans_view(spans@)), line_key()),
{
    let ghost sv = spans_view(spans@);
    let mut raw: Vec<(u32, String)> = Vec::new();
    let mut i: usize = 0;
    assert(labels_view(raw@) =~= labels_of(sv.take(0)));
    while i < spans.len()
        invariant
            i <= spans.len(),
            sv == spans_view(spans@),
            labels_view(raw@) == labels_of(sv.take(i as int)),
        decreases spans.len() - i,
    {
        let ghost before = raw@;
        assert(sv.take(i + 1).drop_last() =~= sv.take(i as int));
        assert(sv.take(i + 1).last() == spans@[i as int]@);
        if let Some(label) = &spans[i].label {
            if char_count(label.as_str()) > 0 {
                raw.push((spans[i].line_start, label.clone()));
                assert(labels_view(raw@) =~= labels_view(before).push(
                    (spans@[i as int].line_start, label@),
                ));
            }
        }
        i = i + 1;
    }
    assert(sv.take(spans.len() as int) =~= sv);
    let ghost key = line_key();
    let ghost inp = labels_view(raw@);
    let mut out: Vec<(u32, String)> = Vec::new();
    proof {
        lemma_stable_empty(key);
        assert(labels_view(out@) =~= Seq::<LineLabel>::empty());
        assert(inp.take(0) =~= Seq::<LineLabel>::empty());
    }
    let mut j: usize = 0;
    while j < raw.len()
        invariant
            j <= raw.len(),
            key == line_key(),
            inp == labels_view(raw@),
            stable_sort_of(labels_view(out@), inp.take(j as int), key),
        decreases raw.len() - j,
    {
        let line = raw[j].0;
        let text = raw[j].1.clone();
        let mut p = out.len();
        while p > 0 && out[p - 1].0 > line
            invariant
                p <= out.len(),
                key == line_key(),
                forall|q: int| p <= q < out@.len() ==> out@[q].0 > line,
            decreases p,
        {
            p = p - 1;
        }
        let ghost ov = labels_view(out@);
        let ghost x = (line, text@);
        proof {
            assert forall|q: int| 0 <= q < p implies key(ov[q]) <= key(x) by {
                if p > 0 {
                    assert(key(ov[q]) <= key(ov[p - 1]));
                }
            }
            assert forall|q: int| p <= q < ov.len() implies key(ov[q]) > key(x) by {
                assert(ov[q].0 == out@[q].0);
            }
            lemma_insert_stable(ov, inp.take(j as int), x, p as int, key);
            assert(inp.take(j + 1) =~= inp.take(j as int).push(x));
        }
        out.insert(p, (line, text));
        assert(labels_view(out@) =~= ov.take(p as int) + seq![x] + ov.skip(p as int));
        j = j + 1;
    }
    assert(inp.take(raw.len() as int) =~= inp);
    proof {
        let target = labels_of(sv);
        assert(stable_sort_of(labels_view(out@), target, key));
        let c = choose|t: Seq<LineLabel>| stable_sort_of(t, target, line_key());
        lemma_stable_sort_unique(c, labels_view(out@), target, key);
    }
    out
}

/// Two fix options.
fn two(a: &str, b: &str) -> (r: Vec<String>)
    ensures
        strs(r@) == seq![a@, b@],
{
    let v = vec![String::from_str(a), String::from_str(b)];
    assert(strs(v@) =~= seq![a@, b@]);
    v
}

/// Three fix options.
fn three(a: &str, b: &str, c: &str) -> (r: Vec<String>)
    ensures
        strs(r@) == seq![a@, b@, c@],
{
    let v = vec![String::from_str(a), String::from_str(b), String::from_str(c)];
    assert(strs(v@) =~= seq![a@, b@, c@]);
    v
}

/// An explanation without a principle.
fn make(title: String, summary: String, fixes: Vec<String>, concept: Option<&str>) -> (r: Explanation)
    ensures
        r@ == ev(
            title@,
            summary@,
            strs(fixes@),
            match concept {
                Some(c) => Some(c@),
                None => None,
            },
        ),
{
    Explanation {
        title,
        plain_summary: summary,
        fix_options: fixes,
        concept: match concept {
            Some(c) => Some(String::from_str(c)),
            None => None,
        },
        principle: None,
    }
}

/// The rule behind a concept.
fn principle_for(concept: &str) -> (r: Option<&'static str>)
    ensures
        match r {
            Some(p) => principle_spec(concept@) == Some(p@),
            None => principle_spec(concept@) is None,
        },
{
    if str_eq(concept, OWNERSHIP) {
        Some(PRINCIPLE_OWNERSHIP)
    } else if str_eq(concept, BORROWING) {
        Some(PRINCIPLE_BORROWING)
    } else if str_eq(concept, LIFETIMES) {
        Some(PRINCIPLE_LIFETIMES)
    } else if str_eq(concept, MUTABILITY) {
        Some(PRINCIPLE_MUTABILITY)
    } else if str_eq(concept, TRAITS) {
        Some(PRINCIPLE_TRAITS)
    } else if str_eq(concept, METHODS_TRAITS) {
        Some(PRINCIPLE_METHODS)
    } else if str_eq(concept, TYPE_INFERENCE) || str_eq(concept, TYPES) {
        Some(PRINCIPLE_INFERENCE)
    } else if str_eq(concept, PATHS_MODULES) {
        Some(PRINCIPLE_PATHS)
    } else {
        None
    }
}

/// Explains a compiler error: a title, a summary built from the compiler's
/// own labels and line numbers, fix options, the concept involved and the
/// rule behind it.
pub fn explain(error: &ParsedError, analysis: &DiagnosticAnalysis) -> (r: Explanation)
    ensures
        r@ == explain_spec(error@, opt_view(analysis.expected_type), opt_view(analysis.found_type)),
{
    let c = error.code.as_str();
    let mut explanation = if str_eq(c, "E0308") {
        explain_types(error, analysis)
    } else if str_eq(c, "E0382") {
        explain_moved_value(error)
    } else if str_eq(c, "E0384") {
        explain_immutable_assignment(error)
    } else if str_eq(c, "E0499") {
        explain_multiple_mutable_borrows(error)
    } else if str_eq(c, "E0500") {
        explain_borrow_with_existing_mut(error)
    } else if str_eq(c, "E0502") {
        explain_borrow_conflict(error)
    } else if str_eq(c, "E0503") {
        explain_moved_while_borrowed(error)
    } else if str_eq(c, "E0505") {
        explain_move_while_borrowed(error)
    } else if str_eq(c, "E0506") {
        explain_assign_while_borrowed(error)
    } else if str_eq(c, "E0515") {
        explain_return_referencing_local(error)
    } else if str_eq(c, "E0521") {
        explain_borrowed_data_escapes(error)
    } else if str_eq(c, "E0597") {
        explain_borrowed_not_long_enough(error)
    } else if str_eq(c, "E0106") {
        explain_missing_lifetime(error)
    } else if str_eq(c, "E0277") {
        explain_trait_bound(error)
    } else if str_eq(c, "E0596") {
        explain_mutable_borrow(error)
    } else if str_eq(c, "E0599") {
        explain_method_not_found(error)
    } else if str_eq(c, "E0282") {
        explain_type_annotation(error)
    } else if str_eq(c, "E0432") || str_eq(c, "E0433") {
        explain_unresolved_path(error)
    } else if str_eq(c, "E0716") {
        explain_temporary_dropped(error)
    } else {
        generic_explanation(error)
    };
    let principle = match &explanation.concept {
        Some(concept) => match principle_for(concept.as_str()) {
            Some(p) => Some(String::from_str(p)),
            None => None,
        },
        None => None,
    };
    explanation.principle = principle;
    explanation
}

/// The fix line for one compiler suggestion.
fn suggestion_line(s: &crate::diagnostics::CompilerSuggestion) -> (r: String)
    ensures
        r@ == suggestion_fix_line(s@),
{
    let mut out = s.file.clone();
    out.append(":");
    push_dec(&mut out, s.line as u64);
    let trimmed = trim_str(s.replacement.as_str());
    let mut what = if char_count(trimmed) == 0 {
        String::from_str("remove the flagged text")
    } else {
        let mut w = String::from_str("replace it with `");
        w.append(trimmed);
        w.append("`");
        w
    };
    match &s.label {
        Some(l) => {
            out.append(": ");
            out.append(l.as_str());
            out.append(" — ");
            out.append(what.as_str());
        },
        None => {
            out.append(": ");
            out.append(what.as_str());
        },
    }
    out
}

/// The explanation for error codes without a dedicated one: the compiler's
/// own message and suggestions.
fn generic_explanation(error: &ParsedError) -> (r: Explanation)
    ensures
        r@ == generic_spec(error@),
{
    let ghost sug = error@.suggestions;
    let mut fix_options: Vec<String> = Vec::new();
    let mut i: usize = 0;
    while i < error.suggestions.len()
        invariant
            i <= error.suggestions.len(),
            sug == error@.suggestions,
            strs(fix_options@) == sug.take(i as int).map_values(
                |s: SuggestionView| suggestion_fix_line(s),
            ),
        decreases error.suggestions.len() - i,
    {
        let line = suggestion_line(&error.suggestions[i]);
        fix_options.push(line);
        assert(sug[i as int] == error.suggestions@[i as int]@);
        assert(sug.take(i + 1).map_values(|s: SuggestionView| suggestion_fix_line(s)) =~= sug.take(
            i as int,
        ).map_values(|s: SuggestionView| suggestion_fix_line(s)).push(suggestion_fix_line(sug[i as int])));
        assert(strs(fix_options@) =~= sug.take(i as int).map_values(
            |s: SuggestionView| suggestion_fix_line(s),
        ).push(suggestion_fix_line(sug[i as int])));
        i = i + 1;
    }
    assert(sug.take(sug.len() as int) =~= sug);
    if fix_options.len() > 0 {
        let ghost before = fix_options@;
        fix_options.push(
            String::from_str(
                "This suggestion comes directly from the compiler; apply it, then re-run to verify.",
            ),
        );
        assert(strs(fix_options@) =~= strs(before).push(
            "This suggestion comes directly from the compiler; apply it, then re-run to verify."@,
        ));
    } else {
        fix_options = two(
            "Inspect the compiler evidence and source context above.",
            "Check the related source locations mentioned by the compiler.",
        );
    }
    let mut title = String::from_str("Rust compiler error ");
    title.append(error.code.as_str());
    let mut summary = String::from_str("Rust reported: ");
    summary.append(error.raw_message.as_str());
    Explanation { title, plain_summary: summary, fix_options, concept: None, principle: None }
}


/// Does `l` contain one of the three patterns?
fn mentions_any3(l: &str, a: &str, b: &str, c: &str) -> (r: bool)
    ensures
        r == mentions_any(l@, seq![a@, b@, c@]),
{
    let x = contains_str(l, a);
    let y = contains_str(l, b);
    let z = contains_str(l, c);
    let ghost pats = seq![a@, b@, c@];
    proof {
        if x {
            assert(contains_spec(l@, pats[0]));
        }
        if y {
            assert(contains_spec(l@, pats[1]));
        }
        if z {
            assert(contains_spec(l@, pats[2]));
        }
        if mentions_any(l@, pats) {
            let k = choose|k: int| 0 <= k < pats.len() && contains_spec(l@, pats[k]);
            assert(k == 0 || k == 1 || k == 2);
        }
    }
    x || y || z
}

/// Does `l` contain one of the two patterns?
fn mentions_any2(l: &str, a: &str, b: &str) -> (r: bool)
    ensures
        r == mentions_any(l@, seq![a@, b@]),
{
    let x = contains_str(l, a);
    let y = contains_str(l, b);
    let ghost pats = seq![a@, b@];
    proof {
        if x {
            assert(contains_spec(l@, pats[0]));
        }
        if y {
            assert(contains_spec(l@, pats[1]));
        }
        if mentions_any(l@, pats) {
            let k = choose|k: int| 0 <= k < pats.len() && contains_spec(l@, pats[k]);
            assert(k == 0 || k == 1);
        }
    }
    x || y
}

/// The labelled line that `pred` selects, decided by `test`.
fn first_where(
    ls: &Vec<(u32, String)>,
    which: u8,
    line: u32,
    Ghost(pred): Ghost<spec_fn(LineLabel) -> bool>,
) -> (r: Option<usize>)
    requires
        which <= 4,
        which == 0 ==> pred == moved_pred(),
        which == 1 ==> pred == used_pred(line),
        which == 2 ==> pred == move_out_pred(),
        which == 3 ==> pred == later_used_pred(),
        which == 4 ==> pred == dropped_pred(),
    ensures
        match r {
            Some(k) => first_idx(labels_view(ls@), pred) == Some(k as int) && k < ls@.len(),
            None => first_idx(labels_view(ls@), pred) is None,
        },
{
    let ghost lv = labels_view(ls@);
    let mut i: usize = 0;
    proof {
        reveal_strlit("moved here");
    }
    assert(moved_pats() == seq!["moved here"@, "move occurs"@, "value moved"@]);
    while i < ls.len()
        invariant
            i <= ls.len(),
            lv == labels_view(ls@),
            which <= 4,
            which == 0 ==> pred == moved_pred(),
            which == 1 ==> pred == used_pred(line),
            which == 2 ==> pred == move_out_pred(),
            which == 3 ==> pred == later_used_pred(),
            which == 4 ==> pred == dropped_pred(),
            first_idx(lv, pred) == first_from(lv, pred, i as int),
        decreases ls.len() - i,
    {
        let l = ls[i].1.as_str();
        assert(lv[i as int] == (ls@[i as int].0, l@));
        let hit = if which == 0 {
            mentions_any3(l, "moved here", "move occurs", "value moved")
        } else if which == 1 {
            ls[i].0 != line && mentions_any2(l, "used here after move", "borrowed here after move")
        } else if which == 2 {
            starts_with_str(l, "move out of")
        } else if which == 3 {
            contains_str(l, "later used here")
        } else {
            contains_str(l, "dropped here")
        };
        assert(hit == pred(lv[i as int]));
        if hit {
            return Some(i);
        }
        i = i + 1;
    }
    None
}

/// `raw. label (line n).`
fn label_line(raw: &String, line: u32, label: &String) -> (r: String)
    ensures
        r@ == label_line_sentence(raw@, line, label@),
{
    let mut s = raw.clone();
    s.append(". ");
    s.append(label.as_str());
    s.append(" (line ");
    push_dec(&mut s, line as u64);
    s.append(").");
    s
}

/// Summary citing the first labelled line.
fn first_label_line(error: &ParsedError) -> (r: String)
    ensures
        r@ == first_label_line_summary(error@),
{
    let ls = labels_by_line(&error.spans);
    if ls.len() > 0 {
        label_line(&error.raw_message, ls[0].0, &ls[0].1)
    } else {
        error.raw_message.clone()
    }
}

/// Summary quoting the first label.
fn first_label(error: &ParsedError) -> (r: String)
    ensures
        r@ == first_label_summary(error@),
{
    let ls = labels_by_line(&error.spans);
    if ls.len() > 0 {
        let mut s = error.raw_message.clone();
        s.append(". ");
        s.append(ls[0].1.as_str());
        s
    } else {
        error.raw_message.clone()
    }
}

/// Summary citing the first label and a second one.
fn two_labels(error: &ParsedError, sep: &str, use_last: bool) -> (r: String)
    ensures
        r@ == two_label_summary(error@, sep@, use_last),
{
    let ls = labels_by_line(&error.spans);
    if ls.len() >= 2 {
        let j = if use_last {
            ls.len() - 1
        } else {
            1
        };
        let mut s = error.raw_message.clone();
        s.append(". ");
        s.append(ls[0].1.as_str());
        s.append(" (line ");
        push_dec(&mut s, ls[0].0 as u64);
        s.append("), ");
        s.append(sep);
        s.append(ls[j].1.as_str());
        s.append(" (line ");
        push_dec(&mut s, ls[j].0 as u64);
        s.append(").");
        s
    } else {
        error.raw_message.clone()
    }
}

fn explain_moved_value(error: &ParsedError) -> (r: Explanation)
    ensures
        r@ == moved_value_spec(error@),
{
    let ls = labels_by_line(&error.spans);
    let raw = &error.raw_message;
    let (move_line, move_label) = match first_where(&ls, 0, 0, Ghost(moved_pred())) {
        Some(i) => (ls[i].0, ls[i].1.clone()),
        None => if ls.len() > 0 {
            (ls[0].0, ls[0].1.clone())
        } else {
            (0u32, raw.clone())
        },
    };
    let summary = match first_where(&ls, 1, move_line, Ghost(used_pred(move_line))) {
        Some(u) => {
            let mut s = raw.clone();
            s.append(". The value is moved ");
            s.append(move_label.as_str());
            s.append(" (line ");
            push_dec(&mut s, move_line as u64);
            s.append("), then used again at line ");
            push_dec(&mut s, ls[u].0 as u64);
            s.append(".");
            s
        },
        None => if ls.len() >= 2 {
            let mut s = raw.clone();
            s.append(". ");
            s.append(move_label.as_str());
            s.append(" (line ");
            push_dec(&mut s, move_line as u64);
            s.append("), then used at line ");
            push_dec(&mut s, ls[ls.len() - 1].0 as u64);
            s.append(".");
            s
        } else {
            let mut s = raw.clone();
            s.append(". ");
            s.append(move_label.as_str());
            s
        },
    };
    make(
        String::from_str("Use of a moved value (E0382)"),
        summary,
        three(
            "Borrow the value instead of moving it where possible.",
            "Clone the value if an owned copy is acceptable.",
            "Reorder the code so the value is used before it is moved.",
        ),
        Some(OWNERSHIP),
    )
}

fn explain_immutable_assignment(error: &ParsedError) -> (r: Explanation)
    ensures
        r@ == immutable_assignment_spec(error@),
{
    make(
        String::from_str("Assignment to immutable variable (E0384)"),
        two_labels(error, "then ", true),
        two(
            "Declare the variable with `mut` if it must change.",
            "Use a new `let` binding instead of reassigning.",
        ),
        Some(MUTABILITY),
    )
}

fn explain_multiple_mutable_borrows(error: &ParsedError) -> (r: Explanation)
    ensures
        r@ == multiple_mutable_borrows_spec(error@),
{
    make(
        String::from_str("Multiple mutable borrows (E0499)"),
        two_labels(error, "", false),
        three(
            "Reduce the number of simultaneous mutable borrows.",
            "Scope each borrow so it ends before the next begins.",
            "Use a single `&mut` if the borrows can be merged.",
        ),
        Some(BORROWING),
    )
}

fn explain_borrow_conflict(error: &ParsedError) -> (r: Explanation)
    ensures
        r@ == borrow_conflict_spec(error@),
{
    make(
        String::from_str("Conflicting borrows (E0502)"),
        two_labels(error, "", false),
        three(
            "Ensure the immutable borrow ends before the mutable borrow begins.",
            "Narrow the scope of the immutable borrow.",
            "Clone the value if an owned copy is acceptable.",
        ),
        Some(BORROWING),
    )
}

fn explain_borrow_with_existing_mut(error: &ParsedError) -> (r: Explanation)
    ensures
        r@ == borrow_with_existing_mut_spec(error@),
{
    make(
        String::from_str("Cannot borrow as mutable while an immutable borrow is active (E0500)"),
        two_labels(error, "then ", false),
        three(
            "Scope the immutable borrow so it ends before the mutable borrow begins.",
            "Use a non-mutating method instead of taking `&mut`.",
            "If sharing is intended, avoid mutating while references exist.",
        ),
        Some(BORROWING),
    )
}

fn explain_moved_while_borrowed(error: &ParsedError) -> (r: Explanation)
    ensures
        r@ == moved_while_borrowed_spec(error@),
{
    let ls = labels_by_line(&error.spans);
    let summary = if ls.len() >= 2 {
        let mut s = error.raw_message.clone();
        s.append(". ");
        s.append(ls[0].1.as_str());
        s.append(" (line ");
        push_dec(&mut s, ls[0].0 as u64);
        s.append("), and the borrow is used at line ");
        push_dec(&mut s, ls[1].0 as u64);
        s.append(".");
        s
    } else {
        error.raw_message.clone()
    };
    make(
        String::from_str("Cannot use a value that has been moved while it is borrowed (E0503)"),
        summary,
        three(
            "Keep the borrow alive until after the value's last use.",
            "Clone the value if it needs to be both borrowed and moved.",
            "Reorder so the move happens after the borrow is finished.",
        ),
        Some(OWNERSHIP),
    )
}

fn explain_assign_while_borrowed(error: &ParsedError) -> (r: Explanation)
    ensures
        r@ == assign_while_borrowed_spec(error@),
{
    make(
        String::from_str("Cannot assign to a variable while it is borrowed (E0506)"),
        two_labels(error, "then ", false),
        three(
            "Ensure the borrow ends before reassigning the variable.",
            "Reduce the borrow's scope so it does not overlap the assignment.",
            "Mutate via the reference if it is a `&mut` borrow.",
        ),
        Some(BORROWING),
    )
}

fn explain_return_referencing_local(error: &ParsedError) -> (r: Explanation)
    ensures
        r@ == return_referencing_local_spec(error@),
{
    let ls = labels_by_line(&error.spans);
    let mut s = error.raw_message.clone();
    if ls.len() >= 2 {
        s.append(". The value is created at line ");
        push_dec(&mut s, ls[0].0 as u64);
        s.append(", but returned as a reference at line ");
        push_dec(&mut s, ls[ls.len() - 1].0 as u64);
        s.append(".");
    } else {
        s.append(". The function returns a reference to a value that is local to it.");
    }
    make(
        String::from_str("Cannot return a reference to a local variable (E0515)"),
        s,
        three(
            "Return the value by ownership instead of by reference.",
            "Have the caller pass data in so it outlives the function.",
            "Use a smart pointer like `Box` or `Rc` to extend the value's lifetime.",
        ),
        Some(LIFETIMES),
    )
}

fn explain_borrowed_data_escapes(error: &ParsedError) -> (r: Explanation)
    ensures
        r@ == borrowed_data_escapes_spec(error@),
{
    let ls = labels_by_line(&error.spans);
    let mut s = error.raw_message.clone();
    if ls.len() >= 2 {
        s.append(". The reference is captured at line ");
        push_dec(&mut s, ls[0].0 as u64);
        s.append(", but it would escape the function at line ");
        push_dec(&mut s, ls[ls.len() - 1].0 as u64);
        s.append(".");
    }
    make(
        String::from_str("Borrowed data escapes outside of its function (E0521)"),
        s,
        three(
            "Add a lifetime parameter so the borrowed data is tied to the caller.",
            "Return the owned value instead of a reference into local data.",
            "Use a reference that is valid for at least the function's return lifetime.",
        ),
        Some(LIFETIMES),
    )
}

fn explain_move_while_borrowed(error: &ParsedError) -> (r: Explanation)
    ensures
        r@ == move_while_borrowed_spec(error@),
{
    let ls = labels_by_line(&error.spans);
    let mut s = error.raw_message.clone();
    if ls.len() >= 2 {
        let move_line = match first_where(&ls, 2, 0, Ghost(move_out_pred())) {
            Some(i) => ls[i].0,
            None => ls[0].0,
        };
        match first_where(&ls, 3, 0, Ghost(later_used_pred())) {
            Some(h) => {
                s.append(". The value is moved at line ");
                push_dec(&mut s, move_line as u64);
                s.append(", while ");
                s.append(ls[h].1.as_str());
                s.append(".");
            },
            None => {
                s.append(". Move occurs at line ");
                push_dec(&mut s, move_line as u64);
                s.append(".");
            },
        }
    }
    make(
        String::from_str("Cannot move with an active borrow (E0505)"),
        s,
        two(
            "End the borrow before moving the value.",
            "Clone the value if it must be moved while borrowed.",
        ),
        Some(OWNERSHIP),
    )
}

fn explain_borrowed_not_long_enough(error: &ParsedError) -> (r: Explanation)
    ensures
        r@ == borrowed_not_long_enough_spec(error@),
{
    let ls = labels_by_line(&error.spans);
    let mut s = error.raw_message.clone();
    if ls.len() >= 2 {
        let dropped = first_where(&ls, 4, 0, Ghost(dropped_pred()));
        let used = first_where(&ls, 3, 0, Ghost(later_used_pred()));
        match (dropped, used) {
            (Some(d), Some(u)) => {
                s.append(". ");
                s.append(ls[d].1.as_str());
                s.append(" at line ");
                push_dec(&mut s, ls[d].0 as u64);
                s.append(", then ");
                s.append(ls[u].1.as_str());
                s.append(".");
            },
            _ => {},
        }
    }
    make(
        String::from_str("Borrowed value does not live long enough (E0597)"),
        s,
        two(
            "Ensure the borrowed value lives at least as long as its borrow.",
            "Extend the scope of the value or restructure so the reference is valid.",
        ),
        Some(LIFETIMES),
    )
}

fn explain_missing_lifetime(error: &ParsedError) -> (r: Explanation)
    ensures
        r@ == missing_lifetime_spec(error@),
{
    make(
        String::from_str("Missing lifetime specifier (E0106)"),
        first_label(error),
        two(
            "Add a lifetime parameter, for example `<'a>`.",
            "Use an explicit lifetime on the reference that is returned.",
        ),
        Some(LIFETIMES),
    )
}

fn explain_trait_bound(error: &ParsedError) -> (r: Explanation)
    ensures
        r@ == trait_bound_spec(error@),
{
    let mut title = String::from_str("Trait bound not satisfied (");
    title.append(error.code.as_str());
    title.append(")");
    make(
        title,
        first_label(error),
        two(
            "Implement the required trait for this type.",
            "Use a type that already satisfies the trait bound.",
        ),
        Some(TRAITS),
    )
}

fn explain_mutable_borrow(error: &ParsedError) -> (r: Explanation)
    ensures
        r@ == mutable_borrow_spec(error@),
{
    make(
        String::from_str("Cannot borrow as mutable (E0596)"),
        first_label_line(error),
        three(
            "Make the reference itself mutable, for example `&mut ...`.",
            "Or declare the value binding as `mut` so it can be borrowed mutably.",
            "If the mutation is not required, change the receiver/parameter type.",
        ),
        Some(BORROWING),
    )
}

fn explain_method_not_found(error: &ParsedError) -> (r: Explanation)
    ensures
        r@ == method_not_found_spec(error@),
{
    make(
        String::from_str("Method not found (E0599)"),
        first_label_line(error),
        three(
            "Check that the method name is spelled correctly.",
            "Confirm the type actually provides this method (trait must be imported).",
            "If the method belongs to a trait, bring that trait into scope with `use`.",
        ),
        Some(METHODS_TRAITS),
    )
}

fn explain_type_annotation(error: &ParsedError) -> (r: Explanation)
    ensures
        r@ == type_annotation_spec(error@),
{
    make(
        String::from_str("Type annotations needed (E0282)"),
        first_label_line(error),
        three(
            "Add an explicit type annotation where the value is declared.",
            "For collections, specify the element type, for example `Vec<String>`.",
            "If the type is fixed by an assignment, use a typed binding or `let ... = ...: T`.",
        ),
        Some(TYPE_INFERENCE),
    )
}

fn explain_unresolved_path(error: &ParsedError) -> (r: Explanation)
    ensures
        r@ == unresolved_path_spec(error@),
{
    make(
        String::from_str("Unresolved name or path (E0432/E0433)"),
        first_label_line(error),
        three(
            "Check the spelling of the item `use`d or referenced.",
            "Confirm the module/item actually exists at the referenced path.",
            "Ensure any required dependency is declared under `[dependencies]`.",
        ),
        Some(PATHS_MODULES),
    )
}

fn explain_temporary_dropped(error: &ParsedError) -> (r: Explanation)
    ensures
        r@ == temporary_dropped_spec(error@),
{
    make(
        String::from_str("Temporary value dropped while borrowed (E0716)"),
        first_label_line(error),
        three(
            "Bind the temporary to a variable that outlives the borrow.",
            "Extend the temporary's lifetime so the reference stays valid.",
            "Restructure so the reference does not outlive the temporary.",
        ),
        Some(LIFETIMES),
    )
}

fn explain_types(error: &ParsedError, analysis: &DiagnosticAnalysis) -> (r: Explanation)
    ensures
        r@ == types_spec(error@, opt_view(analysis.expected_type), opt_view(analysis.found_type)),
{
    match (&analysis.expected_type, &analysis.found_type) {
        (Some(expected), Some(found)) => {
            let (summary, fixes) = classify_type_mismatch(expected.as_str(), found.as_str());
            Explanation {
                title: String::from_str("Mismatched types (E0308)"),
                plain_summary: summary,
                fix_options: fixes,
                concept: Some(String::from_str(TYPES)),
                principle: None,
            }
        },
        _ => {
            let mut s = String::from_str("Rust found incompatible types. The compiler reported: ");
            s.append(error.raw_message.as_str());
            make(
                String::from_str("Mismatched types (E0308)"),
                s,
                two(
            "Check the type expected by this expression.",
            "Check the type of the value being provided.",
        ),
                Some(TYPES),
            )
        },
    }
}

/// `a + b + c` as a string.
fn join3(a: &str, b: &str, c: &str) -> (r: String)
    ensures
        r@ == a@ + b@ + c@,
{
    let mut s = String::from_str(a);
    s.append(b);
    s.append(c);
    s
}

/// Two owned strings.
fn pair(a: String, b: String) -> (r: Vec<String>)
    ensures
        strs(r@) == seq![a@, b@],
{
    let v = vec![a, b];
    assert(strs(v@) =~= seq![a@, b@]);
    v
}

/// Summary and fix options for a mismatch between two named types.
pub fn classify_type_mismatch(expected: &str, found: &str) -> (r: (String, Vec<String>))
    ensures
        (r.0@, strs(r.1@)) == classify_spec(expected@, found@),
{
    let x_i32 = str_eq(expected, "i32");
    let x_i64 = str_eq(expected, "i64");
    let x_float = str_eq(expected, "f32") || str_eq(expected, "f64");
    let x_string = str_eq(expected, "String");
    let x_str = str_eq(expected, "&str");
    let x_bool = str_eq(expected, "bool");
    let f_str = str_eq(found, "&str");
    let f_string = str_eq(found, "String");
    let f_float = str_eq(found, "f32") || str_eq(found, "f64");
    let f_i32 = str_eq(found, "i32");
    let f_int = f_i32 || str_eq(found, "i64");
    if x_i32 && f_str {
        (
            String::from_str(
                "Rust expected an integer of type `i32`, but the code provided a string slice of type `&str`. The value cannot be used as an integer.",
            ),
            pair(
                String::from_str("Replace the string value with an integer, for example `42`."),
                String::from_str(
                    "If the value should be text, change the variable type to `String` or `&str`.",
                ),
            ),
        )
    } else if x_i64 && f_str {
        (
            String::from_str(
                "Rust expected an integer of type `i64`, but the code provided a string slice of type `&str`.",
            ),
            pair(
                String::from_str("Replace the string with an `i64` value."),
                String::from_str("If the value comes from text input, parse it into `i64`."),
            ),
        )
    } else if x_float && f_str {
        (
            join3(
                "Rust expected a floating-point value of type `",
                expected,
                "`, but the code provided a string slice of type `&str`.",
            ),
            pair(
                join3("Replace the string with a `", expected, "` value."),
                join3("If the value comes from text, parse the string into `", expected, "`."),
            ),
        )
    } else if x_string && f_str {
        (
            String::from_str(
                "Rust expected an owned `String`, but the code provided a string slice `&str`. A string literal such as `\"hello\"` normally has type `&str`.",
            ),
            pair(
                String::from_str("Convert the string slice using `.to_string()`."),
                String::from_str("Convert it using `String::from(...)`."),
            ),
        )
    } else if x_str && f_string {
        (
            String::from_str(
                "Rust expected a borrowed string slice `&str`, but the code provided an owned `String`. The String needs to be borrowed when an `&str` is required.",
            ),
            pair(
                String::from_str("Borrow the String using `&value`."),
                String::from_str("Use `.as_str()` when an `&str` is required."),
            ),
        )
    } else if x_i32 && f_float {
        (
            join3(
                "Rust expected an integer of type `i32`, but the code provided a floating-point value of type `",
                found,
                "`. Rust does not automatically convert between these numeric types.",
            ),
            pair(
                String::from_str("Use an integer value if `i32` is intended."),
                String::from_str("Convert the value explicitly if a floating-point value is intended."),
            ),
        )
    } else if x_float && f_i32 {
        (
            join3(
                "Rust expected a floating-point value of type `",
                expected,
                "`, but the code provided an integer of type `i32`.",
            ),
            pair(
                join3("Convert the integer explicitly to `", expected, "`."),
                String::from_str("Change the expected type to `i32` if an integer is intended."),
            ),
        )
    } else if x_bool && f_int {
        (
            join3(
                "Rust expected a boolean value, but the code provided an integer of type `",
                found,
                "`. Rust does not automatically treat integers as booleans.",
            ),
            pair(
                String::from_str("Use `true` or `false` when a boolean is required."),
                String::from_str("If the integer represents a condition, compare it explicitly."),
            ),
        )
    } else {
        let mut summary = join3(
            "Rust expected a value of type `",
            expected,
            "`, but the code provided a value of type `",
        );
        summary.append(found);
        summary.append("`. These types are incompatible in this context.");
        (
            summary,
            pair(
                join3("Change the provided value so that it has type `", expected, "`."),
                join3("If `", found, "` is the intended type, change the expected type."),
            ),
        )
    }
}

} // verus!
