use rxplain::analyzer::analyze;
use rxplain::diagnostics::{CompilerSuggestion, ParsedError, Span, SpanText};
use rxplain::repair::{patch_signature, Confidence, RepairKind};
use rxplain::repair_context::RepairContext;
use rxplain::transform::{
    bare_identifier_after, extract_bare_identifier, generate_candidates, BorrowTransform, CloneTransform,
    CompilerSuggestionTransform, MutabilityTransform, Transform,
};
use std::collections::BTreeSet;

fn make_error(message: &str, spans: Vec<(u32, bool, &str)>, suggestions: Vec<CompilerSuggestion>) -> ParsedError {
    let parsed_spans: Vec<Span> = spans
        .iter()
        .map(|(line, is_primary, label)| Span {
            file_name: "src/main.rs".to_string(),
            line_start: *line,
            line_end: *line,
            column_start: 5,
            column_end: 10,
            is_primary: *is_primary,
            label: Some(label.to_string()),
            text: vec![SpanText { text: "code".to_string() }],
            suggested_replacement: None,
            suggestion_applicability: None,
        })
        .collect();

    ParsedError {
        code: String::new(),
        raw_message: message.to_string(),
        spans: parsed_spans,
        suggestions,
        ..Default::default()
    }
}

const MOVED_SOURCE: &str =
    "fn main() {\n    let value = String::from(\"hello\");\n    drop(value);\n    println!(\"{}\", value);\n}\n";

fn moved_error() -> ParsedError {
    make_error(
        "borrow of moved value: `value`",
        vec![(3, false, "value moved here"), (4, true, "value borrowed here after move")],
        vec![],
    )
}

#[test]
fn clone_transform_requires_move_evidence_not_error_code() {
    let error = moved_error();
    let source = MOVED_SOURCE;
    assert_eq!(error.code, "", "evidence must not depend on the error code");
    let analysis = analyze(&error);
    let ctx = RepairContext::from_source(&error, &analysis, source);
    assert!(CloneTransform.applicable(&ctx));
    let candidates = CloneTransform.generate(&ctx);
    assert_eq!(candidates.len(), 1);
    assert_eq!(candidates[0].kind, RepairKind::Clone);
    assert_eq!(candidates[0].patch.edits[0].replacement, ".clone()");
}

#[test]
fn borrow_transform_requires_move_evidence_not_error_code() {
    let error = moved_error();
    let analysis = analyze(&error);
    let ctx = RepairContext::from_source(&error, &analysis, MOVED_SOURCE);
    assert!(BorrowTransform.applicable(&ctx));
    let candidates = BorrowTransform.generate(&ctx);
    assert_eq!(candidates.len(), 1);
    assert_eq!(candidates[0].kind, RepairKind::Borrow);
    assert_eq!(candidates[0].patch.edits[0].replacement, "&");
}

#[test]
fn transforms_not_applicable_without_move_evidence() {
    let source = "fn main() {\n    let number: i32 = \"hello\";\n}\n";
    let error = make_error("mismatched types", vec![(2, true, "expected `i32`, found `&str`")], vec![]);
    let analysis = analyze(&error);
    let ctx = RepairContext::from_source(&error, &analysis, source);
    assert!(!CloneTransform.applicable(&ctx));
    assert!(!BorrowTransform.applicable(&ctx));
    assert_eq!(
        generate_candidates(&error, &analysis, source).len(),
        0,
        "a plain type mismatch must not produce fabrication"
    );
}

#[test]
fn mutability_transform_generates_patch() {
    let source = "fn main() {\n    let x = 10;\n    x += 5;\n}\n";
    let error = make_error("cannot assign twice to immutable variable `x`", vec![(3, true, "cannot assign")], vec![]);
    let analysis = analyze(&error);
    let ctx = RepairContext::from_source(&error, &analysis, source);
    assert!(MutabilityTransform.applicable(&ctx));
    let candidates = MutabilityTransform.generate(&ctx);
    assert_eq!(candidates.len(), 1);
    assert_eq!(candidates[0].kind, RepairKind::Mutability);
    let edit = &candidates[0].patch.edits[0];
    assert_eq!(edit.line, 2);
    assert_eq!(edit.replacement, "mut ");
}

#[test]
fn mutability_transform_not_applicable_when_binding_is_mut() {
    let source = "fn main() {\n    let mut x = 10;\n    x += 5;\n}\n";
    let error = make_error("cannot assign twice to immutable variable `x`", vec![(3, true, "cannot assign")], vec![]);
    let analysis = analyze(&error);
    let ctx = RepairContext::from_source(&error, &analysis, source);
    assert!(!MutabilityTransform.applicable(&ctx));
}

#[test]
fn mutability_transform_skips_when_compiler_suggests_mut() {
    let source = "fn main() {\n    let x = 10;\n    x += 5;\n}\n";
    let error = make_error(
        "cannot assign twice to immutable variable `x`",
        vec![(3, true, "cannot assign")],
        vec![CompilerSuggestion {
            file: "src/main.rs".to_string(),
            line: 2,
            column: 9,
            column_end: 9,
            replacement: "mut ".to_string(),
            applicability: "MachineApplicable".to_string(),
            label: Some("make mutable".to_string()),
        }],
    );
    let analysis = analyze(&error);
    let candidates = generate_candidates(&error, &analysis, source);
    assert_eq!(candidates.len(), 1, "duplicate mut candidate must be suppressed");
    assert_eq!(candidates[0].kind, RepairKind::CompilerSuggested);
}

#[test]
fn compiler_suggestion_transform_scores_applicability() {
    let error = make_error(
        "cannot assign",
        vec![],
        vec![CompilerSuggestion {
            file: "src/main.rs".to_string(),
            line: 1,
            column: 5,
            column_end: 6,
            replacement: "&mut ".to_string(),
            applicability: "MaybeIncorrect".to_string(),
            label: None,
        }],
    );
    let analysis = analyze(&error);
    let ctx = RepairContext::from_source(&error, &analysis, "");
    assert!(CompilerSuggestionTransform.applicable(&ctx));
    let candidates = CompilerSuggestionTransform.generate(&ctx);
    assert_eq!(candidates[0].confidence, Confidence::Low);
}

#[test]
fn generate_candidates_deduplicates_overlapping_transforms() {
    let error = moved_error();
    let analysis = analyze(&error);
    let candidates = generate_candidates(&error, &analysis, MOVED_SOURCE);
    let signatures: BTreeSet<String> = candidates.iter().map(|c| patch_signature(&c.patch)).collect();
    assert_eq!(signatures.len(), candidates.len(), "no two candidates may share a patch signature");
}

#[test]
fn moved_value_yields_borrow_then_clone_with_anchors() {
    let error = moved_error();
    let analysis = analyze(&error);
    let candidates = generate_candidates(&error, &analysis, MOVED_SOURCE);
    assert_eq!(candidates.len(), 2);
    assert_eq!(candidates[0].kind, RepairKind::Borrow);
    assert_eq!(candidates[0].evidence[0], "Transformation: borrow");
    assert_eq!(candidates[0].evidence[1], "`value` is moved at src/main.rs:3");
    assert_eq!(candidates[0].evidence[2], "`value` is used again later at src/main.rs:4");
    let borrow = &candidates[0].patch.edits[0];
    assert_eq!((borrow.line, borrow.start_col, borrow.end_col), (3, 10, 10));
    assert_eq!(borrow.anchor.as_deref(), Some("drop(value);"));
    assert_eq!(borrow.label.as_deref(), Some("borrow `value` instead of move"));
    assert_eq!(candidates[1].kind, RepairKind::Clone);
    let clone = &candidates[1].patch.edits[0];
    assert_eq!((clone.start_col, clone.end_col), (15, 15));
    assert_eq!(candidates[1].evidence[3], "Insert `.clone()` at src/main.rs:3 column 15");
}

#[test]
fn several_suggestions_become_one_candidate() {
    let s = |line: u32, applicability: &str| CompilerSuggestion {
        file: "src/lib.rs".to_string(),
        line,
        column: 1,
        column_end: 1,
        replacement: "'a ".to_string(),
        applicability: applicability.to_string(),
        label: None,
    };
    let error = make_error("missing lifetime", vec![], vec![s(1, "MaybeIncorrect"), s(2, "MachineApplicable")]);
    let analysis = analyze(&error);
    let ctx = RepairContext::from_source(&error, &analysis, "");
    let candidates = CompilerSuggestionTransform.generate(&ctx);
    assert_eq!(candidates.len(), 1);
    assert_eq!(candidates[0].patch.edits.len(), 2);
    assert_eq!(candidates[0].confidence, Confidence::Low);
    assert_eq!(candidates[0].description, "Apply 2 compiler-suggested changes at src/lib.rs:1.");
    assert_eq!(candidates[0].evidence.len(), 4);

    let confidence_of = |applicabilities: &[&str]| {
        let suggestions = applicabilities.iter().enumerate().map(|(i, a)| s(i as u32 + 1, a)).collect();
        let error = make_error("missing lifetime", vec![], suggestions);
        let analysis = analyze(&error);
        let ctx = RepairContext::from_source(&error, &analysis, "");
        CompilerSuggestionTransform.generate(&ctx)[0].confidence
    };
    assert_eq!(confidence_of(&["MachineApplicable", "MachineApplicable"]), Confidence::High);
    assert_eq!(confidence_of(&["MachineApplicable", "HasPlaceholders"]), Confidence::Medium);
    assert_eq!(confidence_of(&["Unspecified", "MaybeIncorrect", "MachineApplicable"]), Confidence::Low);
}

#[test]
fn bare_identifier_follows_variable() {
    assert_eq!(extract_bare_identifier("cannot assign twice to immutable Variable x_1 here").as_deref(), Some("x_1"));
    assert_eq!(extract_bare_identifier("no such word"), None);
    assert_eq!(extract_bare_identifier("variable ?"), None);
}

#[test]
fn transform_names_are_stable() {
    assert_eq!(CompilerSuggestionTransform.name(), "compiler_suggestion");
    assert_eq!(MutabilityTransform.name(), "mutability");
    assert_eq!(BorrowTransform.name(), "borrow");
    assert_eq!(CloneTransform.name(), "clone");
}

#[test]
fn bare_identifier_takes_the_offset_from_the_lowered_label() {
    assert_eq!(bare_identifier_after("Variable Foo", "variable foo").as_deref(), Some("Foo"));
    assert_eq!(bare_identifier_after("ab", "variable "), None);
    assert_eq!(bare_identifier_after("immutable variable é", "immutable variable é").as_deref(), Some("é"));
    assert_eq!(bare_identifier_after("aaaaaaaaé", "variable x"), None);
    assert_eq!(bare_identifier_after("aaaaaaaaaé", "variable x").as_deref(), Some("é"));
}
