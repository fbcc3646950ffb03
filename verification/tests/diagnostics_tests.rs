use rxplain::analyzer::analyze;
use rxplain::diagnostics::{
    DiagnosticChild, ErrorCode, ParsedError, RustcMessage, Span, SpanText,
};
use rxplain::explain::explain;

fn message(text: &str, code: &str, spans: Vec<Span>, children: Vec<DiagnosticChild>) -> RustcMessage {
    RustcMessage {
        code: Some(ErrorCode { code: code.to_string() }),
        level: "error".to_string(),
        message: text.to_string(),
        spans,
        children,
    }
}

fn parse(diagnostic: RustcMessage) -> ParsedError {
    ParsedError::from_rustc_message(&diagnostic).expect("diagnostic should be parsed")
}

fn full_span(
    file: &str,
    line: u32,
    column: u32,
    column_end: u32,
    is_primary: bool,
    text: &str,
    label: Option<&str>,
) -> Span {
    Span {
        file_name: file.to_string(),
        line_start: line,
        line_end: line,
        column_start: column,
        column_end,
        is_primary,
        label: label.map(|l| l.to_string()),
        text: vec![SpanText { text: text.to_string() }],
        suggested_replacement: None,
        suggestion_applicability: None,
    }
}

fn span(line: u32, column: u32, label: &str) -> Span {
    full_span("src/main.rs", line, column, column + 1, false, "some code", Some(label))
}

#[test]
fn parses_mismatched_types_error() {
    let diagnostic = message(
        "mismatched types",
        "E0308",
        vec![full_span(
            "src/main.rs",
            2,
            17,
            24,
            true,
            "let number: i32 = \"hello\";",
            Some("expected `i32`, found `&str`"),
        )],
        vec![],
    );

    let error = ParsedError::from_rustc_message(&diagnostic).expect("diagnostic should be parsed");

    assert_eq!(error.code, "E0308");
    assert_eq!(error.raw_message, "mismatched types");
    assert_eq!(error.spans.len(), 1);
}

#[test]
fn parses_moved_value_error() {
    let diagnostic = message(
        "use of moved value: `name`",
        "E0382",
        vec![full_span(
            "src/main.rs",
            4,
            5,
            9,
            true,
            "println!(\"{}\", name);",
            Some("value used here after move"),
        )],
        vec![],
    );

    let error = ParsedError::from_rustc_message(&diagnostic).expect("diagnostic should be parsed");

    assert_eq!(error.code, "E0382");
    assert_eq!(error.raw_message, "use of moved value: `name`");
    assert_eq!(error.spans.len(), 1);
}

#[test]
fn explains_moved_value_from_compiler_labels() {
    let error = parse(message(
        "borrow of moved value: `value`",
        "E0382",
        vec![
            span(2, 9, "move occurs because `value` has type `String`"),
            span(3, 10, "value moved here"),
            span(4, 20, "value borrowed here after move"),
        ],
        vec![],
    ));

    let analysis = analyze(&error);
    let explanation = explain(&error, &analysis);

    assert_eq!(explanation.concept.as_deref(), Some("Ownership"));
    assert!(explanation.plain_summary.contains("move occurs because"));
    assert!(explanation.plain_summary.contains("line 4"));
}

#[test]
fn explains_mutable_borrow_conflict_from_compiler_labels() {
    let error = parse(message(
        "cannot borrow `value` as mutable more than once at a time",
        "E0499",
        vec![
            span(3, 19, "first mutable borrow occurs here"),
            span(4, 19, "second mutable borrow occurs here"),
        ],
        vec![],
    ));

    let analysis = analyze(&error);
    let explanation = explain(&error, &analysis);

    assert_eq!(explanation.concept.as_deref(), Some("Borrowing"));
    assert!(explanation.plain_summary.contains("first mutable borrow"));
    assert!(explanation.plain_summary.contains("line 3"));
}

#[test]
fn generic_explanation_for_unknown_error() {
    let error = parse(message("some future error", "E9999", vec![span(1, 1, "custom label")], vec![]));

    let analysis = analyze(&error);
    let explanation = explain(&error, &analysis);

    assert_eq!(explanation.concept, None);
    assert!(explanation.title.contains("E9999"));
    assert!(explanation.plain_summary.contains("some future error"));
}

#[test]
fn explains_dangling_borrow_from_compiler_labels() {
    let error = parse(message(
        "`x` does not live long enough",
        "E0597",
        vec![
            span(6, 9, "`x` dropped here while still borrowed"),
            span(7, 5, "borrow later used here"),
        ],
        vec![],
    ));

    let analysis = analyze(&error);
    let explanation = explain(&error, &analysis);

    assert_eq!(explanation.concept.as_deref(), Some("Lifetimes"));
    assert!(explanation.plain_summary.contains("dropped here while still borrowed"));
    assert!(explanation.plain_summary.contains("line 6"));
}

#[test]
fn explains_missing_lifetime_from_compiler_labels() {
    let error = parse(message(
        "missing lifetime specifier",
        "E0106",
        vec![span(1, 31, "expected named lifetime parameter")],
        vec![],
    ));

    let analysis = analyze(&error);
    let explanation = explain(&error, &analysis);

    assert_eq!(explanation.concept.as_deref(), Some("Lifetimes"));
    assert!(explanation.plain_summary.contains("expected named lifetime parameter"));
}

#[test]
fn explains_trait_bound_from_compiler_labels() {
    let error = parse(message(
        "`Vec<{integer}>` doesn't implement `std::fmt::Display`",
        "E0277",
        vec![span(4, 5, "the trait `std::fmt::Display` is not implemented for `Vec<{integer}>`")],
        vec![],
    ));

    let analysis = analyze(&error);
    let explanation = explain(&error, &analysis);

    assert_eq!(explanation.concept.as_deref(), Some("Traits"));
    assert!(explanation.plain_summary.contains("std::fmt::Display"));
}

#[test]
fn explains_mutable_borrow_from_compiler_labels() {
    let error = parse(message(
        "cannot borrow `*v` as mutable, as it is behind a `&` reference",
        "E0596",
        vec![span(3, 5, "`v` is a `&` reference, so it cannot be borrowed as mutable")],
        vec![],
    ));

    let analysis = analyze(&error);
    let explanation = explain(&error, &analysis);

    assert_eq!(explanation.concept.as_deref(), Some("Borrowing"));
    assert!(explanation.plain_summary.contains("cannot be borrowed as mutable"));
    assert!(explanation.plain_summary.contains("line 3"));
}

#[test]
fn explains_method_not_found_from_compiler_labels() {
    let error = parse(message(
        "no method named `reverse` found for reference `&str` in the current scope",
        "E0599",
        vec![span(6, 5, "method not found in `&str`")],
        vec![],
    ));

    let analysis = analyze(&error);
    let explanation = explain(&error, &analysis);

    assert_eq!(explanation.concept.as_deref(), Some("Methods & Traits"));
    assert!(explanation.plain_summary.contains("method not found in `&str`"));
}

#[test]
fn explains_type_annotation_from_compiler_labels() {
    let error = parse(message(
        "type annotations needed for `Vec<_>`",
        "E0282",
        vec![span(10, 13, "type must be known at this point")],
        vec![],
    ));

    let analysis = analyze(&error);
    let explanation = explain(&error, &analysis);

    assert_eq!(explanation.concept.as_deref(), Some("Type Inference"));
    assert!(explanation.plain_summary.contains("type must be known at this point"));
}

#[test]
fn generic_explanation_surfaces_compiler_suggestion() {
    let mut child_span = full_span("src/lib.rs", 1, 26, 29, false, "pub fn f(v: &Vec<i32>)", None);
    child_span.suggested_replacement = Some("&mut ".to_string());
    child_span.suggestion_applicability = Some("MachineApplicable".to_string());
    let diagnostic = message(
        "cannot assign to `x`, which is behind a `&` reference",
        "E0594",
        vec![full_span("src/lib.rs", 8, 9, 10, true, "        x.push(1);", Some("cannot assign"))],
        vec![DiagnosticChild {
            message: "consider changing this to be a mutable reference".to_string(),
            spans: vec![child_span],
        }],
    );

    let error = ParsedError::from_rustc_message(&diagnostic).expect("diagnostic should be parsed");
    assert!(!error.suggestions.is_empty(), "suggestion should be parsed");

    let analysis = analyze(&error);
    let explanation = explain(&error, &analysis);

    assert_eq!(explanation.concept, None);
    assert!(explanation
        .fix_options
        .iter()
        .any(|option| option.contains("&mut") && option.contains("src/lib.rs:1")));
}

#[test]
fn explains_use_of_value_after_mutable_borrow() {
    let error = parse(message(
        "cannot use `value` because it was mutably borrowed",
        "E0503",
        vec![span(3, 16, "borrow of `value` occurs here"), span(4, 25, "use of borrowed `value`")],
        vec![],
    ));

    let analysis = analyze(&error);
    let explanation = explain(&error, &analysis);

    assert_eq!(explanation.concept.as_deref(), Some("Ownership"));
    assert!(explanation.title.contains("E0503"));
    assert!(explanation.plain_summary.contains("line 4"));
    assert!(explanation.fix_options.iter().any(|option| option.contains("borrow")));
}

#[test]
fn explains_assignment_while_borrowed() {
    let error = parse(message(
        "cannot assign to `x` because it is borrowed",
        "E0506",
        vec![
            span(3, 13, "`x` is borrowed here"),
            span(4, 13, "assignment to borrowed `x` occurs here"),
        ],
        vec![],
    ));

    let analysis = analyze(&error);
    let explanation = explain(&error, &analysis);

    assert_eq!(explanation.concept.as_deref(), Some("Borrowing"));
    assert!(explanation.title.contains("E0506"));
    assert!(explanation.plain_summary.contains("line 3"));
}

#[test]
fn explains_return_referencing_local() {
    let error = parse(message(
        "cannot return reference to local variable `x`",
        "E0515",
        vec![
            span(2, 13, "returns a reference to data owned by the current function"),
            span(2, 18, "returns a value referencing data owned by the current function"),
        ],
        vec![],
    ));

    let analysis = analyze(&error);
    let explanation = explain(&error, &analysis);

    assert_eq!(explanation.concept.as_deref(), Some("Lifetimes"));
    assert!(explanation.title.contains("E0515"));
    assert!(explanation.fix_options.iter().any(|option| option.contains("ownership")));
}

#[test]
fn explains_borrowed_data_escaping_closure() {
    let error = parse(message(
        "borrowed data escapes outside of closure",
        "E0521",
        vec![span(3, 14, "closure captures `list`"), span(4, 18, "`el` escapes the closure body here")],
        vec![],
    ));

    let analysis = analyze(&error);
    let explanation = explain(&error, &analysis);

    assert_eq!(explanation.concept.as_deref(), Some("Lifetimes"));
    assert!(explanation.title.contains("E0521"));
    assert!(explanation.fix_options.iter().any(|option| option.contains("lifetime")));
}

#[test]
fn mismatched_types_carry_concept_and_principle() {
    let error = parse(message(
        "mismatched types",
        "E0308",
        vec![full_span(
            "src/main.rs",
            2,
            17,
            24,
            true,
            "let number: i32 = \"hello\";",
            Some("expected `i32`, found `&str`"),
        )],
        vec![],
    ));
    let explanation = explain(&error, &analyze(&error));
    assert_eq!(explanation.concept.as_deref(), Some("Types"));
    assert!(explanation.principle.as_deref().unwrap().starts_with("Rust usually infers types from usage"));
}
