use rxplain::analyzer::{analyze, DiagnosticAnalysis};
use rxplain::diagnostics::{ParsedError, Span, SpanText};
use rxplain::repair_context::{
    byte_to_char_column, extract_backticked_identifier, extract_moved_var_name, find_token_byte,
    RepairContext,
};

fn error_with_spans(message: &str, spans: Vec<(u32, bool, &str)>) -> ParsedError {
    let parsed_spans: Vec<Span> = spans
        .iter()
        .map(|(line, is_primary, label)| Span {
            file_name: "src/main.rs".to_string(),
            line_start: *line,
            line_end: *line,
            column_start: 5,
            column_end: 10,
            is_primary: *is_primary,
            label: Some(label.to_string()),
            text: vec![SpanText { text: "code".to_string() }],
            suggested_replacement: None,
            suggestion_applicability: None,
        })
        .collect();
    ParsedError {
        code: String::new(),
        raw_message: message.to_string(),
        spans: parsed_spans,
        ..Default::default()
    }
}

fn ctx<'a>(error: &'a ParsedError, analysis: &'a DiagnosticAnalysis, source: &'a str) -> RepairContext<'a> {
    let sources = vec![("src/main.rs".to_string(), source.to_string())];
    RepairContext::new(error, analysis, sources)
}

#[test]
fn moved_var_from_message() {
    let source = "fn main() {\n    let value = String::from(\"x\");\n    drop(value);\n}\n";
    let error = error_with_spans("borrow of moved value: `value`", vec![(3, true, "value moved here")]);
    let analysis = analyze(&error);
    let rctx = ctx(&error, &analysis, source);
    let moved = rctx.moved_var().unwrap();
    assert_eq!(moved.name, "value");
    assert_eq!(moved.move_site.as_ref().unwrap().line, 3);
}

#[test]
fn moved_var_detects_use_after_move() {
    let source = "fn main() {\n    let value = String::from(\"x\");\n    drop(value);\n    println!(\"{}\", value);\n}\n";
    let error = error_with_spans(
        "use of moved value: `value`",
        vec![(3, false, "value moved here"), (4, true, "value used here after move")],
    );
    let analysis = analyze(&error);
    let rctx = ctx(&error, &analysis, source);
    let moved = rctx.moved_var().unwrap();
    assert_eq!(moved.use_after_move.as_ref().unwrap().line, 4);
}

#[test]
fn moved_var_without_evidence_is_none() {
    let source = "fn main() {}\n";
    let error = error_with_spans("mismatched types", vec![(1, true, "expected i32")]);
    let analysis = analyze(&error);
    let rctx = ctx(&error, &analysis, source);
    assert!(rctx.moved_var().is_none());
}

#[test]
fn call_argument_detection() {
    let source = "fn main() {\n    drop(value);\n}\n";
    let error = error_with_spans("use of moved value: `value`", vec![(2, true, "moved here")]);
    let analysis = analyze(&error);
    let rctx = ctx(&error, &analysis, source);
    assert!(rctx.is_call_argument("value", "src/main.rs", 2));
    assert!(!rctx.is_call_argument("value", "src/main.rs", 1));
}

#[test]
fn binding_reports_mutability() {
    let source = "fn main() {\n    let x = 10;\n    x += 5;\n}\n";
    let error = error_with_spans("cannot assign twice to immutable variable `x`", vec![(3, true, "cannot assign")]);
    let analysis = analyze(&error);
    let rctx = ctx(&error, &analysis, source);
    let binding = rctx.binding("x", 3).unwrap();
    assert!(!binding.is_mut);
    assert_eq!(binding.line, 2);
}

#[test]
fn binding_reports_mut() {
    let source = "fn main() {\n    let mut x = 10;\n    x += 5;\n}\n";
    let error = error_with_spans("cannot assign twice to immutable variable `x`", vec![(3, true, "cannot assign")]);
    let analysis = analyze(&error);
    let rctx = ctx(&error, &analysis, source);
    let binding = rctx.binding("x", 3).unwrap();
    assert!(binding.is_mut);
}

#[test]
fn find_token_byte_finds_whole_word() {
    let line = "    drop(value);";
    let pos = find_token_byte(line, "value").unwrap();
    assert_eq!(&line[pos..pos + 5], "value");
}

#[test]
fn find_token_byte_ignores_partial_match() {
    let line = "    let myvalue = 1;";
    assert!(find_token_byte(line, "value").is_none());
}

#[test]
fn byte_to_char_column_works_unicode() {
    let line = "    let 名前 = 1;";
    assert_eq!(byte_to_char_column(line, 0), 1);
    assert_eq!(byte_to_char_column(line, 4), 5);
    let name_start = line.find('名').unwrap();
    assert_eq!(byte_to_char_column(line, name_start), 9);
}

#[test]
fn token_search_skips_partial_matches_and_handles_unicode() {
    assert_eq!(find_token_byte("名 value_x value", "value"), Some(12));
    assert_eq!(find_token_byte("value", ""), None);
    assert_eq!(byte_to_char_column("abc", 10), 4);
}

#[test]
fn labels_are_lowercased_before_matching() {
    let source = "fn main() {\n    let value = 1;\n    drop(value);\n    use_it(value);\n}\n";
    let error = error_with_spans(
        "use of moved value: `value`",
        vec![(3, false, "Value MOVED HERE"), (4, true, "Value Used Here After Move")],
    );
    let analysis = analyze(&error);
    let rctx = ctx(&error, &analysis, source);
    let moved = rctx.moved_var().unwrap();
    assert_eq!(moved.move_site.as_ref().unwrap().line, 3);
    assert_eq!(moved.use_after_move.as_ref().unwrap().line, 4);
}

#[test]
fn backticked_identifier_must_be_alphanumeric() {
    assert_eq!(extract_backticked_identifier("move of ` value ` here").as_deref(), Some("value"));
    assert_eq!(extract_backticked_identifier("type `Vec<i32>`"), None);
    assert_eq!(extract_backticked_identifier("no ticks"), None);
    assert_eq!(extract_backticked_identifier("``"), None);
    assert_eq!(extract_backticked_identifier("`名前`").as_deref(), Some("名前"));
}

#[test]
fn moved_name_falls_back_to_labels() {
    let error = error_with_spans("some error", vec![(3, true, "`data` VALUE MOVED here")]);
    assert_eq!(extract_moved_var_name(&error).as_deref(), Some("data"));
    let error = error_with_spans("cannot move out of `self.items`", vec![]);
    assert_eq!(extract_moved_var_name(&error).as_deref(), Some("self.items"));
}

#[test]
fn lines_of_a_context_follow_str_lines() {
    let error = error_with_spans("x", vec![(1, true, "l")]);
    let analysis = analyze(&error);
    let rctx = ctx(&error, &analysis, "a\r\nb\n");
    assert_eq!(rctx.line("src/main.rs", 1).as_deref(), Some("a"));
    assert_eq!(rctx.line("src/main.rs", 0).as_deref(), Some("a"));
    assert_eq!(rctx.line("src/main.rs", 2).as_deref(), Some("b"));
    assert_eq!(rctx.line("src/main.rs", 3), None);
    assert_eq!(rctx.line("src/other.rs", 1), None);
    assert_eq!(rctx.primary_file(), Some("src/main.rs"));
}

#[test]
fn binding_is_the_nearest_declaration_above() {
    let source = "fn main() {\n    let x = 1;\n    let mut x = 2;\n    x += 5;\n}\n";
    let error = error_with_spans("cannot assign twice to immutable variable `x`", vec![(4, true, "cannot assign")]);
    let analysis = analyze(&error);
    let rctx = ctx(&error, &analysis, source);
    let binding = rctx.binding("x", 4).unwrap();
    assert_eq!(binding.line, 3);
    assert!(binding.is_mut);
    assert!(rctx.binding("y", 4).is_none());
}
