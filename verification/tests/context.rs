use rxplain::context::SourceContext;
use rxplain::diagnostics::{Span, SpanText};

fn span(line_start: u32, line_end: u32, label: Option<&str>) -> Span {
    Span {
        file_name: "src/main.rs".to_string(),
        line_start,
        line_end,
        column_start: 1,
        column_end: 2,
        is_primary: true,
        label: label.map(|l| l.to_string()),
        text: vec![SpanText { text: String::new() }],
        suggested_replacement: None,
        suggestion_applicability: None,
    }
}

#[test]
fn excerpt_has_two_lines_of_context() {
    let source = "l1\nl2\nl3\nl4\nl5\nl6\nl7\n";
    let c = SourceContext::from_source(&span(4, 4, Some("here")), "/p/src/main.rs".to_string(), source).unwrap();
    assert_eq!((c.start_line, c.end_line), (2, 6));
    assert_eq!(c.lines.len(), 5);
    assert_eq!(c.lines[0].text, "l2");
    assert!(c.lines[2].highlighted);
    assert!(!c.lines[1].highlighted);
    assert_eq!(c.lines[2].label.as_deref(), Some("here"));
    assert_eq!(c.lines[3].label, None);
    assert_eq!(c.file, "/p/src/main.rs");
}

#[test]
fn excerpt_is_clipped_to_the_file() {
    let source = "only\n";
    let c = SourceContext::from_source(&span(1, 3, None), "f".to_string(), source).unwrap();
    assert_eq!((c.start_line, c.end_line), (1, 1));
    assert_eq!(c.lines.len(), 1);
    assert!(SourceContext::from_source(&span(1, 1, None), "f".to_string(), "").is_none());
    let beyond = SourceContext::from_source(&span(9, 9, None), "f".to_string(), source).unwrap();
    assert_eq!((beyond.start_line, beyond.end_line), (7, 1));
    assert!(beyond.lines.is_empty());
}

#[test]
fn excerpts_of_the_same_range_are_kept_once() {
    let source = "a\nb\nc\n";
    let one = SourceContext::from_source(&span(1, 1, None), "f".to_string(), source).unwrap();
    let two = SourceContext::from_source(&span(2, 2, Some("x")), "f".to_string(), source).unwrap();
    let three = SourceContext::from_source(&span(3, 3, None), "g".to_string(), source).unwrap();
    let kept = SourceContext::distinct(vec![one, two, three]);
    assert_eq!(kept.len(), 2);
    assert_eq!(kept[0].lines[1].label, None);
    assert_eq!(kept[1].file, "g");
}
