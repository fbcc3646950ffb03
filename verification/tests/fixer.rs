use rxplain::diagnostics::CompilerSuggestion;
use rxplain::fixer::{fix_source, fix_sources, machine_applicable_by_file, FixError};

fn suggestion(line: u32, column: u32, column_end: u32, replacement: &str, applicability: &str) -> CompilerSuggestion {
    CompilerSuggestion {
        file: "src/main.rs".to_string(),
        line,
        column,
        column_end,
        replacement: replacement.to_string(),
        applicability: applicability.to_string(),
        label: None,
    }
}

fn apply(source: &str, suggestions: Vec<CompilerSuggestion>) -> Result<String, FixError> {
    let groups = machine_applicable_by_file(&suggestions);
    if groups.is_empty() {
        return Ok(source.to_string());
    }
    assert_eq!(groups.len(), 1);
    fix_source(source, &groups[0].1)
}

#[test]
fn applies_machine_applicable_fix() {
    let source = "fn main() {\n    let name = \"Manisha\";\n}\n";
    let result = apply(source, vec![suggestion(2, 25, 25, ".to_string()", "MachineApplicable")]).unwrap();
    assert_eq!(result, "fn main() {\n    let name = \"Manisha\".to_string();\n}\n");
}

#[test]
fn applies_multiple_non_overlapping_suggestions() {
    let source = "fn main() {\n    let a = 1;\n    let b = 2;\n    println!(\"{} {}\", a, b);\n}\n";
    let result = apply(
        source,
        vec![suggestion(2, 9, 9, "mut ", "MachineApplicable"), suggestion(3, 9, 9, "mut ", "MachineApplicable")],
    )
    .unwrap();
    assert_eq!(result, "fn main() {\n    let mut a = 1;\n    let mut b = 2;\n    println!(\"{} {}\", a, b);\n}\n");
}

#[test]
fn rejects_overlapping_suggestions() {
    let source = "fn main() {\n    let name = value;\n}\n";
    let result = apply(
        source,
        vec![suggestion(2, 10, 14, "other", "MachineApplicable"), suggestion(2, 12, 16, "x", "MachineApplicable")],
    );
    assert_eq!(result, Err(FixError::Overlap { line_number: 2 }));
}

#[test]
fn ignores_non_machine_applicable_suggestions() {
    let source = "fn main() {\n    let name = \"Manisha\";\n}\n";
    let result = apply(source, vec![suggestion(2, 25, 25, ".to_string()", "MaybeIncorrect")]).unwrap();
    assert_eq!(result, "fn main() {\n    let name = \"Manisha\";\n}\n");
}

#[test]
fn fix_errors_name_the_bad_suggestion() {
    let source = "ab\n";
    assert_eq!(fix_source(source, &vec![suggestion(5, 1, 1, "x", "MachineApplicable")]), Err(FixError::OutsideFile { line: 5 }));
    assert_eq!(
        fix_source(source, &vec![suggestion(1, 3, 2, "x", "MachineApplicable")]),
        Err(FixError::InvalidRange { line: 1, column: 3, column_end: 2 })
    );
    assert_eq!(
        fix_source(source, &vec![suggestion(1, 5, 5, "x", "MachineApplicable")]),
        Err(FixError::StartOutsideLine { line: 1, column: 5 })
    );
    assert_eq!(
        fix_source(source, &vec![suggestion(1, 1, 9, "x", "MachineApplicable")]),
        Err(FixError::EndOutsideLine { line: 1, column: 1, column_end: 9 })
    );
}

#[test]
fn columns_count_characters_on_non_ascii_lines() {
    let source = "fn main() {\n    let 名前 = \"hi\";\n}\n";
    let result = apply(source, vec![suggestion(2, 18, 18, ".to_string()", "MachineApplicable")]).unwrap();
    assert_eq!(result, "fn main() {\n    let 名前 = \"hi\".to_string();\n}\n");
    assert_eq!(
        fix_source("名\n", &vec![suggestion(1, 2, 2, "x", "MachineApplicable")]),
        Ok("名x\n".to_string())
    );
    assert_eq!(
        fix_source("名\n", &vec![suggestion(1, 4, 4, "x", "MachineApplicable")]),
        Err(FixError::StartOutsideLine { line: 1, column: 4 })
    );
}

#[test]
fn groups_keep_first_appearance_order() {
    let mut other = suggestion(1, 1, 1, "y", "MachineApplicable");
    other.file = "src/lib.rs".to_string();
    let groups = machine_applicable_by_file(&vec![
        suggestion(1, 1, 1, "x", "MachineApplicable"),
        other,
        suggestion(2, 1, 1, "z", "MachineApplicable"),
        suggestion(3, 1, 1, "w", "HasPlaceholders"),
    ]);
    assert_eq!(groups.len(), 2);
    assert_eq!(groups[0].0, "src/main.rs");
    assert_eq!(groups[0].1.len(), 2);
    assert_eq!(groups[1].0, "src/lib.rs");
}

#[test]
fn several_files_are_fixed_together_or_not_at_all() {
    let good = ("let a = 1;\n".to_string(), vec![suggestion(1, 5, 5, "mut ", "MachineApplicable")]);
    let also_good = ("let b = 2;\n".to_string(), vec![suggestion(1, 5, 5, "mut ", "MachineApplicable")]);
    let bad = ("x\n".to_string(), vec![suggestion(7, 1, 1, "y", "MachineApplicable")]);
    assert_eq!(
        fix_sources(&vec![good.clone(), also_good.clone()]),
        Ok(vec!["let mut a = 1;\n".to_string(), "let mut b = 2;\n".to_string()])
    );
    assert_eq!(
        fix_sources(&vec![good, bad, also_good]),
        Err((1, FixError::OutsideFile { line: 7 }))
    );
    assert_eq!(fix_sources(&Vec::new()), Ok(Vec::new()));
}
