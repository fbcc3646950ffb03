use rxplain::patch::{apply_edits_to_source, apply_edits_to_sources, apply_line_edits, char_column_to_byte, validate_edit, Edit, EditError, Patch};

#[test]
fn applies_insertion_edit_on_non_ascii_line() {
    let line = "    let 名前 = \"hi\";";

    let start = char_column_to_byte(line, 18).unwrap();
    let end = char_column_to_byte(line, 18).unwrap();

    let edited = apply_line_edits(line, &[(start, end, ".to_string()")]).unwrap();

    assert_eq!(edited, "    let 名前 = \"hi\".to_string();");
}

#[test]
fn applies_replacement_edit() {
    let line = "let x = 42;";

    let start = char_column_to_byte(line, 5).unwrap();
    let end = char_column_to_byte(line, 6).unwrap();

    let edited = apply_line_edits(line, &[(start, end, "y")]).unwrap();

    assert_eq!(edited, "let y = 42;");
}

#[test]
fn rejects_overlapping_edits_on_same_line() {
    let line = "let value = 1;";

    let a_start = char_column_to_byte(line, 5).unwrap();
    let a_end = char_column_to_byte(line, 10).unwrap();
    let b_start = char_column_to_byte(line, 7).unwrap();
    let b_end = char_column_to_byte(line, 12).unwrap();

    let result = apply_line_edits(line, &[(a_start, a_end, "x"), (b_start, b_end, "y")]);

    assert!(result.is_err());
}

#[test]
fn applies_multiple_non_overlapping_edits_on_same_line() {
    let line = "let a = 1; let b = 2;";

    let first_start = char_column_to_byte(line, 5).unwrap();
    let second_start = char_column_to_byte(line, 16).unwrap();

    let edits = vec![(first_start, first_start, "mut "), (second_start, second_start, "mut ")];

    let edited = apply_line_edits(line, &edits).unwrap();

    assert_eq!(edited, "let mut a = 1; let mut b = 2;");
}

#[test]
fn patch_preview_renders_edits() {
    let edit = Edit::new("src/main.rs", 2, 9, 9, "mut ");

    let patch = Patch::new(vec![edit]);

    let preview = patch.preview();

    assert!(preview.contains("src/main.rs"));
    assert!(preview.contains("+mut "));
}

#[test]
fn preview_is_exact_and_groups_files_in_order() {
    let patch = Patch::new(vec![
        Edit::new("src/z.rs", 3, 1, 4, ""),
        Edit::new("src/a.rs", 2, 9, 9, "mut "),
        Edit::new("src/z.rs", 1, 5, 5, "&"),
    ]);
    assert_eq!(
        patch.preview(),
        "--- src/a.rs\n+++ src/a.rs\n@@ -2:9 @@\n+mut \n\
         --- src/z.rs\n+++ src/z.rs\n@@ -3:1 @@\n- (remove)\n@@ -1:5 @@\n+&\n"
    );
    assert_eq!(Patch::new(Vec::new()).preview(), "");
}

#[test]
fn column_beyond_line_is_refused() {
    assert_eq!(char_column_to_byte("abc", 5), Err(EditError::ColumnOutOfRange { column: 5 }));
    assert_eq!(char_column_to_byte("abc", 4), Ok(3));
    assert_eq!(char_column_to_byte("abc", 0), Ok(0));
    assert_eq!(char_column_to_byte("名前x", 3), Ok(6));
}

#[test]
fn whole_file_edit_keeps_lines_and_final_newline() {
    let source = "fn main() {\n    let x = 1;\n}\n";
    let edits = vec![Edit::new("src/main.rs", 2, 9, 9, "mut ")];
    assert_eq!(
        apply_edits_to_source(source, &edits),
        Ok("fn main() {\n    let mut x = 1;\n}\n".to_string())
    );
    let no_newline = "a\nb";
    assert_eq!(
        apply_edits_to_source(no_newline, &vec![Edit::new("f", 2, 1, 2, "c")]),
        Ok("a\nc".to_string())
    );
}

#[test]
fn whole_file_edit_errors() {
    let source = "fn main() {}\n";
    assert_eq!(
        apply_edits_to_source(source, &vec![Edit::new("f", 999, 1, 1, "x")]),
        Err(EditError::LineOutOfRange { line: 999 })
    );
    assert_eq!(
        apply_edits_to_source(source, &vec![Edit::new("f", 1, 5, 3, "x")]),
        Err(EditError::InvalidRange)
    );
    assert_eq!(
        apply_edits_to_source(source, &vec![Edit::new("f", 1, 1, 4, "x"), Edit::new("f", 1, 2, 3, "y")]),
        Err(EditError::Overlap { line_number: 1 })
    );
}

#[test]
fn labelled_edit_keeps_its_fields() {
    let edit = Edit::new("src/main.rs", 2, 9, 9, "mut ").with_label("make `x` mutable");
    assert_eq!(edit.label.as_deref(), Some("make `x` mutable"));
    assert_eq!(edit.line, 2);
    assert_eq!(edit.anchor, None);
}

#[test]
fn no_edits_give_back_the_text() {
    let source = "fn main() {\n\n    let x = 1;\n}\n\n";
    assert_eq!(apply_edits_to_source(source, &Vec::new()), Ok(source.to_string()));
    assert_eq!(apply_edits_to_source("", &Vec::new()), Ok(String::new()));
    assert_eq!(apply_edits_to_source("a\r\nb", &Vec::new()), Ok("a\nb".to_string()));
}

#[test]
fn patch_validate_rejects_out_of_range_line() {
    let source = "fn main() {}\n";
    let edit = Edit::new("src/main.rs", 999, 1, 1, "x");
    let patch = Patch::new(vec![edit]);
    let err = validate_edit(&patch.edits[0], source).err().expect("should fail");
    assert_eq!(err, EditError::LineOutOfRange { line: 999 });
}

#[test]
fn stale_anchor_is_refused() {
    let mut edit = Edit::new("src/main.rs", 1, 1, 1, "x");
    edit.anchor = Some("zz".to_string());
    assert_eq!(validate_edit(&edit, "ab\n"), Err(EditError::StaleAnchor { line: 1 }));
    assert_eq!(apply_edits_to_source("ab\n", &vec![edit]), Err(EditError::StaleAnchor { line: 1 }));
    let mut fresh = Edit::new("src/main.rs", 1, 1, 1, "x");
    fresh.anchor = Some("ab".to_string());
    assert_eq!(validate_edit(&fresh, "  ab  \n"), Ok(()));
    assert_eq!(apply_edits_to_source("  ab  \n", &vec![fresh]), Ok("x  ab  \n".to_string()));
}

#[test]
fn several_files_are_rewritten_together_or_not_at_all() {
    let first = ("ab\n".to_string(), vec![Edit::new("a.rs", 1, 2, 2, "x")]);
    let second = ("cd".to_string(), vec![Edit::new("b.rs", 1, 1, 2, "y")]);
    let broken = ("ef\n".to_string(), vec![Edit::new("c.rs", 3, 1, 1, "z")]);
    assert_eq!(
        apply_edits_to_sources(&vec![first.clone(), second.clone()]),
        Ok(vec!["axb\n".to_string(), "yd".to_string()])
    );
    assert_eq!(
        apply_edits_to_sources(&vec![first, second, broken]),
        Err((2, EditError::LineOutOfRange { line: 3 }))
    );
}

#[test]
fn edit_order_does_not_matter() {
    let source = "let a = 1;\nlet b = 2;\n";
    let x = Edit::new("f", 1, 5, 5, "mut ");
    let y = Edit::new("f", 2, 9, 10, "3");
    let z = Edit::new("f", 1, 9, 10, "4");
    let one = apply_edits_to_source(source, &vec![x.clone(), y.clone(), z.clone()]);
    let two = apply_edits_to_source(source, &vec![z, y, x]);
    assert_eq!(one, Ok("let mut a = 4;\nlet b = 3;\n".to_string()));
    assert_eq!(one, two);
}
