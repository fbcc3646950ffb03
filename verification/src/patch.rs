//! Reviewable patches: character-column edits grouped into a patch, their
//! validation against a source file, and their application.

use crate::diagnostics::clone_opt_string;
use crate::lines::{
    apply_char_edits, apply_from, char_edits_view, char_index_at_byte, char_pos, edits_within,
    final_newline, is_boundary, join_lines, lemma_char_pos, lemma_rewrite_nothing, lemma_rewrite_one,
    lines_spec, no_cr, replaced_line, opt_string_view, rewrite_source, rewrite_spec,
    split_lines, string_views, CharEdit, RewriteError, SourceEdit, source_edits_view,
    source_edits_within,
};
use crate::order::{insert_unique, insert_unique_sorted, str_views};
use crate::text::{byte_len, byte_offset, char_count, dec, push_dec, str_eq, trim_spec, trim_str};
use vstd::prelude::*;
use vstd::string::StringExecFns;

verus! {

/// One replacement: on `line` (1-based), the characters from column
/// `start_col` to `end_col` (1-based) become `replacement`.
#[derive(Debug, PartialEq, Eq)]
pub struct Edit {
    pub file: String,
    pub line: u32,
    pub start_col: u32,
    pub end_col: u32,
    pub replacement: String,
    pub label: Option<String>,
    /// The trimmed source line the edit was generated against.
    pub anchor: Option<String>,
}

/// The mathematical content of an [`Edit`].
pub struct EditView {
    pub file: Seq<char>,
    pub line: u32,
    pub start_col: u32,
    pub end_col: u32,
    pub replacement: Seq<char>,
    pub label: Option<Seq<char>>,
    pub anchor: Option<Seq<char>>,
}

impl View for Edit {
    type V = EditView;

    open spec fn view(&self) -> EditView {
        EditView {
            file: self.file@,
            line: self.line,
            start_col: self.start_col,
            end_col: self.end_col,
            replacement: self.replacement@,
            label: opt_string_view(self.label),
            anchor: opt_string_view(self.anchor),
        }
    }
}

/// The views of a list of edits.
pub open spec fn edits_view(v: Seq<Edit>) -> Seq<EditView> {
    v.map_values(|e: Edit| e@)
}

impl Clone for Edit {
    fn clone(&self) -> (r: Self)
        ensures
            r == *self,
    {
        Edit {
            file: self.file.clone(),
            line: self.line,
            start_col: self.start_col,
            end_col: self.end_col,
            replacement: self.replacement.clone(),
            label: clone_opt_string(&self.label),
            anchor: clone_opt_string(&self.anchor),
        }
    }
}

impl Edit {
    /// An unlabelled edit.
    pub fn new(file: &str, line: u32, start_col: u32, end_col: u32, replacement: &str) -> (r: Self)
        ensures
            r.file@ == file@,
            r.line == line,
            r.start_col == start_col,
            r.end_col == end_col,
            r.replacement@ == replacement@,
            r.label is None,
            r.anchor is None,
    {
        Edit {
            file: String::from_str(file),
            line,
            start_col,
            end_col,
            replacement: String::from_str(replacement),
            label: None,
            anchor: None,
        }
    }

    /// The same edit with a label.
    pub fn with_label(self, label: &str) -> (r: Self)
        ensures
            r == (Edit { label: r.label, ..self }),
            opt_string_view(r.label) == Some(label@),
    {
        Edit { label: Some(String::from_str(label)), ..self }
    }
}

/// A set of edits that is applied, or refused, as a whole.
#[derive(Debug)]
pub struct Patch {
    pub edits: Vec<Edit>,
}

impl Clone for Patch {
    fn clone(&self) -> (r: Self)
        ensures
            r.edits@ == self.edits@,
    {
        Patch { edits: clone_edits(&self.edits) }
    }
}

impl Default for Patch {
    fn default() -> (r: Self)
        ensures
            r.edits@ == Seq::<Edit>::empty(),
    {
        Patch { edits: Vec::new() }
    }
}

/// A copy of a list of edits.
pub fn clone_edits(v: &Vec<Edit>) -> (r: Vec<Edit>)
    ensures
        r@ == v@,
{
    let mut r: Vec<Edit> = Vec::new();
    let mut i: usize = 0;
    while i < v.len()
        invariant
            i <= v.len(),
            r@ == v@.take(i as int),
        decreases v.len() - i,
    {
        r.push(v[i].clone());
        assert(v@.take(i + 1) =~= v@.take(i as int).push(v@[i as int]));
        i = i + 1;
    }
    assert(v@.take(v.len() as int) =~= v@);
    r
}

impl Patch {
    /// The patch made of `edits`.
    pub fn new(edits: Vec<Edit>) -> (r: Self)
        ensures
            r.edits == edits,
    {
        Patch { edits }
    }
}

/// Why an edit or a patch cannot be applied.
#[derive(Debug, Clone, Copy, PartialEq, Eq, Structural)]
pub enum EditError {
    /// The edit's line (1-based) is not a line of the file.
    LineOutOfRange { line: u32 },
    /// The column (1-based) lies beyond the end of its line.
    ColumnOutOfRange { column: u32 },
    /// The edit ends before it starts.
    InvalidRange,
    /// The trimmed text of the edit's line (1-based) is no longer the one the
    /// edit was made against: the patch is stale.
    StaleAnchor { line: u32 },
    /// Two edits on this line (1-based) overlap.
    Overlap { line_number: usize },
    /// Edits on one line could not be applied in order.
    OverlappingEdits,
}

// ---------------------------------------------------------------------------
// Columns and byte offsets
// ---------------------------------------------------------------------------

/// The character position that a 1-based column names (column 0 counts as
/// the start of the line).
pub open spec fn col_index(col: u32) -> int {
    if col == 0 {
        0
    } else {
        col - 1
    }
}

/// The byte offset of a 1-based character column, or an error when the
/// column lies beyond one past the last character.
pub open spec fn column_byte_spec(line: Seq<char>, col: u32) -> Result<int, EditError> {
    if col_index(col) <= line.len() {
        Ok(byte_len(line.take(col_index(col))) as int)
    } else {
        Err(EditError::ColumnOutOfRange { column: col })
    }
}

/// The byte offset of the 1-based character column `char_column` in `line`.
pub fn char_column_to_byte(line: &str, char_column: u32) -> (r: Result<usize, EditError>)
    ensures
        match r {
            Ok(b) => column_byte_spec(line@, char_column) == Ok::<int, EditError>(b as int),
            Err(e) => column_byte_spec(line@, char_column) == Err::<int, EditError>(e),
        },
{
    crate::text::byte_len_fits(line);
    let n = char_count(line);
    let target: usize = if char_column == 0 {
        0
    } else {
        (char_column - 1) as usize
    };
    if target > n {
        return Err(EditError::ColumnOutOfRange { column: char_column });
    }
    proof {
        crate::text::lemma_byte_len_prefix(line@, target as int);
    }
    Ok(byte_offset(line, target))
}

/// Byte-offset edits of one line, converted to character positions.
pub open spec fn byte_edits_as_chars(line: Seq<char>, edits: Seq<(usize, usize, &str)>) -> Seq<CharEdit> {
    edits.map_values(
        |x: (usize, usize, &str)| (char_pos(line, x.0 as int), char_pos(line, x.1 as int), x.2@),
    )
}

/// Every offset of the edits is a character boundary of the line.
pub open spec fn byte_edits_on_boundaries(line: Seq<char>, edits: Seq<(usize, usize, &str)>) -> bool {
    forall|i: int|
        0 <= i < edits.len() ==> is_boundary(line, #[trigger] edits[i].0 as int) && is_boundary(
            line,
            edits[i].1 as int,
        )
}

/// Applies byte-offset edits, in the given order, to one line: the text
/// between them is kept, and an edit that starts before the previous one
/// ended is refused.
pub fn apply_line_edits(line: &str, edits: &[(usize, usize, &str)]) -> (r: Result<String, EditError>)
    requires
        byte_edits_on_boundaries(line@, edits@),
    ensures
        match r {
            Ok(s) => apply_from(line@, byte_edits_as_chars(line@, edits@), 0) == Some(s@),
            Err(e) => e == EditError::OverlappingEdits && apply_from(
                line@,
                byte_edits_as_chars(line@, edits@),
                0,
            ) is None,
        },
{
    let ghost target = byte_edits_as_chars(line@, edits@);
    let mut converted: Vec<(usize, usize, String)> = Vec::new();
    let mut i: usize = 0;
    while i < edits.len()
        invariant
            i <= edits@.len(),
            target == byte_edits_as_chars(line@, edits@),
            byte_edits_on_boundaries(line@, edits@),
            char_edits_view(converted@) == target.take(i as int),
            edits_within(line@, char_edits_view(converted@)),
        decreases edits@.len() - i,
    {
        let (b0, b1, text) = edits[i];
        assert(is_boundary(line@, b0 as int) && is_boundary(line@, b1 as int));
        let s = char_index_at_byte(line, b0);
        let e = char_index_at_byte(line, b1);
        let (s, e) = match (s, e) {
            (Some(s), Some(e)) => (s, e),
            _ => {
                assert(false);
                (0, 0)
            },
        };
        proof {
            lemma_char_pos(line@, s as int);
            lemma_char_pos(line@, e as int);
        }
        let ghost before = converted@;
        converted.push((s, e, String::from_str(text)));
        assert(char_edits_view(converted@) =~= char_edits_view(before).push(
            (s as int, e as int, text@),
        ));
        assert(target.take(i + 1) =~= target.take(i as int).push(target[i as int]));
        assert forall|q: int| 0 <= q < char_edits_view(converted@).len() implies 0
            <= #[trigger] char_edits_view(converted@)[q].0 <= line@.len() && 0 <= char_edits_view(
            converted@,
        )[q].1 <= line@.len() by {
            if q < before.len() {
                assert(char_edits_view(converted@)[q] == char_edits_view(before)[q]);
            }
        }
        i = i + 1;
    }
    assert(target.take(edits@.len() as int) =~= target);
    match apply_char_edits(line, &converted) {
        Some(s) => Ok(s),
        None => Err(EditError::OverlappingEdits),
    }
}

// ---------------------------------------------------------------------------
// Whole-file edits
// ---------------------------------------------------------------------------

/// Does the anchor of an edit (if it has one) still match the trimmed line?
pub open spec fn anchor_holds(anchor: Option<String>, line: Seq<char>) -> bool {
    match anchor {
        Some(a) => a@ == trim_spec(line),
        None => true,
    }
}

/// The in-file form of an edit, or the first problem with it: its line must
/// exist, still read as its anchor says (trimmed), both columns must lie
/// within that line, and it must not end before it starts.
pub open spec fn prepared_edit(e: Edit, lines: Seq<Seq<char>>) -> Result<SourceEdit, EditError> {
    let li = col_index(e.line);
    if li >= lines.len() {
        Err(EditError::LineOutOfRange { line: e.line })
    } else if !anchor_holds(e.anchor, lines[li]) {
        Err(EditError::StaleAnchor { line: e.line })
    } else if col_index(e.start_col) > lines[li].len() {
        Err(EditError::ColumnOutOfRange { column: e.start_col })
    } else if col_index(e.end_col) > lines[li].len() {
        Err(EditError::ColumnOutOfRange { column: e.end_col })
    } else if col_index(e.start_col) > col_index(e.end_col) {
        Err(EditError::InvalidRange)
    } else {
        Ok((li, col_index(e.start_col), col_index(e.end_col), e.replacement@))
    }
}

/// All edits in their in-file form, or the problem with the first bad one.
pub open spec fn prepared_edits(es: Seq<Edit>, lines: Seq<Seq<char>>) -> Result<Seq<SourceEdit>, EditError>
    decreases es.len(),
{
    if es.len() == 0 {
        Ok(Seq::empty())
    } else {
        match prepared_edits(es.drop_last(), lines) {
            Err(e) => Err(e),
            Ok(prev) => match prepared_edit(es.last(), lines) {
                Err(e) => Err(e),
                Ok(x) => Ok(prev.push(x)),
            },
        }
    }
}

/// The result of applying `es` to `source`.
pub open spec fn apply_edits_spec(source: Seq<char>, es: Seq<Edit>) -> Result<Seq<char>, EditError> {
    match prepared_edits(es, lines_spec(source)) {
        Err(e) => Err(e),
        Ok(se) => match rewrite_spec(source, se) {
            Ok(s) => Ok(s),
            Err(RewriteError::Overlap { line }) => Err(EditError::Overlap { line_number: line }),
            Err(RewriteError::OverlappingEdits) => Err(EditError::OverlappingEdits),
        },
    }
}

/// Checks one edit against the file it targets.
pub fn validate_edit(edit: &Edit, source: &str) -> (r: Result<(), EditError>)
    ensures
        match r {
            Ok(_) => prepared_edit(*edit, lines_spec(source@)) is Ok,
            Err(e) => prepared_edit(*edit, lines_spec(source@)) == Err::<SourceEdit, EditError>(e),
        },
{
    let lines = split_lines(source);
    match prepare_edit(edit, &lines) {
        Ok(_) => Ok(()),
        Err(e) => Err(e),
    }
}

/// The in-file form of one edit, checked against the lines of its file.
fn prepare_edit(edit: &Edit, lines: &Vec<String>) -> (r: Result<(usize, usize, usize, String), EditError>)
    ensures
        match r {
            Ok(x) => prepared_edit(*edit, string_views(lines@)) == Ok::<SourceEdit, EditError>(
                (x.0 as int, x.1 as int, x.2 as int, x.3@),
            ),
            Err(e) => prepared_edit(*edit, string_views(lines@)) == Err::<SourceEdit, EditError>(e),
        },
{
    let li: usize = if edit.line == 0 {
        0
    } else {
        (edit.line - 1) as usize
    };
    if li >= lines.len() {
        return Err(EditError::LineOutOfRange { line: edit.line });
    }
    assert(string_views(lines@)[li as int] == lines@[li as int]@);
    if let Some(a) = &edit.anchor {
        if !str_eq(a.as_str(), trim_str(lines[li].as_str())) {
            return Err(EditError::StaleAnchor { line: edit.line });
        }
    }
    let n = char_count(lines[li].as_str());
    let s: usize = if edit.start_col == 0 {
        0
    } else {
        (edit.start_col - 1) as usize
    };
    let e: usize = if edit.end_col == 0 {
        0
    } else {
        (edit.end_col - 1) as usize
    };
    if s > n {
        return Err(EditError::ColumnOutOfRange { column: edit.start_col });
    }
    if e > n {
        return Err(EditError::ColumnOutOfRange { column: edit.end_col });
    }
    if s > e {
        return Err(EditError::InvalidRange);
    }
    Ok((li, s, e, edit.replacement.clone()))
}

/// Applies `edits` to the text of their file: every edit is checked; the
/// edits are ordered by line and start; overlapping neighbours refuse the
/// patch; otherwise each line gets its edits and the line structure (and a
/// final newline) is kept.
pub fn apply_edits_to_source(source: &str, edits: &Vec<Edit>) -> (r: Result<String, EditError>)
    ensures
        match r {
            Ok(s) => apply_edits_spec(source@, edits@) == Ok::<Seq<char>, EditError>(s@),
            Err(e) => apply_edits_spec(source@, edits@) == Err::<Seq<char>, EditError>(e),
        },
{
    let lines = split_lines(source);
    let ghost lv = lines_spec(source@);
    let mut prepared: Vec<(usize, usize, usize, String)> = Vec::new();
    let mut i: usize = 0;
    assert(edits@.take(0) =~= Seq::<Edit>::empty());
    assert(source_edits_view(prepared@) =~= Seq::<SourceEdit>::empty());
    while i < edits.len()
        invariant
            i <= edits.len(),
            lv == lines_spec(source@),
            string_views(lines@) == lv,
            prepared_edits(edits@.take(i as int), lv) == Ok::<Seq<SourceEdit>, EditError>(
                source_edits_view(prepared@),
            ),
            source_edits_within(source@, source_edits_view(prepared@)),
        decreases edits.len() - i,
    {
        assert(edits@.take(i + 1).drop_last() =~= edits@.take(i as int));
        assert(edits@.take(i + 1).last() == edits@[i as int]);
        match prepare_edit(&edits[i], &lines) {
            Ok(x) => {
                let ghost before = prepared@;
                prepared.push(x);
                assert(source_edits_view(prepared@) =~= source_edits_view(before).push(
                    (x.0 as int, x.1 as int, x.2 as int, x.3@),
                ));
                assert forall|q: int| 0 <= q < source_edits_view(prepared@).len() implies 0
                    <= #[trigger] source_edits_view(prepared@)[q].0 < lv.len() && 0
                    <= source_edits_view(prepared@)[q].1 <= lv[source_edits_view(prepared@)[q].0].len()
                    && 0 <= source_edits_view(prepared@)[q].2 <= lv[source_edits_view(
                    prepared@,
                )[q].0].len() by {
                    if q < before.len() {
                        assert(source_edits_view(prepared@)[q] == source_edits_view(before)[q]);
                    }
                }
            },
            Err(e) => {
                proof {
                    lemma_prepared_error_sticks(edits@, lv, i + 1, e);
                }
                return Err(e);
            },
        }
        i = i + 1;
    }
    assert(edits@.take(edits.len() as int) =~= edits@);
    match rewrite_source(source, prepared) {
        Ok(s) => Ok(s),
        Err(RewriteError::Overlap { line }) => Err(EditError::Overlap { line_number: line }),
        Err(RewriteError::OverlappingEdits) => Err(EditError::OverlappingEdits),
    }
}

/// The first bad edit decides the result for every longer prefix.
proof fn lemma_prepared_error_sticks(es: Seq<Edit>, lines: Seq<Seq<char>>, a: int, e: EditError)
    requires
        0 < a <= es.len(),
        prepared_edits(es.take(a), lines) == Err::<Seq<SourceEdit>, EditError>(e),
    ensures
        prepared_edits(es, lines) == Err::<Seq<SourceEdit>, EditError>(e),
    decreases es.len() - a,
{
    if a < es.len() {
        assert(es.take(a + 1).drop_last() =~= es.take(a));
        lemma_prepared_error_sticks(es, lines, a + 1, e);
    } else {
        assert(es.take(a) =~= es);
    }
}


// ---------------------------------------------------------------------------
// Preview
// ---------------------------------------------------------------------------

/// The files the edits touch, each once, in ascending order.
pub open spec fn preview_files(es: Seq<EditView>) -> Seq<Seq<char>>
    decreases es.len(),
{
    if es.len() == 0 {
        Seq::empty()
    } else {
        insert_unique(preview_files(es.drop_last()), es.last().file)
    }
}

/// The lines that show one edit: its position, then `+` and the
/// replacement, or `-` and ` (remove)` for a deletion.
pub open spec fn edit_preview(e: EditView) -> Seq<char> {
    "@@ -"@ + dec(e.line as nat) + ":"@ + dec(e.start_col as nat) + " @@\n"@ + (if e.replacement.len()
        == 0 {
        "- (remove)"@
    } else {
        "+"@ + e.replacement
    }) + "\n"@
}

/// The previews of the edits to `file`, in their order.
pub open spec fn file_body(file: Seq<char>, es: Seq<EditView>) -> Seq<char>
    decreases es.len(),
{
    if es.len() == 0 {
        Seq::empty()
    } else if es.last().file == file {
        file_body(file, es.drop_last()) + edit_preview(es.last())
    } else {
        file_body(file, es.drop_last())
    }
}

/// `--- file` and `+++ file` lines.
pub open spec fn file_header(file: Seq<char>) -> Seq<char> {
    "--- "@ + file + "\n+++ "@ + file + "\n"@
}

/// The preview of each file in turn.
pub open spec fn preview_blocks(files: Seq<Seq<char>>, es: Seq<EditView>) -> Seq<char>
    decreases files.len(),
{
    if files.len() == 0 {
        Seq::empty()
    } else {
        preview_blocks(files.drop_last(), es) + file_header(files.last()) + file_body(files.last(), es)
    }
}

/// A unified-diff-like rendering of a patch: for each touched file, in
/// ascending order, a header and its edits in the order they were given.
pub open spec fn preview_spec(es: Seq<EditView>) -> Seq<char> {
    preview_blocks(preview_files(es), es)
}

fn push_edit_preview(out: &mut String, e: &Edit)
    ensures
        final(out)@ == old(out)@ + edit_preview(e@),
{
    out.append("@@ -");
    push_dec(out, e.line as u64);
    out.append(":");
    push_dec(out, e.start_col as u64);
    out.append(" @@\n");
    if e.replacement.unicode_len() == 0 {
        out.append("- (remove)");
    } else {
        out.append("+");
        out.append(e.replacement.as_str());
    }
    out.append("\n");
    assert(final(out)@ =~= old(out)@ + edit_preview(e@));
}

impl Patch {
    /// A reviewable rendering of the patch; empty for no edits.
    pub fn preview(&self) -> (r: String)
        ensures
            r@ == preview_spec(edits_view(self.edits@)),
    {
        let ghost ev = edits_view(self.edits@);
        let mut files: Vec<String> = Vec::new();
        let mut i: usize = 0;
        assert(ev.take(0) =~= Seq::<EditView>::empty());
        assert(str_views(files@) =~= Seq::<Seq<char>>::empty());
        while i < self.edits.len()
            invariant
                i <= self.edits.len(),
                ev == edits_view(self.edits@),
                str_views(files@) == preview_files(ev.take(i as int)),
            decreases self.edits.len() - i,
        {
            assert(ev[i as int] == self.edits@[i as int]@);
            insert_unique_sorted(&mut files, self.edits[i].file.as_str());
            assert(ev.take(i + 1).drop_last() =~= ev.take(i as int));
            i = i + 1;
        }
        assert(ev.take(self.edits.len() as int) =~= ev);
        let ghost fv = str_views(files@);
        let mut out = String::new();
        let mut k: usize = 0;
        assert(fv.take(0) =~= Seq::<Seq<char>>::empty());
        while k < files.len()
            invariant
                k <= files.len(),
                ev == edits_view(self.edits@),
                fv == str_views(files@),
                out@ == preview_blocks(fv.take(k as int), ev),
            decreases files.len() - k,
        {
            let file = files[k].as_str();
            assert(fv[k as int] == file@);
            out.append("--- ");
            out.append(file);
            out.append("\n+++ ");
            out.append(file);
            out.append("\n");
            let ghost head = out@;
            assert(head =~= preview_blocks(fv.take(k as int), ev) + file_header(file@));
            let mut j: usize = 0;
            assert(ev.take(0) =~= Seq::<EditView>::empty());
            assert(head + file_body(file@, ev.take(0)) =~= head);
            while j < self.edits.len()
                invariant
                    j <= self.edits.len(),
                    ev == edits_view(self.edits@),
                    out@ == head + file_body(file@, ev.take(j as int)),
                decreases self.edits.len() - j,
            {
                let e = &self.edits[j];
                assert(ev[j as int] == e@);
                assert(ev.take(j + 1).drop_last() =~= ev.take(j as int));
                if crate::text::str_eq(e.file.as_str(), file) {
                    push_edit_preview(&mut out, e);
                    assert(out@ =~= head + file_body(file@, ev.take(j + 1)));
                }
                j = j + 1;
            }
            assert(ev.take(self.edits.len() as int) =~= ev);
            assert(fv.take(k + 1).drop_last() =~= fv.take(k as int));
            assert(fv.take(k + 1).last() == file@);
            k = k + 1;
        }
        assert(fv.take(files.len() as int) =~= fv);
        out
    }
}

// ---------------------------------------------------------------------------
// Several files at once
// ---------------------------------------------------------------------------

/// The views of `(text, edits)` pairs, one per file.
pub open spec fn file_edits_view(v: Seq<(String, Vec<Edit>)>) -> Seq<(Seq<char>, Seq<Edit>)> {
    v.map_values(|x: (String, Vec<Edit>)| (x.0@, x.1@))
}

/// Every file's text with its edits applied, in order, or the index and
/// error of the first file that fails.
pub open spec fn apply_all_spec(files: Seq<(Seq<char>, Seq<Edit>)>) -> Result<Seq<Seq<char>>, (usize, EditError)>
    decreases files.len(),
{
    if files.len() == 0 {
        Ok(Seq::empty())
    } else {
        match apply_all_spec(files.drop_last()) {
            Err(e) => Err(e),
            Ok(prev) => match apply_edits_spec(files.last().0, files.last().1) {
                Err(e) => Err(((files.len() - 1) as usize, e)),
                Ok(t) => Ok(prev.push(t)),
            },
        }
    }
}

/// Rewrites several files in memory: each `(text, edits)` pair gives the
/// file's new text; either every file succeeds, or the first error comes
/// back and no new text at all, so that nothing needs to be written.
pub fn apply_edits_to_sources(files: &Vec<(String, Vec<Edit>)>) -> (r: Result<Vec<String>, (usize, EditError)>)
    ensures
        match r {
            Ok(v) => apply_all_spec(file_edits_view(files@)) == Ok::<Seq<Seq<char>>, (usize, EditError)>(
                str_views(v@),
            ),
            Err(e) => apply_all_spec(file_edits_view(files@)) == Err::<Seq<Seq<char>>, (usize, EditError)>(e),
        },
{
    let ghost fv = file_edits_view(files@);
    let mut out: Vec<String> = Vec::new();
    let mut i: usize = 0;
    assert(fv.take(0) =~= Seq::<(Seq<char>, Seq<Edit>)>::empty());
    assert(str_views(out@) =~= Seq::<Seq<char>>::empty());
    while i < files.len()
        invariant
            i <= files.len(),
            fv == file_edits_view(files@),
            apply_all_spec(fv.take(i as int)) == Ok::<Seq<Seq<char>>, (usize, EditError)>(str_views(out@)),
        decreases files.len() - i,
    {
        let pair = &files[i];
        assert(fv[i as int] == (pair.0@, pair.1@));
        assert(fv.take(i + 1).drop_last() =~= fv.take(i as int));
        assert(fv.take(i + 1).last() == fv[i as int]);
        match apply_edits_to_source(pair.0.as_str(), &pair.1) {
            Ok(t) => {
                let ghost before = str_views(out@);
                out.push(t);
                assert(str_views(out@) =~= before.push(t@));
            },
            Err(e) => {
                proof {
                    lemma_apply_all_error_sticks(fv, i + 1, (i, e));
                }
                return Err((i, e));
            },
        }
        i = i + 1;
    }
    assert(fv.take(files.len() as int) =~= fv);
    Ok(out)
}

/// The first failing file decides the result for every longer prefix.
proof fn lemma_apply_all_error_sticks(fv: Seq<(Seq<char>, Seq<Edit>)>, a: int, e: (usize, EditError))
    requires
        0 < a <= fv.len(),
        apply_all_spec(fv.take(a)) == Err::<Seq<Seq<char>>, (usize, EditError)>(e),
    ensures
        apply_all_spec(fv) == Err::<Seq<Seq<char>>, (usize, EditError)>(e),
    decreases fv.len() - a,
{
    if a < fv.len() {
        assert(fv.take(a + 1).drop_last() =~= fv.take(a));
        lemma_apply_all_error_sticks(fv, a + 1, e);
    } else {
        assert(fv.take(a) =~= fv);
    }
}

// ---------------------------------------------------------------------------
// The order of edits
// ---------------------------------------------------------------------------

/// The in-file form of an edit that passes its checks.
pub open spec fn prepared_form(e: Edit) -> SourceEdit {
    (col_index(e.line), col_index(e.start_col), col_index(e.end_col), e.replacement@)
}

/// The position where an edit starts: its line and start column.
pub open spec fn start_of(e: Edit) -> (int, int) {
    (col_index(e.line), col_index(e.start_col))
}

/// No two edits start at the same place.
pub open spec fn distinct_starts(es: Seq<Edit>) -> bool {
    forall|i: int, j: int| 0 <= i < j < es.len() ==> start_of(#[trigger] es[i]) != start_of(#[trigger] es[j])
}

proof fn lemma_prepared_all_ok(es: Seq<Edit>, lines: Seq<Seq<char>>)
    requires
        forall|i: int| 0 <= i < es.len() ==> #[trigger] prepared_edit(es[i], lines) is Ok,
    ensures
        prepared_edits(es, lines) == Ok::<Seq<SourceEdit>, EditError>(
            es.map_values(|e: Edit| prepared_form(e)),
        ),
    decreases es.len(),
{
    if es.len() > 0 {
        let t = es.drop_last();
        assert forall|i: int| 0 <= i < t.len() implies #[trigger] prepared_edit(t[i], lines) is Ok by {
            assert(t[i] == es[i]);
        }
        lemma_prepared_all_ok(t, lines);
        assert(prepared_edit(es[es.len() - 1], lines) is Ok);
        assert(prepared_edit(es.last(), lines) == Ok::<SourceEdit, EditError>(prepared_form(es.last())));
        assert(es.map_values(|e: Edit| prepared_form(e)) =~= t.map_values(|e: Edit| prepared_form(e)).push(
            prepared_form(es.last()),
        ));
    } else {
        assert(es.map_values(|e: Edit| prepared_form(e)) =~= Seq::<SourceEdit>::empty());
    }
}

/// An edit sequence holds no value twice when no two edits start alike.
proof fn lemma_distinct_starts_count(es: Seq<Edit>, x: Edit)
    requires
        distinct_starts(es),
    ensures
        es.to_multiset().count(x) <= 1,
{
    broadcast use vstd::seq_lib::group_to_multiset_ensures;

    if es.to_multiset().count(x) > 1 {
        assert(es.contains(x));
        let a = choose|a: int| 0 <= a < es.len() && es[a] == x;
        let r = es.remove(a);
        assert(r.to_multiset() =~= es.to_multiset().remove(es[a]));
        assert(r.to_multiset().count(x) > 0);
        assert(r.contains(x));
        let b = choose|b: int| 0 <= b < r.len() && r[b] == x;
        if b < a {
            assert(r[b] == es[b]);
            assert(start_of(es[b]) != start_of(es[a]));
        } else {
            assert(r[b] == es[b + 1]);
            assert(start_of(es[a]) != start_of(es[b + 1]));
        }
    }
}

/// Two permutations of one edit sequence: when no two edits start alike,
/// so does the other.
proof fn lemma_distinct_starts_permuted(es1: Seq<Edit>, es2: Seq<Edit>)
    requires
        es1.to_multiset() == es2.to_multiset(),
        distinct_starts(es1),
    ensures
        distinct_starts(es2),
{
    broadcast use vstd::seq_lib::group_to_multiset_ensures;

    assert forall|i: int, j: int| 0 <= i < j < es2.len() implies start_of(#[trigger] es2[i]) != start_of(
        #[trigger] es2[j],
    ) by {
        if start_of(es2[i]) == start_of(es2[j]) {
            assert(es2.contains(es2[i]) && es2.contains(es2[j]));
            assert(es1.to_multiset().count(es2[i]) > 0 && es1.to_multiset().count(es2[j]) > 0);
            assert(es1.contains(es2[i]) && es1.contains(es2[j]));
            if es2[i] == es2[j] {
                let r = es2.remove(j);
                assert(r.to_multiset() =~= es2.to_multiset().remove(es2[j]));
                assert(r[i] == es2[i]);
                assert(r.contains(es2[i]));
                assert(r.to_multiset().count(es2[i]) > 0);
                lemma_distinct_starts_count(es1, es2[i]);
            } else {
                let a = choose|a: int| 0 <= a < es1.len() && es1[a] == es2[i];
                let b = choose|b: int| 0 <= b < es1.len() && es1[b] == es2[j];
                assert(a != b);
                if a < b {
                    assert(start_of(es1[a]) != start_of(es1[b]));
                } else {
                    assert(start_of(es1[b]) != start_of(es1[a]));
                }
            }
        }
    }
}

proof fn lemma_prepared_distinct_keys(es: Seq<Edit>)
    requires
        distinct_starts(es),
    ensures
        crate::sorting::distinct_keys(es.map_values(|e: Edit| prepared_form(e)), crate::lines::edit_key()),
{
    let p = es.map_values(|e: Edit| prepared_form(e));
    let key = crate::lines::edit_key();
    assert forall|i: int, j: int| 0 <= i < j < p.len() implies key(#[trigger] p[i]) != key(#[trigger] p[j]) by {
        assert(p[i] == prepared_form(es[i]) && p[j] == prepared_form(es[j]));
        assert(start_of(es[i]) != start_of(es[j]));
        let (l1, s1) = start_of(es[i]);
        let (l2, s2) = start_of(es[j]);
        assert(0 <= s1 < 0x1_0000_0000 && 0 <= s2 < 0x1_0000_0000);
        assert(l1 >= 0 && l2 >= 0);
        assert(l1 * 0x1_0000_0000_0000_0000 + s1 != l2 * 0x1_0000_0000_0000_0000 + s2) by (nonlinear_arith)
            requires
                (l1, s1) != (l2, s2),
                0 <= s1 < 0x1_0000_0000,
                0 <= s2 < 0x1_0000_0000,
        ;
    }
}

/// The order in which edits are given does not matter: two orderings of
/// the same edits, each of which passes its checks and no two of which
/// start at the same place, give the same result.
pub proof fn lemma_edit_order_irrelevant(source: Seq<char>, es1: Seq<Edit>, es2: Seq<Edit>)
    requires
        es1.to_multiset() == es2.to_multiset(),
        distinct_starts(es1),
        forall|i: int| 0 <= i < es1.len() ==> #[trigger] prepared_edit(es1[i], lines_spec(source)) is Ok,
    ensures
        apply_edits_spec(source, es1) == apply_edits_spec(source, es2),
{
    broadcast use vstd::seq_lib::group_to_multiset_ensures;

    let lines = lines_spec(source);
    lemma_distinct_starts_permuted(es1, es2);
    assert forall|i: int| 0 <= i < es2.len() implies #[trigger] prepared_edit(es2[i], lines) is Ok by {
        assert(es2.contains(es2[i]));
        assert(es2.to_multiset().count(es2[i]) > 0);
        assert(es1.contains(es2[i]));
        let a = choose|a: int| 0 <= a < es1.len() && es1[a] == es2[i];
        assert(prepared_edit(es1[a], lines) is Ok);
    }
    lemma_prepared_all_ok(es1, lines);
    lemma_prepared_all_ok(es2, lines);
    let p1 = es1.map_values(|e: Edit| prepared_form(e));
    let p2 = es2.map_values(|e: Edit| prepared_form(e));
    lemma_prepared_distinct_keys(es1);
    lemma_prepared_distinct_keys(es2);
    assert forall|x: SourceEdit| p1.contains(x) <==> p2.contains(x) by {
        if p1.contains(x) {
            let a = choose|a: int| 0 <= a < p1.len() && p1[a] == x;
            assert(es1.contains(es1[a]));
            assert(es1.to_multiset().count(es1[a]) > 0);
            assert(es2.contains(es1[a]));
            let b = choose|b: int| 0 <= b < es2.len() && es2[b] == es1[a];
            assert(p2[b] == x);
        }
        if p2.contains(x) {
            let b = choose|b: int| 0 <= b < p2.len() && p2[b] == x;
            assert(es2.contains(es2[b]));
            assert(es2.to_multiset().count(es2[b]) > 0);
            assert(es1.contains(es2[b]));
            let a = choose|a: int| 0 <= a < es1.len() && es1[a] == es2[b];
            assert(p1[a] == x);
        }
    }
    let key = crate::lines::edit_key();
    crate::sorting::lemma_stable_exists(p1, key);
    let c1 = crate::lines::sorted_edits(p1);
    crate::sorting::lemma_stable_same_elements(p1, p2, c1, key);
    let c2 = crate::lines::sorted_edits(p2);
    crate::sorting::lemma_stable_sort_unique(c1, c2, p2, key);
    assert(rewrite_spec(source, p1) == rewrite_spec(source, p2));
}

/// Applying no edits gives back the file's text unchanged, where the text
/// holds no carriage return.
pub proof fn lemma_no_edits_keep_text(source: Seq<char>)
    requires
        no_cr(source),
    ensures
        apply_edits_spec(source, Seq::empty()) == Ok::<Seq<char>, EditError>(source),
{
    lemma_rewrite_nothing(source);
}

/// A patch of one edit that passes its checks replaces exactly the edit's
/// columns on the edit's line with its replacement: every other line, and
/// the final newline, stay as they were.
pub proof fn lemma_one_edit(source: Seq<char>, e: Edit)
    requires
        prepared_edit(e, lines_spec(source)) is Ok,
    ensures
        apply_edits_spec(source, seq![e]) == Ok::<Seq<char>, EditError>(
            join_lines(
                replaced_line(
                    lines_spec(source),
                    (col_index(e.line), col_index(e.start_col), col_index(e.end_col), e.replacement@),
                ),
            ) + final_newline(source),
        ),
{
    let x = (col_index(e.line), col_index(e.start_col), col_index(e.end_col), e.replacement@);
    assert(seq![e].drop_last() =~= Seq::<Edit>::empty());
    assert(seq![e].last() == e);
    assert(prepared_edits(Seq::<Edit>::empty(), lines_spec(source)) == Ok::<Seq<SourceEdit>, EditError>(
        Seq::<SourceEdit>::empty(),
    ));
    assert(prepared_edit(e, lines_spec(source)) == Ok::<SourceEdit, EditError>(x));
    assert(prepared_edits(seq![e], lines_spec(source)) == Ok::<Seq<SourceEdit>, EditError>(
        Seq::<SourceEdit>::empty().push(x),
    ));
    assert(Seq::<SourceEdit>::empty().push(x) =~= seq![x]);
    lemma_rewrite_one(source, x);
}

/// A preview shows every touched file once, in ascending order.
pub proof fn lemma_preview_files(es: Seq<EditView>)
    ensures
        crate::order::strictly_ascending(preview_files(es)),
        preview_files(es).to_set() =~= es.map_values(|e: EditView| e.file).to_set(),
    decreases es.len(),
{
    if es.len() == 0 {
        assert(es.map_values(|e: EditView| e.file) =~= Seq::<Seq<char>>::empty());
        assert(preview_files(es).to_set() =~= Set::<Seq<char>>::empty());
        assert(Seq::<Seq<char>>::empty().to_set() =~= Set::<Seq<char>>::empty());
    } else {
        lemma_preview_files(es.drop_last());
        crate::order::lemma_insert_unique(preview_files(es.drop_last()), es.last().file);
        let m = es.map_values(|e: EditView| e.file);
        let m0 = es.drop_last().map_values(|e: EditView| e.file);
        assert(m =~= m0.push(es.last().file));
        assert(m0.push(es.last().file).to_set() =~= m0.to_set().insert(es.last().file)) by {
            assert forall|y: Seq<char>| m0.push(es.last().file).contains(y) <==> m0.to_set().insert(
                es.last().file,
            ).contains(y) by {
                if m0.push(es.last().file).contains(y) {
                    let k = choose|k: int| 0 <= k < m0.push(es.last().file).len() && m0.push(
                        es.last().file,
                    )[k] == y;
                    if k < m0.len() {
                        assert(m0[k] == y);
                    }
                }
                if m0.to_set().insert(es.last().file).contains(y) {
                    if y == es.last().file {
                        assert(m0.push(es.last().file)[m0.len() as int] == y);
                    } else {
                        let k = choose|k: int| 0 <= k < m0.len() && m0[k] == y;
                        assert(m0.push(es.last().file)[k] == y);
                    }
                }
            }
        }
    }
}

} // verus!
