//! Compiler-driven fixes: picking the machine-applicable suggestion of a
//! diagnostic, and applying machine-applicable suggestions to a file's text
//! with overlap checking.

use crate::diagnostics::{CompilerSuggestion, ParsedError, SuggestionView, suggestions_view};
use crate::lines::{
    lines_spec, rewrite_source,
    rewrite_spec, source_edits_view, source_edits_within, split_lines, string_views, RewriteError,
    SourceEdit,
};
use crate::order::str_views;
use crate::patch::col_index;
use crate::sorting::{lemma_insert_stable, lemma_stable_empty, lemma_stable_sort_unique, stable_sort_of};
use crate::text::{byte_len, char_count, char_width, lemma_byte_len_push, str_eq};
use vstd::prelude::*;
use vstd::string::StrSliceExecFns;
use vstd::string::StringExecFns;

verus! {

/// Whether a fix can be applied automatically.
#[derive(Debug, Clone, Copy, PartialEq, Eq, Structural)]
pub enum FixKind {
    CompilerSuggested,
    RequiresHumanJudgment,
}

/// The fix proposed for one error.
pub struct FixSuggestion {
    pub kind: FixKind,
    pub description: String,
    pub suggestion: Option<CompilerSuggestion>,
}

/// The applicability that marks a suggestion as safe to apply unreviewed.
pub open spec fn is_machine_applicable(s: SuggestionView) -> bool {
    s.applicability == "MachineApplicable"@
}

/// Index of the first machine-applicable suggestion at or after `i`.
pub open spec fn first_machine_applicable(ss: Seq<SuggestionView>, i: int) -> Option<int>
    decreases ss.len() - i,
{
    if i < 0 || i >= ss.len() {
        None
    } else if is_machine_applicable(ss[i]) {
        Some(i)
    } else {
        first_machine_applicable(ss, i + 1)
    }
}

/// The fix for an error: its first machine-applicable suggestion, or a call
/// for human judgment when it has none.
pub fn suggest_fix(err: &ParsedError) -> (r: FixSuggestion)
    ensures
        match first_machine_applicable(err@.suggestions, 0) {
            Some(i) => {
                &&& r.kind == FixKind::CompilerSuggested
                &&& r.suggestion matches Some(s) && s@ == err@.suggestions[i]
                &&& r.description@ == "rustc provided a machine-applicable suggestion for this location."@
            },
            None => r.kind == FixKind::RequiresHumanJudgment && r.suggestion is None
                && r.description@ == "The compiler did not provide an automatically applicable fix."@,
        },
{
    let ghost sv = err@.suggestions;
    let mut i: usize = 0;
    while i < err.suggestions.len()
        invariant
            i <= err.suggestions.len(),
            sv == err@.suggestions,
            first_machine_applicable(sv, 0) == first_machine_applicable(sv, i as int),
        decreases err.suggestions.len() - i,
    {
        assert(sv[i as int] == err.suggestions@[i as int]@);
        if str_eq(err.suggestions[i].applicability.as_str(), "MachineApplicable") {
            return FixSuggestion {
                kind: FixKind::CompilerSuggested,
                description: String::from_str(
                    "rustc provided a machine-applicable suggestion for this location.",
                ),
                suggestion: Some(err.suggestions[i].clone()),
            };
        }
        i = i + 1;
    }
    FixSuggestion {
        kind: FixKind::RequiresHumanJudgment,
        description: String::from_str("The compiler did not provide an automatically applicable fix."),
        suggestion: None,
    }
}

// ---------------------------------------------------------------------------
// Grouping by file
// ---------------------------------------------------------------------------

/// The machine-applicable suggestions, in order.
pub open spec fn machine_applicable(ss: Seq<SuggestionView>) -> Seq<SuggestionView>
    decreases ss.len(),
{
    if ss.len() == 0 {
        Seq::empty()
    } else if is_machine_applicable(ss.last()) {
        machine_applicable(ss.drop_last()).push(ss.last())
    } else {
        machine_applicable(ss.drop_last())
    }
}

/// The files of `ss`, each once, in order of first appearance.
pub open spec fn distinct_files(ss: Seq<SuggestionView>) -> Seq<Seq<char>>
    decreases ss.len(),
{
    if ss.len() == 0 {
        Seq::empty()
    } else if distinct_files(ss.drop_last()).contains(ss.last().file) {
        distinct_files(ss.drop_last())
    } else {
        distinct_files(ss.drop_last()).push(ss.last().file)
    }
}

/// The suggestions of `ss` for file `f`, in order.
pub open spec fn for_file(ss: Seq<SuggestionView>, f: Seq<char>) -> Seq<SuggestionView>
    decreases ss.len(),
{
    if ss.len() == 0 {
        Seq::empty()
    } else if ss.last().file == f {
        for_file(ss.drop_last(), f).push(ss.last())
    } else {
        for_file(ss.drop_last(), f)
    }
}

/// `groups` holds, per file of `ss` in order of first appearance, that
/// file's suggestions in order.
pub open spec fn grouped_by_file(
    groups: Seq<(String, Vec<CompilerSuggestion>)>,
    ss: Seq<SuggestionView>,
) -> bool {
    &&& groups.len() == distinct_files(ss).len()
    &&& forall|g: int|
        0 <= g < groups.len() ==> #[trigger] groups[g].0@ == distinct_files(ss)[g]
            && suggestions_view(groups[g].1@) == for_file(ss, distinct_files(ss)[g])
}

/// Introduces [`grouped_by_file`] from its parts.
proof fn lemma_grouped_intro(groups: Seq<(String, Vec<CompilerSuggestion>)>, ss: Seq<SuggestionView>)
    requires
        groups.len() == distinct_files(ss).len(),
        forall|h: int|
            #![trigger groups[h]]
            0 <= h < groups.len() ==> groups[h].0@ == distinct_files(ss)[h] && suggestions_view(groups[h].1@) =~= for_file(ss, distinct_files(ss)[h]),
    ensures
        grouped_by_file(groups, ss),
{
    assert forall|h: int| 0 <= h < groups.len() implies #[trigger] suggestions_view(groups[h].1@) == for_file(ss, distinct_files(ss)[h]) by {
        assert(suggestions_view(groups[h].1@) =~= for_file(ss, distinct_files(ss)[h]));
    }
}

/// The distinct files are pairwise different.
proof fn lemma_distinct_files_unique(ss: Seq<SuggestionView>)
    ensures
        forall|i: int, j: int|
            0 <= i < j < distinct_files(ss).len() ==> distinct_files(ss)[i] != distinct_files(ss)[j],
    decreases ss.len(),
{
    if ss.len() > 0 {
        lemma_distinct_files_unique(ss.drop_last());
        let d0 = distinct_files(ss.drop_last());
        if !d0.contains(ss.last().file) {
            let d = distinct_files(ss);
            assert forall|i: int, j: int| 0 <= i < j < d.len() implies d[i] != d[j] by {
                if j == d0.len() {
                    assert(d[i] == d0[i]);
                    assert(d[j] == ss.last().file);
                } else {
                    assert(d[i] == d0[i] && d[j] == d0[j]);
                }
            }
        }
    }
}

/// A file with no entry among the distinct files has no suggestions.
proof fn lemma_for_file_absent(ss: Seq<SuggestionView>, f: Seq<char>)
    requires
        !distinct_files(ss).contains(f),
    ensures
        for_file(ss, f) == Seq::<SuggestionView>::empty(),
    decreases ss.len(),
{
    if ss.len() > 0 {
        let d0 = distinct_files(ss.drop_last());
        if !d0.contains(ss.last().file) {
            assert(distinct_files(ss) == d0.push(ss.last().file));
            assert(distinct_files(ss)[d0.len() as int] == ss.last().file);
            if ss.last().file == f {
                assert(distinct_files(ss).contains(f));
            }
            assert forall|k: int| 0 <= k < d0.len() implies d0[k] != f by {
                assert(distinct_files(ss)[k] == d0[k]);
            }
        }
        lemma_for_file_absent(ss.drop_last(), f);
    }
}

/// The group for `file`, if there is one.
fn find_group(groups: &Vec<(String, Vec<CompilerSuggestion>)>, file: &str) -> (r: Option<usize>)
    ensures
        r matches Some(g) ==> g < groups@.len() && groups@[g as int].0@ == file@,
        r is None ==> forall|k: int| 0 <= k < groups@.len() ==> groups@[k].0@ != file@,
{
    let mut g: usize = 0;
    while g < groups.len()
        invariant
            g <= groups.len(),
            forall|k: int| 0 <= k < g ==> groups@[k].0@ != file@,
        decreases groups.len() - g,
    {
        if str_eq(groups[g].0.as_str(), file) {
            return Some(g);
        }
        g = g + 1;
    }
    None
}

/// The machine-applicable suggestions grouped by file, files in order of
/// first appearance.
pub fn machine_applicable_by_file(suggestions: &Vec<CompilerSuggestion>) -> (r: Vec<(String, Vec<CompilerSuggestion>)>)
    ensures
        grouped_by_file(r@, machine_applicable(suggestions_view(suggestions@))),
{
    let ghost sv = suggestions_view(suggestions@);
    let mut groups: Vec<(String, Vec<CompilerSuggestion>)> = Vec::new();
    let mut i: usize = 0;
    while i < suggestions.len()
        invariant
            i <= suggestions.len(),
            sv == suggestions_view(suggestions@),
            grouped_by_file(groups@, machine_applicable(sv.take(i as int))),
        decreases suggestions.len() - i,
    {
        let ghost prev = machine_applicable(sv.take(i as int));
        assert(sv.take(i + 1).drop_last() =~= sv.take(i as int));
        assert(sv.take(i + 1).last() == suggestions@[i as int]@);
        let s = &suggestions[i];
        if str_eq(s.applicability.as_str(), "MachineApplicable") {
            let ghost cur = prev.push(s@);
            assert(machine_applicable(sv.take(i + 1)) == cur);
            assert(cur.drop_last() =~= prev);
            let slot = find_group(&groups, s.file.as_str());
            if let Some(g) = slot {
                assert(distinct_files(prev)[g as int] == s.file@);
                assert(distinct_files(prev).contains(s@.file));
                assert(distinct_files(cur) == distinct_files(prev));
                proof {
                    lemma_distinct_files_unique(prev);
                }
                let ghost old_groups = groups@;
                groups[g].1.push(s.clone());
                assert(groups@.len() == old_groups.len());
                assert(groups@[g as int].0 == old_groups[g as int].0);
                assert(suggestions_view(groups@[g as int].1@) =~= suggestions_view(old_groups[g as int].1@).push(s@));
                proof {
                    assert forall|h: int| #![trigger groups@[h]] 0 <= h < groups@.len() implies groups@[h].0@
                        == distinct_files(cur)[h] && suggestions_view(groups@[h].1@) =~= for_file(
                        cur,
                        distinct_files(cur)[h],
                    ) by {
                        let f = distinct_files(cur)[h];
                        assert(old_groups[h].0@ == distinct_files(prev)[h]);
                        if h == g {
                            assert(for_file(cur, f) == for_file(prev, f).push(s@));
                            assert(suggestions_view(groups@[h].1@) =~= suggestions_view(
                                old_groups[h].1@,
                            ).push(s@));
                        } else {
                            assert(groups@[h] == old_groups[h]);
                            assert(f != s.file@);
                            assert(for_file(cur, f) == for_file(prev, f));
                        }
                        assert(suggestions_view(groups@[h].1@) =~= for_file(cur, f));
                    }
                    lemma_grouped_intro(groups@, cur);
                }
            } else {
                assert(!distinct_files(prev).contains(s@.file)) by {
                    if distinct_files(prev).contains(s@.file) {
                        let k = choose|k: int|
                            0 <= k < distinct_files(prev).len() && distinct_files(prev)[k] == s@.file;
                        assert(groups@[k].0@ == distinct_files(prev)[k]);
                        assert(groups@[k].0@ == s.file@);
                    }
                }
                assert(distinct_files(cur) == distinct_files(prev).push(s@.file));
                proof {
                    lemma_for_file_absent(prev, s@.file);
                }
                let ghost old_groups = groups@;
                let mut v: Vec<CompilerSuggestion> = Vec::new();
                v.push(s.clone());
                groups.push((s.file.clone(), v));
                proof {
                    assert forall|h: int| #![trigger groups@[h]] 0 <= h < groups@.len() implies groups@[h].0@
                        == distinct_files(cur)[h] && suggestions_view(groups@[h].1@) =~= for_file(
                        cur,
                        distinct_files(cur)[h],
                    ) by {
                        let f = distinct_files(cur)[h];
                        if h == old_groups.len() {
                            assert(for_file(cur, f) == for_file(prev, f).push(s@));
                            assert(suggestions_view(groups@[h].1@) =~= seq![s@]);
                            assert(Seq::<SuggestionView>::empty().push(s@) =~= seq![s@]);
                        } else {
                            assert(groups@[h] == old_groups[h]);
                            assert(distinct_files(prev)[h] == f);
                            assert(f != s.file@);
                            assert(for_file(cur, f) == for_file(prev, f));
                        }
                        assert(suggestions_view(groups@[h].1@) =~= for_file(cur, f));
                    }
                    lemma_grouped_intro(groups@, cur);
                }
            }
        } else {
            assert(machine_applicable(sv.take(i + 1)) == prev);
        }
        i = i + 1;
    }
    assert(sv.take(suggestions.len() as int) =~= sv);
    groups
}

// ---------------------------------------------------------------------------
// Applying suggestions to a file
// ---------------------------------------------------------------------------

/// Why suggestions could not be applied to a file.
#[derive(Debug, Clone, Copy, PartialEq, Eq, Structural)]
pub enum FixError {
    /// The suggestion's line is not a line of the file.
    OutsideFile { line: u32 },
    /// The suggestion ends before it starts.
    InvalidRange { line: u32, column: u32, column_end: u32 },
    /// The suggestion starts beyond the end of its line.
    StartOutsideLine { line: u32, column: u32 },
    /// The suggestion ends beyond the end of its line.
    EndOutsideLine { line: u32, column: u32, column_end: u32 },
    /// Two suggestions overlap on this line (1-based).
    Overlap { line_number: usize },
    /// Suggestions on one line could not be applied in order.
    OverlappingEdits,
}

/// Suggestions are applied in order of line, then column.
pub open spec fn suggestion_key() -> spec_fn(SuggestionView) -> int {
    |s: SuggestionView| s.line * 0x1_0000_0000 + s.column
}

/// `ss` in stable (line, column) order.
pub open spec fn sorted_suggestions(ss: Seq<SuggestionView>) -> Seq<SuggestionView> {
    choose|t: Seq<SuggestionView>| stable_sort_of(t, ss, suggestion_key())
}

/// The problem with one suggestion against the file's lines, if any. Its
/// columns are 1-based character columns, as rustc reports them.
pub open spec fn fix_problem(s: SuggestionView, lines: Seq<Seq<char>>) -> Option<FixError> {
    let li = col_index(s.line);
    let start = col_index(s.column);
    let end = col_index(s.column_end);
    if li >= lines.len() {
        Some(FixError::OutsideFile { line: s.line })
    } else if start > end {
        Some(FixError::InvalidRange { line: s.line, column: s.column, column_end: s.column_end })
    } else if start > lines[li].len() {
        Some(FixError::StartOutsideLine { line: s.line, column: s.column })
    } else if end > lines[li].len() {
        Some(FixError::EndOutsideLine { line: s.line, column: s.column, column_end: s.column_end })
    } else {
        None
    }
}

/// The problem with the first bad suggestion of `ss`.
pub open spec fn first_fix_problem(ss: Seq<SuggestionView>, lines: Seq<Seq<char>>) -> Option<FixError>
    decreases ss.len(),
{
    if ss.len() == 0 {
        None
    } else {
        match first_fix_problem(ss.drop_last(), lines) {
            Some(e) => Some(e),
            None => fix_problem(ss.last(), lines),
        }
    }
}

/// The in-file edit of a suggestion: its character columns become
/// character positions of its line.
pub open spec fn fix_edit(s: SuggestionView) -> SourceEdit {
    (col_index(s.line), col_index(s.column), col_index(s.column_end), s.replacement)
}

/// The in-file edits of all suggestions.
pub open spec fn fix_edits(ss: Seq<SuggestionView>) -> Seq<SourceEdit> {
    ss.map_values(|s: SuggestionView| fix_edit(s))
}

/// The result of applying suggestions to the text of their file: they are
/// ordered by line and column and checked in that order; then applied as
/// edits (refused when two overlap).
pub open spec fn fix_spec(source: Seq<char>, ss: Seq<SuggestionView>) -> Result<Seq<char>, FixError> {
    let lines = lines_spec(source);
    let sorted = sorted_suggestions(ss);
    match first_fix_problem(sorted, lines) {
        Some(e) => Err(e),
        None => match rewrite_spec(source, fix_edits(sorted)) {
            Ok(s) => Ok(s),
            Err(RewriteError::Overlap { line }) => Err(FixError::Overlap { line_number: line }),
            Err(RewriteError::OverlappingEdits) => Err(FixError::OverlappingEdits),
        },
    }
}

/// `ss` in stable (line, column) order.
fn sort_suggestions(ss: &Vec<CompilerSuggestion>) -> (r: Vec<CompilerSuggestion>)
    ensures
        suggestions_view(r@) == sorted_suggestions(suggestions_view(ss@)),
        stable_sort_of(suggestions_view(r@), suggestions_view(ss@), suggestion_key()),
{
    let ghost inp = suggestions_view(ss@);
    let ghost key = suggestion_key();
    let mut out: Vec<CompilerSuggestion> = Vec::new();
    proof {
        lemma_stable_empty(key);
        assert(suggestions_view(out@) =~= Seq::<SuggestionView>::empty());
        assert(inp.take(0) =~= Seq::<SuggestionView>::empty());
    }
    let mut j: usize = 0;
    while j < ss.len()
        invariant
            j <= ss.len(),
            key == suggestion_key(),
            inp == suggestions_view(ss@),
            stable_sort_of(suggestions_view(out@), inp.take(j as int), key),
        decreases ss.len() - j,
    {
        let x = ss[j].clone();
        let mut p = out.len();
        while p > 0 && (out[p - 1].line > x.line || (out[p - 1].line == x.line && out[p - 1].column
            > x.column))
            invariant
                p <= out.len(),
                key == suggestion_key(),
                forall|q: int| p <= q < out@.len() ==> key(out@[q]@) > key(x@),
            decreases p,
        {
            p = p - 1;
        }
        let ghost ov = suggestions_view(out@);
        proof {
            assert forall|q: int| 0 <= q < p implies key(ov[q]) <= key(x@) by {
                if p > 0 {
                    assert(key(ov[q]) <= key(ov[p - 1]));
                }
            }
            assert forall|q: int| p <= q < ov.len() implies key(ov[q]) > key(x@) by {
                assert(ov[q] == out@[q]@);
            }
            lemma_insert_stable(ov, inp.take(j as int), x@, p as int, key);
            assert(inp.take(j + 1) =~= inp.take(j as int).push(x@));
        }
        out.insert(p, x);
        assert(suggestions_view(out@) =~= ov.take(p as int) + seq![x@] + ov.skip(p as int));
        j = j + 1;
    }
    assert(inp.take(ss.len() as int) =~= inp);
    proof {
        let c = choose|t: Seq<SuggestionView>| stable_sort_of(t, inp, suggestion_key());
        lemma_stable_sort_unique(c, suggestions_view(out@), inp, key);
    }
    out
}

/// Applies suggestions to the text of their file; see [`fix_spec`].
pub fn fix_source(source: &str, suggestions: &Vec<CompilerSuggestion>) -> (r: Result<String, FixError>)
    ensures
        match r {
            Ok(s) => fix_spec(source@, suggestions_view(suggestions@)) == Ok::<Seq<char>, FixError>(s@),
            Err(e) => fix_spec(source@, suggestions_view(suggestions@)) == Err::<Seq<char>, FixError>(e),
        },
{
    let lines = split_lines(source);
    let ghost lv = lines_spec(source@);
    let sorted = sort_suggestions(suggestions);
    let ghost sv = suggestions_view(sorted@);
    let mut edits: Vec<(usize, usize, usize, String)> = Vec::new();
    let mut i: usize = 0;
    assert(sv.take(0) =~= Seq::<SuggestionView>::empty());
    assert(source_edits_view(edits@) =~= fix_edits(sv.take(0)));
    while i < sorted.len()
        invariant
            i <= sorted.len(),
            lv == lines_spec(source@),
            string_views(lines@) == lv,
            sv == suggestions_view(sorted@),
            sv == sorted_suggestions(suggestions_view(suggestions@)),
            first_fix_problem(sv.take(i as int), lv) is None,
            source_edits_view(edits@) == fix_edits(sv.take(i as int)),
            source_edits_within(source@, source_edits_view(edits@)),
        decreases sorted.len() - i,
    {
        let s = &sorted[i];
        assert(sv[i as int] == s@);
        assert(sv.take(i + 1).drop_last() =~= sv.take(i as int));
        assert(sv.take(i + 1).last() == s@);
        let li: usize = if s.line == 0 {
            0
        } else {
            (s.line - 1) as usize
        };
        let start: usize = if s.column == 0 {
            0
        } else {
            (s.column - 1) as usize
        };
        let end: usize = if s.column_end == 0 {
            0
        } else {
            (s.column_end - 1) as usize
        };
        let problem = if li >= lines.len() {
            Some(FixError::OutsideFile { line: s.line })
        } else if start > end {
            Some(FixError::InvalidRange { line: s.line, column: s.column, column_end: s.column_end })
        } else {
            assert(lines@[li as int]@ == lv[li as int]);
            let n = char_count(lines[li].as_str());
            if start > n {
                Some(FixError::StartOutsideLine { line: s.line, column: s.column })
            } else if end > n {
                Some(
                    FixError::EndOutsideLine {
                        line: s.line,
                        column: s.column,
                        column_end: s.column_end,
                    },
                )
            } else {
                None
            }
        };
        assert(problem == fix_problem(s@, lv));
        if let Some(e) = problem {
            proof {
                lemma_first_problem_sticks(sv, lv, i + 1, e);
            }
            return Err(e);
        }
        let ghost before = edits@;
        edits.push((li, start, end, s.replacement.clone()));
        assert(source_edits_view(edits@) =~= source_edits_view(before).push(fix_edit(s@)));
        assert(fix_edits(sv.take(i + 1)) =~= fix_edits(sv.take(i as int)).push(fix_edit(s@)));
        assert forall|q: int| 0 <= q < source_edits_view(edits@).len() implies 0
            <= #[trigger] source_edits_view(edits@)[q].0 < lines_spec(source@).len() && 0
            <= source_edits_view(edits@)[q].1 <= lines_spec(source@)[source_edits_view(edits@)[q].0].len()
            && 0 <= source_edits_view(edits@)[q].2 <= lines_spec(source@)[source_edits_view(
            edits@,
        )[q].0].len() by {
            if q < before.len() {
                assert(source_edits_view(edits@)[q] == source_edits_view(before)[q]);
            }
        }
        i = i + 1;
    }
    assert(sv.take(sorted.len() as int) =~= sv);
    match rewrite_source(source, edits) {
        Ok(s) => Ok(s),
        Err(RewriteError::Overlap { line }) => Err(FixError::Overlap { line_number: line }),
        Err(RewriteError::OverlappingEdits) => Err(FixError::OverlappingEdits),
    }
}

/// The views of `(text, suggestions)` pairs, one per file.
pub open spec fn file_fixes_view(v: Seq<(String, Vec<CompilerSuggestion>)>) -> Seq<(Seq<char>, Seq<SuggestionView>)> {
    v.map_values(|x: (String, Vec<CompilerSuggestion>)| (x.0@, suggestions_view(x.1@)))
}

/// Every file's text with its suggestions applied, in order, or the index
/// and error of the first file that fails.
pub open spec fn fix_all_spec(files: Seq<(Seq<char>, Seq<SuggestionView>)>) -> Result<Seq<Seq<char>>, (usize, FixError)>
    decreases files.len(),
{
    if files.len() == 0 {
        Ok(Seq::empty())
    } else {
        match fix_all_spec(files.drop_last()) {
            Err(e) => Err(e),
            Ok(prev) => match fix_spec(files.last().0, files.last().1) {
                Err(e) => Err(((files.len() - 1) as usize, e)),
                Ok(t) => Ok(prev.push(t)),
            },
        }
    }
}

/// Applies the suggestions of several files in memory, in one pass: each
/// `(text, suggestions)` pair gives the file's new text; either every file
/// succeeds, or the first error comes back and no new text at all.
pub fn fix_sources(files: &Vec<(String, Vec<CompilerSuggestion>)>) -> (r: Result<Vec<String>, (usize, FixError)>)
    ensures
        match r {
            Ok(v) => fix_all_spec(file_fixes_view(files@)) == Ok::<Seq<Seq<char>>, (usize, FixError)>(
                str_views(v@),
            ),
            Err(e) => fix_all_spec(file_fixes_view(files@)) == Err::<Seq<Seq<char>>, (usize, FixError)>(e),
        },
{
    let ghost fv = file_fixes_view(files@);
    let mut out: Vec<String> = Vec::new();
    let mut i: usize = 0;
    assert(fv.take(0) =~= Seq::<(Seq<char>, Seq<SuggestionView>)>::empty());
    assert(str_views(out@) =~= Seq::<Seq<char>>::empty());
    while i < files.len()
        invariant
            i <= files.len(),
            fv == file_fixes_view(files@),
            fix_all_spec(fv.take(i as int)) == Ok::<Seq<Seq<char>>, (usize, FixError)>(str_views(out@)),
        decreases files.len() - i,
    {
        let pair = &files[i];
        assert(fv[i as int] == (pair.0@, suggestions_view(pair.1@)));
        assert(fv.take(i + 1).drop_last() =~= fv.take(i as int));
        assert(fv.take(i + 1).last() == fv[i as int]);
        match fix_source(pair.0.as_str(), &pair.1) {
            Ok(t) => {
                let ghost before = str_views(out@);
                out.push(t);
                assert(str_views(out@) =~= before.push(t@));
            },
            Err(e) => {
                proof {
                    lemma_fix_all_error_sticks(fv, i + 1, (i, e));
                }
                return Err((i, e));
            },
        }
        i = i + 1;
    }
    assert(fv.take(files.len() as int) =~= fv);
    Ok(out)
}

/// The first failing file decides the result for every longer prefix.
proof fn lemma_fix_all_error_sticks(fv: Seq<(Seq<char>, Seq<SuggestionView>)>, a: int, e: (usize, FixError))
    requires
        0 < a <= fv.len(),
        fix_all_spec(fv.take(a)) == Err::<Seq<Seq<char>>, (usize, FixError)>(e),
    ensures
        fix_all_spec(fv) == Err::<Seq<Seq<char>>, (usize, FixError)>(e),
    decreases fv.len() - a,
{
    if a < fv.len() {
        assert(fv.take(a + 1).drop_last() =~= fv.take(a));
        lemma_fix_all_error_sticks(fv, a + 1, e);
    } else {
        assert(fv.take(a) =~= fv);
    }
}

/// The first bad suggestion decides the result for every longer prefix.
proof fn lemma_first_problem_sticks(ss: Seq<SuggestionView>, lines: Seq<Seq<char>>, a: int, e: FixError)
    requires
        0 < a <= ss.len(),
        first_fix_problem(ss.take(a), lines) == Some(e),
    ensures
        first_fix_problem(ss, lines) == Some(e),
    decreases ss.len() - a,
{
    if a < ss.len() {
        assert(ss.take(a + 1).drop_last() =~= ss.take(a));
        lemma_first_problem_sticks(ss, lines, a + 1, e);
    } else {
        assert(ss.take(a) =~= ss);
    }
}


} // verus!
