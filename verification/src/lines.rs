//! Line structure of source text and in-line replacement edits: splitting a
//! file into lines the way `str::lines` does, converting between byte
//! offsets and character positions, and rewriting lines by non-overlapping
//! replacements.

use crate::sorting::{lemma_insert_stable, lemma_stable_empty, lemma_stable_sort_unique, stable_sort_of};
use crate::text::{
    byte_len, byte_offset, char_count, char_width, ends_with_spec, ends_with_str, lemma_byte_len_prefix,
    lemma_byte_len_push, lemma_byte_len_take_strict, slice, slice_from, utf8_width,
};
use vstd::prelude::*;
use vstd::string::StrSliceExecFns;
use vstd::string::StringExecFns;

verus! {

// ---------------------------------------------------------------------------
// Lines
// ---------------------------------------------------------------------------

/// `l` without one trailing carriage return.
pub open spec fn strip_cr(l: Seq<char>) -> Seq<char> {
    if l.len() > 0 && l.last() == '\r' {
        l.drop_last()
    } else {
        l
    }
}

/// The lines of `s` after the partial line `cur`: every `\n` ends a line (an
/// `\r` right before it is dropped); a final line needs no terminator.
pub open spec fn lines_from(s: Seq<char>, cur: Seq<char>) -> Seq<Seq<char>>
    decreases s.len(),
{
    if s.len() == 0 {
        if cur.len() == 0 {
            Seq::empty()
        } else {
            seq![cur]
        }
    } else if s[0] == '\n' {
        seq![strip_cr(cur)] + lines_from(s.drop_first(), Seq::empty())
    } else {
        lines_from(s.drop_first(), cur.push(s[0]))
    }
}

/// The lines of `s` (`str::lines`).
pub open spec fn lines_spec(s: Seq<char>) -> Seq<Seq<char>> {
    lines_from(s, Seq::empty())
}

/// The views of a list of strings.
pub open spec fn string_views(v: Seq<String>) -> Seq<Seq<char>> {
    v.map_values(|s: String| s@)
}

/// `s` joined by `\n`.
pub open spec fn join_lines(v: Seq<Seq<char>>) -> Seq<char>
    decreases v.len(),
{
    if v.len() == 0 {
        Seq::empty()
    } else if v.len() == 1 {
        v[0]
    } else {
        join_lines(v.drop_last()) + seq!['\n'] + v.last()
    }
}

/// Splits `s` into its lines.
pub fn split_lines(s: &str) -> (r: Vec<String>)
    ensures
        string_views(r@) == lines_spec(s@),
{
    let n = char_count(s);
    let mut out: Vec<String> = Vec::new();
    let mut start: usize = 0;
    let mut i: usize = 0;
    assert(s@.skip(0) =~= s@);
    assert(s@.subrange(0, 0) =~= Seq::<char>::empty());
    assert(string_views(out@) + lines_from(s@.skip(0), s@.subrange(0, 0)) =~= lines_spec(s@));
    while i < n
        invariant
            n == s@.len(),
            start <= i <= n,
            string_views(out@) + lines_from(s@.skip(i as int), s@.subrange(start as int, i as int))
                == lines_spec(s@),
        decreases n - i,
    {
        let c = s.get_char(i);
        let ghost rest = s@.skip(i as int);
        let ghost cur = s@.subrange(start as int, i as int);
        assert(rest[0] == c);
        assert(rest.drop_first() =~= s@.skip(i + 1));
        if c == '\n' {
            let mut end = i;
            if end > start && s.get_char(end - 1) == '\r' {
                end = end - 1;
            }
            let line = slice(s, start, end);
            assert(line@ =~= strip_cr(cur));
            let ghost before = out@;
            out.push(String::from_str(line));
            assert(string_views(out@) =~= string_views(before).push(line@));
            assert(s@.subrange((i + 1) as int, (i + 1) as int) =~= Seq::<char>::empty());
            assert(string_views(out@) + lines_from(s@.skip(i + 1), Seq::empty()) =~= string_views(
                before,
            ) + (seq![strip_cr(cur)] + lines_from(rest.drop_first(), Seq::empty())));
            start = i + 1;
        } else {
            assert(cur.push(c) =~= s@.subrange(start as int, i + 1));
        }
        i = i + 1;
    }
    let ghost cur = s@.subrange(start as int, n as int);
    assert(s@.skip(n as int) =~= Seq::<char>::empty());
    if start < n {
        let line = slice(s, start, n);
        let ghost before = out@;
        out.push(String::from_str(line));
        assert(string_views(out@) =~= string_views(before) + seq![cur]);
    } else {
        assert(string_views(out@) + Seq::<Seq<char>>::empty() =~= string_views(out@));
    }
    out
}

// ---------------------------------------------------------------------------
// Byte offsets and character positions
// ---------------------------------------------------------------------------

/// Byte offset `b` lies on a character boundary of `line`.
pub open spec fn is_boundary(line: Seq<char>, b: int) -> bool {
    exists|k: int| 0 <= k <= line.len() && byte_len(line.take(k)) == b
}

/// The character position at byte offset `b` (meaningful on a boundary).
pub open spec fn char_pos(line: Seq<char>, b: int) -> int {
    choose|k: int| 0 <= k <= line.len() && byte_len(line.take(k)) == b
}

/// The character position of a boundary is the unique one there.
pub proof fn lemma_char_pos(line: Seq<char>, k: int)
    requires
        0 <= k <= line.len(),
    ensures
        is_boundary(line, byte_len(line.take(k)) as int),
        char_pos(line, byte_len(line.take(k)) as int) == k,
{
    let b = byte_len(line.take(k)) as int;
    assert(is_boundary(line, b));
    let j = char_pos(line, b);
    if j < k {
        lemma_byte_len_take_strict(line, j, k);
    } else if j > k {
        lemma_byte_len_take_strict(line, k, j);
    }
}

/// The character position at byte offset `b`, when `b` is a boundary.
pub fn char_index_at_byte(line: &str, b: usize) -> (r: Option<usize>)
    ensures
        r matches Some(k) ==> k <= line@.len() && byte_len(line@.take(k as int)) == b,
        r is None ==> !is_boundary(line@, b as int),
{
    let n = char_count(line);
    let mut k: usize = 0;
    let mut acc: usize = 0;
    assert(line@.take(0) =~= Seq::<char>::empty());
    while k < n && acc < b
        invariant
            n == line@.len(),
            k <= n,
            acc == byte_len(line@.take(k as int)),
            acc <= b,
            forall|j: int| 0 <= j < k ==> byte_len(line@.take(j)) < b,
        decreases n - k,
    {
        proof {
            assert(line@.take(k + 1) =~= line@.take(k as int).push(line@[k as int]));
            lemma_byte_len_push(line@.take(k as int), line@[k as int]);
        }
        let w = char_width(line.get_char(k));
        if w > b - acc {
            proof {
                assert forall|j: int| 0 <= j <= line@.len() implies byte_len(line@.take(j)) != b by {
                    if j <= k {
                        if j < k {
                        }
                    } else if j > k + 1 {
                        lemma_byte_len_take_strict(line@, k + 1, j);
                    }
                }
            }
            return None;
        }
        acc = acc + w;
        k = k + 1;
    }
    if acc == b {
        Some(k)
    } else {
        proof {
            assert(k == n);
            assert(line@.take(n as int) =~= line@);
            assert forall|j: int| 0 <= j <= line@.len() implies byte_len(line@.take(j)) != b by {
                if j < n {
                    lemma_byte_len_take_strict(line@, j, n as int);
                }
            }
        }
        None
    }
}

// ---------------------------------------------------------------------------
// In-line replacements
// ---------------------------------------------------------------------------

/// A replacement inside one line: character positions `start..end` become
/// `text`.
pub type CharEdit = (int, int, Seq<char>);

/// Applies `edits` left to right from position `cursor`: the text between
/// replacements is kept; an edit that starts before the previous one ended
/// is refused.
pub open spec fn apply_from(line: Seq<char>, edits: Seq<CharEdit>, cursor: int) -> Option<Seq<char>>
    decreases edits.len(),
{
    if edits.len() == 0 {
        Some(line.subrange(cursor, line.len() as int))
    } else {
        let (s, e, t) = edits[0];
        if s < cursor {
            None
        } else {
            match apply_from(line, edits.drop_first(), e) {
                Some(rest) => Some(line.subrange(cursor, s) + t + rest),
                None => None,
            }
        }
    }
}

/// Every position of the edits lies within the line.
pub open spec fn edits_within(line: Seq<char>, edits: Seq<CharEdit>) -> bool {
    forall|i: int|
        0 <= i < edits.len() ==> 0 <= #[trigger] edits[i].0 <= line.len() && 0 <= edits[i].1
            <= line.len()
}

/// The views of executable character edits.
pub open spec fn char_edits_view(v: Seq<(usize, usize, String)>) -> Seq<CharEdit> {
    v.map_values(|x: (usize, usize, String)| (x.0 as int, x.1 as int, x.2@))
}

/// Applies character-position edits, given in order, to `line`.
pub fn apply_char_edits(line: &str, edits: &Vec<(usize, usize, String)>) -> (r: Option<String>)
    requires
        edits_within(line@, char_edits_view(edits@)),
    ensures
        opt_string_view(r) == apply_from(line@, char_edits_view(edits@), 0),
{
    let ghost ev = char_edits_view(edits@);
    let mut out = String::new();
    let mut cursor: usize = 0;
    let mut i: usize = 0;
    assert(ev.skip(0) =~= ev);
    while i < edits.len()
        invariant
            i <= edits.len(),
            ev == char_edits_view(edits@),
            edits_within(line@, ev),
            cursor <= line@.len(),
            i > 0 ==> cursor == ev[i - 1].1,
            apply_from(line@, ev, 0) == match apply_from(line@, ev.skip(i as int), cursor as int) {
                Some(rest) => Some(out@ + rest),
                None => None,
            },
        decreases edits.len() - i,
    {
        let (s, e) = (edits[i].0, edits[i].1);
        assert(ev[i as int] == (s as int, e as int, edits@[i as int].2@));
        assert(ev.skip(i as int)[0] == ev[i as int]);
        assert(ev.skip(i as int).drop_first() =~= ev.skip(i + 1));
        if s < cursor {
            return None;
        }
        let ghost before = out@;
        out.append(slice(line, cursor, s));
        out.append(edits[i].2.as_str());
        proof {
            match apply_from(line@, ev.skip(i + 1), e as int) {
                Some(rest) => {
                    assert(before + (line@.subrange(cursor as int, s as int) + edits@[i as int].2@
                        + rest) =~= out@ + rest);
                },
                None => {},
            }
        }
        cursor = e;
        i = i + 1;
    }
    out.append(slice_from(line, cursor));
    assert(ev.skip(edits.len() as int) =~= Seq::<CharEdit>::empty());
    assert(line@.skip(cursor as int) =~= line@.subrange(cursor as int, line@.len() as int));
    Some(out)
}

/// The view of an optional string.
pub open spec fn opt_string_view(o: Option<String>) -> Option<Seq<char>> {
    match o {
        Some(s) => Some(s@),
        None => None,
    }
}

// ---------------------------------------------------------------------------
// Whole-file rewriting
// ---------------------------------------------------------------------------

/// A replacement in a file: line index (0-based), start and end character
/// positions, and the new text.
pub type SourceEdit = (int, int, int, Seq<char>);

/// Edits are ordered by line, then start position.
pub open spec fn edit_key() -> spec_fn(SourceEdit) -> int {
    |x: SourceEdit| x.0 * 0x1_0000_0000_0000_0000 + x.1
}

/// The edits of `edits` in stable (line, start) order.
pub open spec fn sorted_edits(edits: Seq<SourceEdit>) -> Seq<SourceEdit> {
    choose|s: Seq<SourceEdit>| stable_sort_of(s, edits, edit_key())
}

/// The first pair of neighbours on one line where the second starts before
/// the first ends: the line index of the first.
pub open spec fn first_overlap(es: Seq<SourceEdit>, i: int) -> Option<int>
    decreases es.len() - i,
{
    if i < 0 || i + 1 >= es.len() {
        None
    } else if es[i].0 == es[i + 1].0 && es[i + 1].1 < es[i].2 {
        Some(es[i].0)
    } else {
        first_overlap(es, i + 1)
    }
}

/// The in-line edits of line `l`, in order.
pub open spec fn edits_on_line(es: Seq<SourceEdit>, l: int) -> Seq<CharEdit>
    decreases es.len(),
{
    if es.len() == 0 {
        Seq::empty()
    } else if es.last().0 == l {
        edits_on_line(es.drop_last(), l).push((es.last().1, es.last().2, es.last().3))
    } else {
        edits_on_line(es.drop_last(), l)
    }
}

/// Why a rewrite was refused.
#[derive(Debug, Clone, Copy, PartialEq, Eq, Structural)]
pub enum RewriteError {
    /// Two edits on this line (1-based) overlap.
    Overlap { line: usize },
    /// Edits on one line could not be applied in order.
    OverlappingEdits,
}

/// Lines `0..n` rewritten: `None` when some line's edits cannot be applied.
pub open spec fn rewritten_lines(
    lines: Seq<Seq<char>>,
    es: Seq<SourceEdit>,
    n: int,
) -> Option<Seq<Seq<char>>>
    decreases n,
{
    if n <= 0 {
        Some(Seq::empty())
    } else {
        match rewritten_lines(lines, es, n - 1) {
            Some(prev) => match apply_from(lines[n - 1], edits_on_line(es, n - 1), 0) {
                Some(l) => Some(prev.push(l)),
                None => None,
            },
            None => None,
        }
    }
}

/// The result of rewriting `source` by `edits` (already checked to lie
/// within their lines): the edits are ordered by line and start; two
/// neighbours on a line that overlap refuse the rewrite; otherwise every line
/// gets its edits, the lines are joined by `\n`, and a final `\n` is kept.
pub open spec fn rewrite_spec(source: Seq<char>, edits: Seq<SourceEdit>) -> Result<Seq<char>, RewriteError> {
    let sorted = sorted_edits(edits);
    let lines = lines_spec(source);
    match first_overlap(sorted, 0) {
        Some(l) => Err(RewriteError::Overlap { line: (l + 1) as usize }),
        None => match rewritten_lines(lines, sorted, lines.len() as int) {
            Some(ls) => Ok(join_lines(ls) + if ends_with_spec(source, seq!['\n']) {
                seq!['\n']
            } else {
                Seq::empty()
            }),
            None => Err(RewriteError::OverlappingEdits),
        },
    }
}

/// The edits lie within the lines of `source`.
pub open spec fn source_edits_within(source: Seq<char>, edits: Seq<SourceEdit>) -> bool {
    forall|i: int|
        0 <= i < edits.len() ==> 0 <= #[trigger] edits[i].0 < lines_spec(source).len() && 0
            <= edits[i].1 <= lines_spec(source)[edits[i].0].len() && 0 <= edits[i].2
            <= lines_spec(source)[edits[i].0].len()
}

/// The views of executable source edits.
pub open spec fn source_edits_view(v: Seq<(usize, usize, usize, String)>) -> Seq<SourceEdit> {
    v.map_values(|x: (usize, usize, usize, String)| (x.0 as int, x.1 as int, x.2 as int, x.3@))
}

/// Stable (line, start) ordering of executable edits.
fn sort_source_edits(edits: Vec<(usize, usize, usize, String)>) -> (r: Vec<(usize, usize, usize, String)>)
    ensures
        stable_sort_of(source_edits_view(r@), source_edits_view(edits@), edit_key()),
        source_edits_view(r@) == sorted_edits(source_edits_view(edits@)),
{
    let ghost inp = source_edits_view(edits@);
    let ghost key = edit_key();
    let mut out: Vec<(usize, usize, usize, String)> = Vec::new();
    proof {
        lemma_stable_empty(key);
        assert(source_edits_view(out@) =~= Seq::<SourceEdit>::empty());
        assert(inp.take(0) =~= Seq::<SourceEdit>::empty());
    }
    let mut edits = edits;
    let ghost orig = edits@;
    let mut j: usize = 0;
    let n = edits.len();
    while j < n
        invariant
            n == orig.len(),
            j <= n,
            key == edit_key(),
            inp == source_edits_view(orig),
            edits@.len() == n - j,
            forall|q: int| 0 <= q < edits@.len() ==> edits@[q] == orig[q + j],
            stable_sort_of(source_edits_view(out@), inp.take(j as int), key),
        decreases n - j,
    {
        let x = edits.remove(0);
        assert(x == orig[j as int]);
        let mut p = out.len();
        while p > 0 && (out[p - 1].0 > x.0 || (out[p - 1].0 == x.0 && out[p - 1].1 > x.1))
            invariant
                p <= out.len(),
                key == edit_key(),
                forall|q: int|
                    p <= q < out@.len() ==> key(source_edits_view(out@)[q]) > key(
                        (x.0 as int, x.1 as int, x.2 as int, x.3@),
                    ),
            decreases p,
        {
            assert(source_edits_view(out@)[p - 1] == (out@[p - 1].0 as int, out@[p - 1].1 as int, out@[p - 1].2 as int, out@[p - 1].3@));
            p = p - 1;
        }
        let ghost ov = source_edits_view(out@);
        let ghost xv = (x.0 as int, x.1 as int, x.2 as int, x.3@);
        proof {
            assert forall|q: int| 0 <= q < p implies key(ov[q]) <= key(xv) by {
                if p > 0 {
                    assert(ov[p - 1] == (out@[p - 1].0 as int, out@[p - 1].1 as int, out@[p - 1].2 as int, out@[p - 1].3@));
                    assert(key(ov[q]) <= key(ov[p - 1]));
                }
            }
            lemma_insert_stable(ov, inp.take(j as int), xv, p as int, key);
            assert(inp.take(j + 1) =~= inp.take(j as int).push(xv));
        }
        out.insert(p, x);
        assert(source_edits_view(out@) =~= ov.take(p as int) + seq![xv] + ov.skip(p as int));
        j = j + 1;
    }
    assert(inp.take(n as int) =~= inp);
    proof {
        let c = choose|t: Seq<SourceEdit>| stable_sort_of(t, inp, edit_key());
        lemma_stable_sort_unique(c, source_edits_view(out@), inp, key);
    }
    out
}

/// The line of the first overlapping neighbours among ordered edits.
fn find_overlap(sorted: &Vec<(usize, usize, usize, String)>) -> (r: Option<usize>)
    ensures
        match r {
            Some(l) => first_overlap(source_edits_view(sorted@), 0) == Some(l as int) && exists|i: int|
                0 <= i < sorted@.len() && sorted@[i].0 == l,
            None => first_overlap(source_edits_view(sorted@), 0) is None,
        },
{
    let ghost sv = source_edits_view(sorted@);
    let mut i: usize = 0;
    while sorted.len() > 0 && i < sorted.len() - 1
        invariant
            sv == source_edits_view(sorted@),
            first_overlap(sv, 0) == first_overlap(sv, i as int),
        decreases sorted.len() - i,
    {
        assert(sv[i as int] == (sorted@[i as int].0 as int, sorted@[i as int].1 as int, sorted@[i as int].2 as int, sorted@[i as int].3@));
        assert(sv[i + 1] == (sorted@[i + 1].0 as int, sorted@[i + 1].1 as int, sorted@[i + 1].2 as int, sorted@[i + 1].3@));
        if sorted[i].0 == sorted[i + 1].0 && sorted[i + 1].1 < sorted[i].2 {
            return Some(sorted[i].0);
        }
        i = i + 1;
    }
    None
}

/// The in-line edits of line `l`, in order.
fn line_edits_of(sorted: &Vec<(usize, usize, usize, String)>, l: usize, Ghost(line): Ghost<Seq<char>>) -> (r: Vec<(usize, usize, String)>)
    requires
        forall|i: int|
            0 <= i < sorted@.len() && #[trigger] sorted@[i].0 == l ==> sorted@[i].1 <= line.len() && sorted@[i].2 <= line.len(),
    ensures
        char_edits_view(r@) == edits_on_line(source_edits_view(sorted@), l as int),
        edits_within(line, char_edits_view(r@)),
{
    let ghost sv = source_edits_view(sorted@);
    let mut line_edits: Vec<(usize, usize, String)> = Vec::new();
    let mut k: usize = 0;
    assert(char_edits_view(line_edits@) =~= edits_on_line(sv.take(0), l as int));
    while k < sorted.len()
        invariant
            k <= sorted.len(),
            sv == source_edits_view(sorted@),
            forall|i: int|
                0 <= i < sorted@.len() && #[trigger] sorted@[i].0 == l ==> sorted@[i].1 <= line.len() && sorted@[i].2 <= line.len(),
            char_edits_view(line_edits@) == edits_on_line(sv.take(k as int), l as int),
            edits_within(line, char_edits_view(line_edits@)),
        decreases sorted.len() - k,
    {
        assert(sv.take(k + 1).drop_last() =~= sv.take(k as int));
        assert(sv.take(k + 1).last() == sv[k as int]);
        assert(sv[k as int] == (sorted@[k as int].0 as int, sorted@[k as int].1 as int, sorted@[k as int].2 as int, sorted@[k as int].3@));
        if sorted[k].0 == l {
            let ghost before = line_edits@;
            line_edits.push((sorted[k].1, sorted[k].2, sorted[k].3.clone()));
            assert(char_edits_view(line_edits@) =~= char_edits_view(before).push(
                (sorted@[k as int].1 as int, sorted@[k as int].2 as int, sorted@[k as int].3@),
            ));
            assert forall|q: int| 0 <= q < char_edits_view(line_edits@).len() implies 0
                <= #[trigger] char_edits_view(line_edits@)[q].0 <= line.len() && 0
                <= char_edits_view(line_edits@)[q].1 <= line.len() by {
                if q < before.len() {
                    assert(char_edits_view(line_edits@)[q] == char_edits_view(before)[q]);
                }
            }
        }
        k = k + 1;
    }
    assert(sv.take(sorted.len() as int) =~= sv);
    line_edits
}

/// Every line with its edits applied, or `None` when some line refuses.
fn rewrite_lines(lines: &Vec<String>, sorted: &Vec<(usize, usize, usize, String)>) -> (r: Option<Vec<String>>)
    requires
        forall|i: int|
            0 <= i < sorted@.len() ==> #[trigger] sorted@[i].0 < lines@.len() && sorted@[i].1 <= lines@[sorted@[i].0 as int]@.len() && sorted@[i].2 <= lines@[sorted@[i].0 as int]@.len(),
    ensures
        match r {
            Some(v) => rewritten_lines(string_views(lines@), source_edits_view(sorted@), lines@.len() as int) == Some(string_views(v@)),
            None => rewritten_lines(string_views(lines@), source_edits_view(sorted@), lines@.len() as int) is None,
        },
{
    let ghost lv = string_views(lines@);
    let ghost sv = source_edits_view(sorted@);
    let mut out_lines: Vec<String> = Vec::new();
    let mut l: usize = 0;
    assert(string_views(out_lines@) =~= Seq::<Seq<char>>::empty());
    while l < lines.len()
        invariant
            l <= lines.len(),
            lv == string_views(lines@),
            sv == source_edits_view(sorted@),
            forall|i: int|
                0 <= i < sorted@.len() ==> #[trigger] sorted@[i].0 < lines@.len() && sorted@[i].1 <= lines@[sorted@[i].0 as int]@.len() && sorted@[i].2 <= lines@[sorted@[i].0 as int]@.len(),
            rewritten_lines(lv, sv, l as int) == Some(string_views(out_lines@)),
        decreases lines.len() - l,
    {
        let line_edits = line_edits_of(sorted, l, Ghost(lines@[l as int]@));
        assert(lv[l as int] == lines@[l as int]@);
        match apply_char_edits(lines[l].as_str(), &line_edits) {
            Some(new_line) => {
                let ghost before = out_lines@;
                out_lines.push(new_line);
                assert(string_views(out_lines@) =~= string_views(before).push(new_line@));
            },
            None => {
                assert(rewritten_lines(lv, sv, l + 1) is None);
                proof {
                    lemma_rewritten_none(lv, sv, l + 1, lines@.len() as int);
                }
                return None;
            },
        }
        l = l + 1;
    }
    Some(out_lines)
}

/// A refused line refuses every longer prefix.
proof fn lemma_rewritten_none(lines: Seq<Seq<char>>, es: Seq<SourceEdit>, a: int, b: int)
    requires
        0 < a <= b,
        rewritten_lines(lines, es, a) is None,
    ensures
        rewritten_lines(lines, es, b) is None,
    decreases b - a,
{
    if a < b {
        lemma_rewritten_none(lines, es, a, b - 1);
    }
}

/// Rewrites `source` by `edits`; see [`rewrite_spec`].
pub fn rewrite_source(source: &str, edits: Vec<(usize, usize, usize, String)>) -> (r: Result<String, RewriteError>)
    requires
        source_edits_within(source@, source_edits_view(edits@)),
    ensures
        match r {
            Ok(s) => rewrite_spec(source@, source_edits_view(edits@)) == Ok::<Seq<char>, RewriteError>(s@),
            Err(e) => rewrite_spec(source@, source_edits_view(edits@)) == Err::<Seq<char>, RewriteError>(e),
        },
{
    let ghost ev = source_edits_view(edits@);
    let lines = split_lines(source);
    let sorted = sort_source_edits(edits);
    let ghost sv = source_edits_view(sorted@);
    proof {
        lemma_within_after_sort(source@, ev, sv);
    }
    if let Some(l) = find_overlap(&sorted) {
        proof {
            let i = choose|i: int| 0 <= i < sorted@.len() && sorted@[i].0 == l;
            assert(sv[i] == (sorted@[i].0 as int, sorted@[i].1 as int, sorted@[i].2 as int, sorted@[i].3@));
            assert(string_views(lines@).len() == lines@.len());
        }
        return Err(RewriteError::Overlap { line: l + 1 });
    }
    proof {
        assert forall|i: int| 0 <= i < sorted@.len() implies #[trigger] sorted@[i].0 < lines@.len() && sorted@[i].1 <= lines@[sorted@[i].0 as int]@.len() && sorted@[i].2 <= lines@[sorted@[i].0 as int]@.len() by {
            assert(sv[i] == (sorted@[i].0 as int, sorted@[i].1 as int, sorted@[i].2 as int, sorted@[i].3@));
            assert(string_views(lines@)[sorted@[i].0 as int] == lines@[sorted@[i].0 as int]@);
        }
    }
    let new_lines = match rewrite_lines(&lines, &sorted) {
        Some(v) => v,
        None => return Err(RewriteError::OverlappingEdits),
    };
    let mut result = join_strings(&new_lines);
    proof {
        reveal_strlit("\n");
    }
    assert("\n"@ =~= seq!['\n']);
    if ends_with_str(source, "\n") {
        result.append("\n");
    } else {
        assert(result@ + Seq::<char>::empty() =~= result@);
    }
    Ok(result)
}

/// Sorting keeps every edit within its line.
proof fn lemma_within_after_sort(source: Seq<char>, inp: Seq<SourceEdit>, out: Seq<SourceEdit>)
    requires
        source_edits_within(source, inp),
        stable_sort_of(out, inp, edit_key()),
    ensures
        source_edits_within(source, out),
{
    assert forall|i: int| 0 <= i < out.len() implies 0 <= #[trigger] out[i].0 < lines_spec(
        source,
    ).len() && 0 <= out[i].1 <= lines_spec(source)[out[i].0].len() && 0 <= out[i].2 <= lines_spec(
        source,
    )[out[i].0].len() by {
        crate::sorting::lemma_sorted_member(out, inp, edit_key(), i);
        let j = choose|j: int| 0 <= j < inp.len() && inp[j] == out[i];
        assert(inp[j] == out[i]);
    }
}

/// The lines joined by `\n`.
pub fn join_strings(v: &Vec<String>) -> (r: String)
    ensures
        r@ == join_lines(string_views(v@)),
{
    let mut out = String::new();
    let mut i: usize = 0;
    let ghost sv = string_views(v@);
    while i < v.len()
        invariant
            i <= v.len(),
            sv == string_views(v@),
            out@ == join_lines(sv.take(i as int)),
        decreases v.len() - i,
    {
        assert(sv.take(i + 1).drop_last() =~= sv.take(i as int));
        assert(sv.take(i + 1).last() == v@[i as int]@);
        if i > 0 {
            proof {
                reveal_strlit("\n");
            }
            out.append("\n");
            assert("\n"@ =~= seq!['\n']);
        } else {
            assert(sv.take(1) =~= seq![v@[0]@]);
        }
        out.append(v[i].as_str());
        i = i + 1;
    }
    assert(sv.take(v.len() as int) =~= sv);
    out
}

// ---------------------------------------------------------------------------
// Splitting and joining again
// ---------------------------------------------------------------------------

/// `s` holds no carriage return.
pub open spec fn no_cr(s: Seq<char>) -> bool {
    forall|i: int| 0 <= i < s.len() ==> s[i] != '\r'
}

/// The final newline of `s`, if it has one.
pub open spec fn final_newline(s: Seq<char>) -> Seq<char> {
    if ends_with_spec(s, seq!['\n']) {
        seq!['\n']
    } else {
        Seq::empty()
    }
}

proof fn lemma_join_cons(a: Seq<char>, r: Seq<Seq<char>>)
    ensures
        join_lines(seq![a] + r) == if r.len() == 0 {
            a
        } else {
            a + seq!['\n'] + join_lines(r)
        },
    decreases r.len(),
{
    let v = seq![a] + r;
    if r.len() == 0 {
        assert(v =~= seq![a]);
    } else if r.len() == 1 {
        assert(v.drop_last() =~= seq![a]);
        assert(v.last() == r[0]);
        assert(join_lines(seq![a]) == a);
        assert(join_lines(r) == r[0]);
        assert(join_lines(v) =~= a + seq!['\n'] + join_lines(r));
    } else {
        assert(v.drop_last() =~= seq![a] + r.drop_last());
        lemma_join_cons(a, r.drop_last());
        assert(join_lines(v) =~= a + seq!['\n'] + join_lines(r));
    }
}

proof fn lemma_lines_nonempty(s: Seq<char>, cur: Seq<char>)
    requires
        s.len() > 0 || cur.len() > 0,
    ensures
        lines_from(s, cur).len() > 0,
    decreases s.len(),
{
    if s.len() > 0 && s[0] != '\n' {
        lemma_lines_nonempty(s.drop_first(), cur.push(s[0]));
    }
}

proof fn lemma_lines_join(s: Seq<char>, cur: Seq<char>)
    requires
        no_cr(s),
        no_cr(cur),
    ensures
        join_lines(lines_from(s, cur)) + final_newline(s) == cur + s,
    decreases s.len(),
{
    if s.len() == 0 {
        if cur.len() > 0 {
            assert(join_lines(seq![cur]) == cur);
        }
        assert(cur + s =~= cur);
    } else {
        let t = s.drop_first();
        assert(no_cr(t)) by {
            assert forall|i: int| 0 <= i < t.len() implies t[i] != '\r' by {
                assert(t[i] == s[i + 1]);
            }
        }
        if t.len() > 0 {
            assert(s.subrange(s.len() - 1, s.len() as int) =~= t.subrange(t.len() - 1, t.len() as int));
        }
        if s[0] == '\n' {
            if cur.len() > 0 {
                assert(cur[cur.len() - 1] != '\r');
            }
            assert(strip_cr(cur) == cur);
            lemma_join_cons(cur, lines_from(t, Seq::empty()));
            if t.len() == 0 {
                assert(s =~= seq!['\n']);
                assert(s.subrange(0, 1) =~= seq!['\n']);
            } else {
                lemma_lines_nonempty(t, Seq::empty());
                lemma_lines_join(t, Seq::empty());
                assert(Seq::<char>::empty() + t =~= t);
                assert(s =~= seq!['\n'] + t);
            }
            assert(join_lines(lines_from(s, cur)) + final_newline(s) =~= cur + s);
        } else {
            let c2 = cur.push(s[0]);
            assert(no_cr(c2)) by {
                assert forall|i: int| 0 <= i < c2.len() implies c2[i] != '\r' by {
                    if i < cur.len() {
                        assert(c2[i] == cur[i]);
                    }
                }
            }
            lemma_lines_join(t, c2);
            if t.len() == 0 {
                assert(s.subrange(0, 1)[0] == s[0]);
                assert(seq!['\n'][0] == '\n');
                assert(!ends_with_spec(s, seq!['\n']));
            }
            assert(c2 + t =~= cur + s);
        }
    }
}

proof fn lemma_no_edits_on_line(l: int)
    ensures
        edits_on_line(Seq::<SourceEdit>::empty(), l) == Seq::<CharEdit>::empty(),
{
}

proof fn lemma_rewritten_unchanged(lines: Seq<Seq<char>>, n: int)
    requires
        0 <= n <= lines.len(),
    ensures
        rewritten_lines(lines, Seq::empty(), n) == Some(lines.take(n)),
    decreases n,
{
    if n > 0 {
        lemma_rewritten_unchanged(lines, n - 1);
        lemma_no_edits_on_line(n - 1);
        assert(lines[n - 1].subrange(0, lines[n - 1].len() as int) =~= lines[n - 1]);
        assert(lines.take(n - 1).push(lines[n - 1]) =~= lines.take(n));
    } else {
        assert(lines.take(0) =~= Seq::<Seq<char>>::empty());
    }
}

/// Rewriting by no edits gives back the text unchanged, where the text
/// holds no carriage return (`\r\n` line ends come back as `\n`).
pub proof fn lemma_rewrite_nothing(source: Seq<char>)
    requires
        no_cr(source),
    ensures
        rewrite_spec(source, Seq::empty()) == Ok::<Seq<char>, RewriteError>(source),
{
    let key = edit_key();
    lemma_stable_empty(key);
    let c = sorted_edits(Seq::<SourceEdit>::empty());
    lemma_stable_sort_unique(c, Seq::<SourceEdit>::empty(), Seq::<SourceEdit>::empty(), key);
    let lines = lines_spec(source);
    lemma_rewritten_unchanged(lines, lines.len() as int);
    assert(lines.take(lines.len() as int) =~= lines);
    lemma_lines_join(source, Seq::empty());
    assert(Seq::<char>::empty() + source =~= source);
}

/// `lines` with the replacement `x` made on its line.
pub open spec fn replaced_line(lines: Seq<Seq<char>>, x: SourceEdit) -> Seq<Seq<char>> {
    let line = lines[x.0];
    lines.update(x.0, line.subrange(0, x.1) + x.3 + line.subrange(x.2, line.len() as int))
}

proof fn lemma_rewritten_one(lines: Seq<Seq<char>>, x: SourceEdit, n: int)
    requires
        0 <= n <= lines.len(),
        0 <= x.0 < lines.len(),
        0 <= x.1 <= x.2 <= lines[x.0].len(),
    ensures
        rewritten_lines(lines, seq![x], n) == Some(replaced_line(lines, x).take(n)),
    decreases n,
{
    let out = replaced_line(lines, x);
    if n > 0 {
        lemma_rewritten_one(lines, x, n - 1);
        let l = n - 1;
        let line = lines[l];
        assert(seq![x].drop_last() =~= Seq::<SourceEdit>::empty());
        assert(seq![x].last() == x);
        lemma_no_edits_on_line(l);
        if x.0 == l {
            let ce: CharEdit = (x.1, x.2, x.3);
            assert(edits_on_line(seq![x], l) =~= seq![ce]);
            assert(seq![ce].drop_first() =~= Seq::<CharEdit>::empty());
            assert(seq![ce][0] == ce);
            assert(apply_from(line, Seq::<CharEdit>::empty(), x.2) == Some(
                line.subrange(x.2, line.len() as int),
            ));
            assert(apply_from(line, seq![ce], 0) == Some(
                line.subrange(0, x.1) + x.3 + line.subrange(x.2, line.len() as int),
            ));
        } else {
            assert(edits_on_line(seq![x], l) =~= Seq::<CharEdit>::empty());
            assert(line.subrange(0, line.len() as int) =~= line);
        }
        assert(out.take(n - 1).push(out[l]) =~= out.take(n));
    } else {
        assert(out.take(0) =~= Seq::<Seq<char>>::empty());
    }
}

/// Rewriting by one edit that lies within its line replaces exactly that
/// stretch of that line: the other lines and the final newline stay.
pub proof fn lemma_rewrite_one(source: Seq<char>, x: SourceEdit)
    requires
        0 <= x.0 < lines_spec(source).len(),
        0 <= x.1 <= x.2 <= lines_spec(source)[x.0].len(),
    ensures
        rewrite_spec(source, seq![x]) == Ok::<Seq<char>, RewriteError>(
            join_lines(replaced_line(lines_spec(source), x)) + final_newline(source),
        ),
{
    let key = edit_key();
    let one = seq![x];
    assert(stable_sort_of(one, one, key));
    let c = sorted_edits(one);
    lemma_stable_sort_unique(c, one, one, key);
    let lines = lines_spec(source);
    lemma_rewritten_one(lines, x, lines.len() as int);
    assert(replaced_line(lines, x).take(lines.len() as int) =~= replaced_line(lines, x));
}

} // verus!
