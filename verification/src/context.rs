//! Source excerpts around the spans of a diagnostic: the reported lines with
//! two lines of context on either side.

use crate::diagnostics::{opt_view, Span, SpanView};
use crate::lines::{lines_spec, split_lines, string_views};
use crate::text::str_eq;
use vstd::prelude::*;
use vstd::string::StringExecFns;

verus! {

/// One line of an excerpt.
#[derive(Debug)]
pub struct ContextLine {
    pub line_number: u32,
    pub text: String,
    pub highlighted: bool,
    pub label: Option<String>,
}

/// The mathematical content of a [`ContextLine`].
pub struct LineView {
    pub line_number: u32,
    pub text: Seq<char>,
    pub highlighted: bool,
    pub label: Option<Seq<char>>,
}

impl View for ContextLine {
    type V = LineView;

    open spec fn view(&self) -> LineView {
        LineView {
            line_number: self.line_number,
            text: self.text@,
            highlighted: self.highlighted,
            label: opt_view(self.label),
        }
    }
}

/// An excerpt of one file.
#[derive(Debug)]
pub struct SourceContext {
    pub file: String,
    pub start_line: u32,
    pub end_line: u32,
    pub lines: Vec<ContextLine>,
}

/// The views of a list of excerpt lines.
pub open spec fn lines_view(v: Seq<ContextLine>) -> Seq<LineView> {
    v.map_values(|l: ContextLine| l@)
}

/// The first line of the excerpt of a span: two lines before it, at least 1.
pub open spec fn excerpt_start(span: SpanView) -> u32 {
    let s = if span.line_start >= 2 {
        span.line_start - 2
    } else {
        0
    };
    if s < 1 {
        1
    } else {
        s as u32
    }
}

/// The last line of the excerpt: two lines after the span, at most the last
/// line of the file (its count taken as a `u32`).
pub open spec fn excerpt_end(span: SpanView, n_lines: nat) -> u32 {
    let last = if span.line_end > span.line_start {
        span.line_end
    } else {
        span.line_start
    };
    let e = last + 2;
    let n = (n_lines as u32) as int;
    if e < n {
        e as u32
    } else {
        n as u32
    }
}

/// Line `k` of the excerpt of `span` in a file with lines `ls`.
pub open spec fn excerpt_line(span: SpanView, ls: Seq<Seq<char>>, k: int) -> LineView {
    let n = excerpt_start(span) + k;
    LineView {
        line_number: n as u32,
        text: if 1 <= n <= ls.len() {
            ls[n - 1]
        } else {
            Seq::empty()
        },
        highlighted: span.line_start <= n <= span.line_end,
        label: if n == span.line_start {
            span.label
        } else {
            None
        },
    }
}

/// The excerpt of `span` in `source`, filed as `path`; none for an empty
/// file.
pub open spec fn excerpt_ok(r: SourceContext, span: SpanView, path: Seq<char>, source: Seq<char>) -> bool {
    let ls = lines_spec(source);
    let start = excerpt_start(span);
    let end = excerpt_end(span, ls.len());
    &&& r.file@ == path
    &&& r.start_line == start
    &&& r.end_line == end
    &&& lines_view(r.lines@) == Seq::new(
        if start <= end {
            (end - start + 1) as nat
        } else {
            0
        },
        |k: int| excerpt_line(span, ls, k),
    )
}

impl SourceContext {
    /// The excerpt of `span` in the text of its file (found at `path`).
    pub fn from_source(span: &Span, path: String, source: &str) -> (r: Option<Self>)
        requires
            span.line_start <= u32::MAX - 2,
            span.line_end <= u32::MAX - 2,
        ensures
            lines_spec(source@).len() == 0 ==> r is None,
            lines_spec(source@).len() > 0 ==> (r matches Some(c) && excerpt_ok(c, span@, path@, source@)),
    {
        let source_lines = split_lines(source);
        let ghost ls = lines_spec(source@);
        if source_lines.len() == 0 {
            return None;
        }
        let radius: u32 = 2;
        let span_end_line = if span.line_end > span.line_start {
            span.line_end
        } else {
            span.line_start
        };
        let s = if span.line_start >= radius {
            span.line_start - radius
        } else {
            0
        };
        let start_line: u32 = if s < 1 {
            1
        } else {
            s
        };
        let e = span_end_line + radius;
        let n = source_lines.len() as u32;
        let end_line: u32 = if e < n {
            e
        } else {
            n
        };
        let mut lines: Vec<ContextLine> = Vec::new();
        let mut ln: u64 = start_line as u64;
        assert(lines_view(lines@) =~= Seq::<LineView>::empty());
        while ln <= end_line as u64
            invariant
                string_views(source_lines@) == ls,
                start_line == excerpt_start(span@),
                end_line == excerpt_end(span@, ls.len()),
                start_line >= 1,
                start_line <= ln,
                ln <= end_line + 1 || ln == start_line,
                lines_view(lines@) == Seq::new((ln - start_line) as nat, |k: int| excerpt_line(span@, ls, k)),
            decreases end_line + 1 - ln,
        {
            let line_number = ln as u32;
            let idx = (line_number - 1) as usize;
            let text = if idx < source_lines.len() {
                assert(ls[idx as int] == source_lines@[idx as int]@);
                source_lines[idx].clone()
            } else {
                String::new()
            };
            let highlighted = line_number >= span.line_start && line_number <= span.line_end;
            let label = if line_number == span.line_start {
                crate::diagnostics::clone_opt_string(&span.label)
            } else {
                None
            };
            let ghost before = lines_view(lines@);
            lines.push(ContextLine { line_number, text, highlighted, label });
            assert(lines_view(lines@) =~= Seq::new(
                (ln + 1 - start_line) as nat,
                |k: int| excerpt_line(span@, ls, k),
            )) by {
                assert(lines_view(lines@) =~= before.push(excerpt_line(span@, ls, line_number - start_line)));
            }
            ln = ln + 1;
        }
        Some(SourceContext { file: path, start_line, end_line, lines })
    }
}


/// The key by which excerpts count as the same: file and line range.
pub open spec fn excerpt_key(c: SourceContext) -> (Seq<char>, u32, u32) {
    (c.file@, c.start_line, c.end_line)
}

/// The excerpts without those whose key an earlier one has.
pub open spec fn distinct_excerpts(cs: Seq<SourceContext>) -> Seq<SourceContext>
    decreases cs.len(),
{
    if cs.len() == 0 {
        cs
    } else {
        let d = distinct_excerpts(cs.drop_last());
        if exists|i: int| 0 <= i < d.len() && excerpt_key(d[i]) == excerpt_key(cs.last()) {
            d
        } else {
            d.push(cs.last())
        }
    }
}

impl SourceContext {
    /// The excerpts of a diagnostic's spans, in span order, each file and
    /// line range once.
    pub fn distinct(contexts: Vec<SourceContext>) -> (r: Vec<SourceContext>)
        ensures
            r@ == distinct_excerpts(contexts@),
    {
        let ghost cv = contexts@;
        let mut rest = contexts;
        let mut out: Vec<SourceContext> = Vec::new();
        let n = rest.len();
        let mut i: usize = 0;
        assert(cv.skip(0) =~= cv);
        assert(cv.take(0) =~= Seq::<SourceContext>::empty());
        while i < n
            invariant
                n == cv.len(),
                i <= n,
                rest@ == cv.skip(i as int),
                out@ == distinct_excerpts(cv.take(i as int)),
            decreases n - i,
        {
            let c = rest.remove(0);
            assert(rest@ =~= cv.skip(i + 1));
            assert(cv.take(i + 1).drop_last() =~= cv.take(i as int));
            assert(cv.take(i + 1).last() == c);
            let mut j: usize = 0;
            let mut dup = false;
            while j < out.len()
                invariant
                    j <= out.len(),
                    !dup ==> forall|k: int| 0 <= k < j ==> excerpt_key(out@[k]) != excerpt_key(c),
                    dup ==> exists|k: int| 0 <= k < out.len() && excerpt_key(out@[k]) == excerpt_key(c),
                decreases out.len() - j,
            {
                if str_eq(out[j].file.as_str(), c.file.as_str()) && out[j].start_line == c.start_line
                    && out[j].end_line == c.end_line {
                    dup = true;
                }
                j = j + 1;
            }
            if !dup {
                out.push(c);
            }
            i = i + 1;
        }
        assert(cv.take(n as int) =~= cv);
        out
    }
}

} // verus!
