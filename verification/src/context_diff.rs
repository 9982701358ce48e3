//! The context diff parser: hunks delimited by a line of fifteen stars,
//! with `*** start,finish ****` and `--- start,finish ----` chunk headers.

use vstd::prelude::*;

use crate::change::{
    apply_changes_to_lines, make_change, spec_apply_changes_lines, spec_change, Change, Changed,
    ChangeView,
};
use crate::lines::{spec_has_tws, LineIfce, Lines};
use crate::scan::{
    chars_of, digits_end, match_at, parse_number, spec_digits_val, spec_is_digit, spec_is_ws,
    spec_match_at, spec_run_end, skip_ws,
};
use crate::text_diff::{
    extract_source_lines, get_text_diff_header_at, spec_extract_source_lines, spec_file_data,
    DiffParseError, DiffParseResult, SkipRule, TextDiffHeader,
};
use crate::DiffFormat;

verus! {

/// The hunk delimiter: a line opening with fifteen stars.
pub open spec fn spec_ctx_hunk_start(s: Seq<char>) -> bool {
    spec_match_at(s, 0, "***************"@)
}

/// A chunk header `lead ws+ start(,finish)? ws+ trail ...`, as in
/// `*** 1,7 ****` and `--- 1,6 ----`; a missing `finish` stands for
/// `start`.
pub open spec fn spec_ctx_nums(s: Seq<char>, lead: Seq<char>, trail: Seq<char>) -> Option<
    (int, int),
> {
    if !spec_match_at(s, 0, lead) {
        None
    } else {
        let w1 = spec_run_end(s, lead.len() as int, |c: char| spec_is_ws(c));
        if w1 <= lead.len() {
            None
        } else {
            let d1 = spec_run_end(s, w1, |c: char| spec_is_digit(c));
            if d1 <= w1 {
                None
            } else {
                let start = spec_digits_val(s, w1, d1);
                if d1 < s.len() && s[d1] == ',' {
                    let d2 = spec_run_end(s, d1 + 1, |c: char| spec_is_digit(c));
                    if d2 <= d1 + 1 {
                        None
                    } else {
                        spec_ctx_trail(s, d2, trail, start, spec_digits_val(s, d1 + 1, d2))
                    }
                } else {
                    spec_ctx_trail(s, d1, trail, start, start)
                }
            }
        }
    }
}

/// The closing stars or dashes of a chunk header, after one or more white
/// space characters.
pub open spec fn spec_ctx_trail(s: Seq<char>, p: int, trail: Seq<char>, start: int, finish: int)
    -> Option<(int, int)> {
    let w2 = spec_run_end(s, p, |c: char| spec_is_ws(c));
    if w2 <= p {
        None
    } else if spec_match_at(s, w2, trail) {
        Some((start, finish))
    } else {
        None
    }
}

/// The length a start/finish pair declares: `finish - start + 1`, or zero
/// when both are zero (an empty side).
pub open spec fn spec_sal_length(start: int, finish: int) -> int {
    if start == 0 && finish == 0 {
        0
    } else {
        finish - start + 1
    }
}

/// Reads a chunk header line.  An error names a header whose numbers do not
/// fit a machine word or whose length would be negative.
#[verifier::loop_isolation(false)]
fn parse_ctx_nums(cv: &Vec<char>, lead: &str, trail: &str, line_num: usize) -> (r: DiffParseResult<
    Option<(usize, usize)>,
>)
    ensures
        ({
            let sp = spec_ctx_nums(cv@, lead@, trail@);
            match r {
                Ok(Some((start, length))) => match sp {
                    Some((s, f)) => start as int == s && length as int == spec_sal_length(s, f),
                    None => false,
                },
                Ok(None) => sp is None,
                Err(e) => sp is Some && ((e matches DiffParseError::ParseNumberError(l) && l
                    == line_num) || (e matches DiffParseError::SyntaxError(DiffFormat::Context, l)
                    && l == line_num)),
            }
        }),
{
    let n = cv.len();
    if !match_at(cv, 0, lead) {
        return Ok(None);
    }
    let llen = lead.unicode_len();
    proof {
        assert(llen <= n);
    }
    let w1 = skip_ws(cv, llen);
    if w1 <= llen {
        return Ok(None);
    }
    let d1 = digits_end(cv, w1);
    if d1 <= w1 {
        return Ok(None);
    }
    proof {
        crate::scan::lemma_run_end_bounds(cv@, w1 as int, |c: char| spec_is_digit(c));
    }
    let (finish_digits, p): (Option<(usize, usize)>, usize) = if d1 < n && cv[d1] == ',' {
        let d2 = digits_end(cv, d1 + 1);
        if d2 <= d1 + 1 {
            return Ok(None);
        }
        (Some((d1 + 1, d2)), d2)
    } else {
        (None, d1)
    };
    let w2 = skip_ws(cv, p);
    if w2 <= p {
        return Ok(None);
    }
    if !match_at(cv, w2, trail) {
        return Ok(None);
    }
    let start = match parse_number(cv, w1, d1) {
        Some(v) => v,
        None => {
            return Err(DiffParseError::ParseNumberError(line_num));
        },
    };
    let finish = match finish_digits {
        Some((i, j)) => {
            proof {
                crate::scan::lemma_run_end_bounds(cv@, i as int, |c: char| spec_is_digit(c));
            }
            match parse_number(cv, i, j) {
                Some(v) => v,
                None => {
                    return Err(DiffParseError::ParseNumberError(line_num));
                },
            }
        },
        None => start,
    };
    if start == 0 && finish == 0 {
        return Ok(Some((0, 0)));
    }
    if finish < start || finish - start == usize::MAX {
        return Err(DiffParseError::SyntaxError(DiffFormat::Context, line_num));
    }
    Ok(Some((start, finish - start + 1)))
}

/// One side of a context hunk: where its lines stand within the hunk, its
/// 1-based start line, its declared length, and how many hunk lines it
/// spans.
#[derive(Debug, Clone, Copy)]
pub struct ContextDiffChunk {
    pub offset: usize,
    pub start_line_num: usize,
    pub _length: usize,
    pub numlines: usize,
}

/// One context hunk: its verbatim lines (delimiter and chunk headers
/// included) and its two chunks.
#[derive(Debug)]
pub struct ContextDiffHunk {
    pub lines: Lines,
    pub ante_chunk: ContextDiffChunk,
    pub post_chunk: ContextDiffChunk,
}

pub struct ContextHunkView {
    pub lines: Seq<Seq<char>>,
    pub ante_offset: int,
    pub ante_start: int,
    pub ante_numlines: int,
    pub post_offset: int,
    pub post_start: int,
    pub post_numlines: int,
}

impl View for ContextDiffHunk {
    type V = ContextHunkView;

    open spec fn view(&self) -> ContextHunkView {
        ContextHunkView {
            lines: self.lines.deep_view(),
            ante_offset: self.ante_chunk.offset as int,
            ante_start: self.ante_chunk.start_line_num as int,
            ante_numlines: self.ante_chunk.numlines as int,
            post_offset: self.post_chunk.offset as int,
            post_start: self.post_chunk.start_line_num as int,
            post_numlines: self.post_chunk.numlines as int,
        }
    }
}

impl DeepView for ContextDiffHunk {
    type V = ContextHunkView;

    open spec fn deep_view(&self) -> ContextHunkView {
        self@
    }
}

/// The chunk spans of a hunk lie within its lines.
pub open spec fn spec_ctx_hunk_wf(hv: ContextHunkView) -> bool {
    &&& 0 <= hv.ante_offset
    &&& 0 <= hv.ante_numlines
    &&& hv.ante_offset + hv.ante_numlines <= hv.lines.len()
    &&& 0 <= hv.post_offset
    &&& 0 <= hv.post_numlines
    &&& hv.post_offset + hv.post_numlines <= hv.lines.len()
    &&& hv.lines.len() >= 1
}

/// The ante block of a context hunk: its own span, or, when that side is a
/// single header line, the post span with additions dropped.
pub open spec fn spec_ctx_ante_lines(hv: ContextHunkView) -> Seq<Seq<char>> {
    if hv.ante_numlines == 0 {
        spec_extract_source_lines(
            hv.lines.subrange(hv.post_offset, hv.post_offset + hv.post_numlines),
            0,
            2,
            SkipRule::PlusPrefixed,
        )
    } else {
        spec_extract_source_lines(
            hv.lines.subrange(hv.ante_offset, hv.ante_offset + hv.ante_numlines),
            0,
            2,
            SkipRule::Nothing,
        )
    }
}

/// The post block of a context hunk.
pub open spec fn spec_ctx_post_lines(hv: ContextHunkView) -> Seq<Seq<char>> {
    spec_extract_source_lines(
        hv.lines.subrange(hv.post_offset, hv.post_offset + hv.post_numlines),
        0,
        2,
        SkipRule::Nothing,
    )
}

impl ContextDiffHunk {
    pub fn len(&self) -> (r: usize)
        ensures
            r == self.lines@.len(),
    {
        self.lines.len()
    }

    /// The source lines of the ante side.
    pub fn ante_lines(&self) -> (r: Lines)
        requires
            spec_ctx_hunk_wf(self@),
        ensures
            r.deep_view() == spec_ctx_ante_lines(self@),
    {
        let nl = self.lines.len();
        proof {
            assert(self@.lines.len() == self.lines@.len());
        }
        if self.ante_chunk.numlines == 0 {
            let start = self.post_chunk.offset;
            let end = self.post_chunk.offset + self.post_chunk.numlines;
            let body = &self.lines[start..end];
            proof {
                assert(body.deep_view() =~= self@.lines.subrange(
                    self@.post_offset,
                    self@.post_offset + self@.post_numlines,
                ));
            }
            extract_source_lines(body, 2, SkipRule::PlusPrefixed)
        } else {
            let start = self.ante_chunk.offset;
            let end = self.ante_chunk.offset + self.ante_chunk.numlines;
            let body = &self.lines[start..end];
            proof {
                assert(body.deep_view() =~= self@.lines.subrange(
                    self@.ante_offset,
                    self@.ante_offset + self@.ante_numlines,
                ));
            }
            extract_source_lines(body, 2, SkipRule::Nothing)
        }
    }

    /// The source lines of the post side.
    pub fn post_lines(&self) -> (r: Lines)
        requires
            spec_ctx_hunk_wf(self@),
        ensures
            r.deep_view() == spec_ctx_post_lines(self@),
    {
        let nl = self.lines.len();
        proof {
            assert(self@.lines.len() == self.lines@.len());
        }
        let start = self.post_chunk.offset;
        let end = self.post_chunk.offset + self.post_chunk.numlines;
        let body = &self.lines[start..end];
        proof {
            assert(body.deep_view() =~= self@.lines.subrange(
                self@.post_offset,
                self@.post_offset + self@.post_numlines,
            ));
        }
        extract_source_lines(body, 2, SkipRule::Nothing)
    }

    /// Does this hunk's post side add or change a line ending in white
    /// space?
    #[verifier::loop_isolation(false)]
    pub fn adds_trailing_white_space(&self) -> (r: bool)
        requires
            spec_ctx_hunk_wf(self@),
        ensures
            r == exists|i: int|
                hv_post_lo(self@) <= i < hv_post_hi(self@) && ((#[trigger] self@.lines[i])[0]
                    == '+' || self@.lines[i][0] == '!') && self@.lines[i].len() > 0 && spec_has_tws(
                    self@.lines[i],
                ),
    {
        let nl = self.lines.len();
        proof {
            assert(self@.lines.len() == self.lines@.len());
        }
        let start = self.post_chunk.offset;
        let end = self.post_chunk.offset + self.post_chunk.numlines;
        let mut i = start;
        while i < end
            invariant
                start <= i <= end,
                end <= self.lines@.len(),
                forall|j: int|
                    start <= j < i ==> !(((#[trigger] self@.lines[j])[0] == '+'
                        || self@.lines[j][0] == '!') && self@.lines[j].len() > 0 && spec_has_tws(
                        self@.lines[j],
                    )),
            decreases end - i,
        {
            let cv = chars_of(self.lines[i].as_str());
            proof {
                assert(cv@ == self@.lines[i as int]);
            }
            if cv.len() > 0 && (cv[0] == '+' || cv[0] == '!') && self.lines[
                i
            ].has_trailing_white_space() {
                return true;
            }
            i = i + 1;
        }
        false
    }

    /// The change this hunk stands for, sides swapped when `reverse` holds.
    pub fn change(&self, reverse: bool) -> (c: Change)
        requires
            spec_ctx_hunk_wf(self@),
        ensures
            c@ == spec_ctx_hunk_change(self@, reverse),
    {
        let av = self.ante_lines();
        let pv = self.post_lines();
        let astart = if self.ante_chunk.start_line_num > 0 {
            self.ante_chunk.start_line_num - 1
        } else {
            0
        };
        let pstart = if self.post_chunk.start_line_num > 0 {
            self.post_chunk.start_line_num - 1
        } else {
            0
        };
        if reverse {
            make_change(pstart, pv, astart, av)
        } else {
            make_change(astart, av, pstart, pv)
        }
    }
}

pub open spec fn hv_post_lo(hv: ContextHunkView) -> int {
    hv.post_offset
}

pub open spec fn hv_post_hi(hv: ContextHunkView) -> int {
    hv.post_offset + hv.post_numlines
}

/// The change a context hunk stands for.
pub open spec fn spec_ctx_hunk_change(hv: ContextHunkView, reverse: bool) -> ChangeView {
    let a = spec_ctx_ante_lines(hv);
    let p = spec_ctx_post_lines(hv);
    let astart = crate::unified_diff::spec_zero_based(hv.ante_start);
    let pstart = crate::unified_diff::spec_zero_based(hv.post_start);
    if reverse {
        spec_change(pstart, p, astart, a)
    } else {
        spec_change(astart, a, pstart, p)
    }
}

/// The changes of a hunk list, in order.
pub open spec fn spec_ctx_changes(hs: Seq<ContextHunkView>, reverse: bool) -> Seq<ChangeView> {
    Seq::new(hs.len(), |k: int| spec_ctx_hunk_change(hs[k], reverse))
}

/// The verbatim lines of a hunk list, in order.
pub open spec fn spec_ctx_hunks_lines(hs: Seq<ContextHunkView>) -> Seq<Seq<char>>
    decreases hs.len(),
{
    if hs.len() == 0 {
        Seq::empty()
    } else {
        hs[0].lines + spec_ctx_hunks_lines(hs.skip(1))
    }
}

pub proof fn lemma_ctx_hunks_lines_snoc(hs: Seq<ContextHunkView>, h: ContextHunkView)
    ensures
        spec_ctx_hunks_lines(hs.push(h)) == spec_ctx_hunks_lines(hs) + h.lines,
    decreases hs.len(),
{
    let ps = hs.push(h);
    if hs.len() == 0 {
        assert(ps[0] == h);
        assert(ps.skip(1) =~= Seq::<ContextHunkView>::empty());
        assert(spec_ctx_hunks_lines(ps.skip(1)) =~= Seq::<Seq<char>>::empty());
        assert(spec_ctx_hunks_lines(hs) =~= Seq::<Seq<char>>::empty());
        assert(spec_ctx_hunks_lines(ps) =~= spec_ctx_hunks_lines(hs) + h.lines);
    } else {
        assert(ps[0] == hs[0]);
        assert(ps.skip(1) =~= hs.skip(1).push(h));
        lemma_ctx_hunks_lines_snoc(hs.skip(1), h);
        assert(spec_ctx_hunks_lines(ps) =~= spec_ctx_hunks_lines(hs) + h.lines);
    }
}

pub open spec fn spec_ctx_hunks_wf(hs: Seq<ContextHunkView>) -> bool {
    forall|k: int| 0 <= k < hs.len() ==> spec_ctx_hunk_wf(#[trigger] hs[k])
}

/// The parser for the context dialect.
pub struct ContextDiffParser {}

/// A parsed context diff: its two-line header, its hunks, and how many
/// input lines the parse consumed.
#[derive(Debug)]
pub struct ContextDiff {
    pub lines_consumed: usize,
    pub header: TextDiffHeader,
    pub hunks: Vec<ContextDiffHunk>,
}

impl ContextDiffParser {
    pub fn new() -> (r: ContextDiffParser) {
        ContextDiffParser {  }
    }

    /// Reads one hunk at `start_index`: `Ok(None)` exactly when that line is
    /// no fifteen-star delimiter; an error only past one.
    #[verifier::loop_isolation(false)]
    #[verifier::rlimit(100)]
    pub fn get_hunk_at(&self, lines: &[String], start_index: usize) -> (r: DiffParseResult<
        Option<ContextDiffHunk>,
    >)
        ensures
            ({
                let lv = lines.deep_view();
                match r {
                    Ok(Some(h)) => {
                        &&& start_index < lv.len()
                        &&& spec_ctx_hunk_start(lv[start_index as int])
                        &&& h@.lines.len() >= 2
                        &&& start_index + h@.lines.len() <= lv.len()
                        &&& h@.lines =~= lv.subrange(
                            start_index as int,
                            start_index + h@.lines.len(),
                        )
                        &&& spec_ctx_hunk_wf(h@)
                        &&& h@.ante_offset == 2
                        &&& (match spec_ctx_nums(lv[start_index + 1], "***"@, "****"@) {
                            Some((s, f)) => h@.ante_start == s,
                            None => false,
                        })
                    },
                    Ok(None) => start_index >= lv.len() || !spec_ctx_hunk_start(
                        lv[start_index as int],
                    ),
                    Err(e) => {
                        &&& start_index < lv.len()
                        &&& spec_ctx_hunk_start(lv[start_index as int])
                        &&& ((e is UnexpectedEndOfInput) || (e matches
                        DiffParseError::ParseNumberError(l) && start_index + 1 < l <= lv.len())
                            || (e matches DiffParseError::SyntaxError(DiffFormat::Context, l)
                            && start_index + 1 < l <= lv.len() + 1))
                    },
                }
            }),
    {
        let ghost lv = lines.deep_view();
        if start_index >= lines.len() {
            return Ok(None);
        }
        let cv = chars_of(lines[start_index].as_str());
        proof {
            assert(cv@ == lv[start_index as int]);
        }
        if !match_at(&cv, 0, "***************") {
            return Ok(None);
        }
        let ante_start_index = start_index + 1;
        if ante_start_index >= lines.len() {
            return Err(DiffParseError::UnexpectedEndOfInput);
        }
        let acv = chars_of(lines[ante_start_index].as_str());
        proof {
            assert(acv@ == lv[ante_start_index as int]);
        }
        let ante_sal = match parse_ctx_nums(&acv, "***", "****", ante_start_index + 1)? {
            Some(sal) => sal,
            None => {
                return Err(
                    DiffParseError::SyntaxError(DiffFormat::Context, ante_start_index + 1),
                );
            },
        };
        let mut index = ante_start_index + 1;
        let mut ante_count: usize = 0;
        let mut post_start_index = index;
        let mut o_post_sal: Option<(usize, usize)> = None;
        while ante_count < ante_sal.1 && o_post_sal.is_none()
            invariant
                ante_start_index + 1 <= index <= lv.len(),
                ante_count <= ante_sal.1,
                post_start_index <= index,
                o_post_sal is Some ==> post_start_index == index,
                o_post_sal is Some ==> index < lv.len(),
                start_index < index,
            decreases ante_sal.1 - ante_count, (if o_post_sal is Some {
                0int
            } else {
                1int
            }),
        {
            if index >= lines.len() {
                return Err(DiffParseError::UnexpectedEndOfInput);
            }
            let bcv = chars_of(lines[index].as_str());
            post_start_index = index;
            o_post_sal = parse_ctx_nums(&bcv, "---", "----", index + 1)?;
            if o_post_sal.is_none() {
                ante_count = ante_count + 1;
                index = index + 1;
            }
        }
        if o_post_sal.is_none() {
            if index < lines.len() {
                let scv = chars_of(lines[index].as_str());
                if match_at(&scv, 0, "\\ ") {
                    index = index + 1;
                }
            }
            if index >= lines.len() {
                return Err(DiffParseError::UnexpectedEndOfInput);
            }
            let bcv = chars_of(lines[index].as_str());
            post_start_index = index;
            o_post_sal = parse_ctx_nums(&bcv, "---", "----", index + 1)?;
            if o_post_sal.is_none() {
                return Err(DiffParseError::SyntaxError(DiffFormat::Context, index + 1));
            }
            index = index + 1;
        } else {
            index = index + 1;
        }
        let post_sal = match o_post_sal {
            Some(sal) => sal,
            None => {
                return Err(DiffParseError::SyntaxError(DiffFormat::Context, index + 1));
            },
        };
        let mut post_count: usize = 0;
        while post_count < post_sal.1
            invariant
                post_start_index < index <= lv.len(),
                post_count <= post_sal.1,
                start_index < post_start_index,
            decreases post_sal.1 - post_count,
        {
            if index >= lines.len() {
                return Err(DiffParseError::UnexpectedEndOfInput);
            }
            let bcv = chars_of(lines[index].as_str());
            let ok = if match_at(&bcv, 0, "! ") || match_at(&bcv, 0, "+ ") {
                true
            } else {
                bcv.len() > 0 && bcv[0] == ' '
            };
            if !ok {
                if post_count == 0 {
                    break ;
                }
                return Err(DiffParseError::SyntaxError(DiffFormat::Context, index + 1));
            }
            post_count = post_count + 1;
            index = index + 1;
        }
        if index < lines.len() {
            let scv = chars_of(lines[index].as_str());
            if match_at(&scv, 0, "\\ ") {
                index = index + 1;
            }
        }
        let mut hl: Lines = Vec::new();
        let mut k = start_index;
        while k < index
            invariant
                start_index <= k <= index <= lv.len(),
                hl.deep_view() =~= lv.subrange(start_index as int, k as int),
            decreases index - k,
        {
            hl.push(lines[k].clone());
            k = k + 1;
            proof {
                assert(hl.deep_view() =~= lv.subrange(start_index as int, k as int));
            }
        }
        let ante_chunk = ContextDiffChunk {
            offset: 2,
            start_line_num: ante_sal.0,
            _length: ante_sal.1,
            numlines: post_start_index - ante_start_index - 1,
        };
        let post_chunk = ContextDiffChunk {
            offset: post_start_index + 1 - start_index,
            start_line_num: post_sal.0,
            _length: post_sal.1,
            numlines: index - post_start_index - 1,
        };
        Ok(Some(ContextDiffHunk { lines: hl, ante_chunk, post_chunk }))
    }

    /// Reads a whole context diff at `start_index`.
    #[verifier::loop_isolation(false)]
    pub fn get_diff_at(&self, lines: &[String], start_index: usize) -> (r: DiffParseResult<
        Option<ContextDiff>,
    >)
        ensures
            ({
                let lv = lines.deep_view();
                match r {
                    Ok(Some(d)) => {
                        &&& start_index + 2 <= lv.len()
                        &&& spec_file_data(lv[start_index as int], "*** "@, true) == Some(
                            d.header.ante_pat@,
                        )
                        &&& spec_file_data(lv[start_index + 1], "--- "@, true) == Some(
                            d.header.post_pat@,
                        )
                        &&& d.header.lines@.len() == 2
                        &&& 2 <= d.lines_consumed
                        &&& start_index + d.lines_consumed <= lv.len()
                        &&& d.header.lines.deep_view() + spec_ctx_hunks_lines(d.hunks.deep_view())
                            =~= lv.subrange(start_index as int, start_index + d.lines_consumed)
                        &&& spec_ctx_hunks_wf(d.hunks.deep_view())
                        &&& (start_index + d.lines_consumed == lv.len() || !spec_ctx_hunk_start(
                            lv[start_index + d.lines_consumed],
                        ))
                    },
                    Ok(None) => start_index + 2 > lv.len() || spec_file_data(
                        lv[start_index as int],
                        "*** "@,
                        true,
                    ) is None,
                    Err(_) => start_index + 2 <= lv.len() && spec_file_data(
                        lv[start_index as int],
                        "*** "@,
                        true,
                    ) is Some,
                }
            }),
    {
        let ghost lv = lines.deep_view();
        if start_index >= lines.len() || lines.len() - start_index < 2 {
            return Ok(None);
        }
        let header = match get_text_diff_header_at(lines, start_index, "*** ", "--- ", true)? {
            Some(h) => h,
            None => {
                return Ok(None);
            },
        };
        let mut hunks: Vec<ContextDiffHunk> = Vec::new();
        let mut index = start_index + 2;
        let mut more = true;
        while more && index < lines.len()
            invariant
                start_index + 2 <= index <= lv.len(),
                spec_ctx_hunks_wf(hunks.deep_view()),
                header.lines.deep_view() + spec_ctx_hunks_lines(hunks.deep_view()) =~= lv.subrange(
                    start_index as int,
                    index as int,
                ),
                !more ==> !spec_ctx_hunk_start(lv[index as int]),
            decreases lv.len() - index, (if more {
                1int
            } else {
                0int
            }),
        {
            let next = self.get_hunk_at(lines, index)?;
            match next {
                Some(h) => {
                    let ghost hs0 = hunks.deep_view();
                    let hlen = h.lines.len();
                    proof {
                        lemma_ctx_hunks_lines_snoc(hs0, h@);
                    }
                    hunks.push(h);
                    index = index + hlen;
                    proof {
                        assert(hunks.deep_view() =~= hs0.push(hunks@[hs0.len() as int]@));
                        assert(header.lines.deep_view() + spec_ctx_hunks_lines(hunks.deep_view())
                            =~= lv.subrange(start_index as int, index as int));
                    }
                },
                None => {
                    more = false;
                },
            }
        }
        Ok(
            Some(
                ContextDiff {
                    lines_consumed: index - start_index,
                    header,
                    hunks,
                },
            ),
        )
    }
}

impl ContextDiff {
    pub open spec fn wf(&self) -> bool {
        spec_ctx_hunks_wf(self.hunks.deep_view())
    }

    pub fn len(&self) -> (r: usize)
        ensures
            r == self.lines_consumed,
    {
        self.lines_consumed
    }

    pub fn is_empty(&self) -> (r: bool)
        ensures
            r == (self.lines_consumed == 0),
    {
        self.lines_consumed == 0
    }

    pub fn header(&self) -> (r: &TextDiffHeader)
        ensures
            r == &self.header,
    {
        &self.header
    }

    pub fn hunks(&self) -> (r: &Vec<ContextDiffHunk>)
        ensures
            r == &self.hunks,
    {
        &self.hunks
    }

    pub fn get_ante_file_path(&self, strip_level: usize) -> (r: String)
        ensures
            r@ == crate::scan::spec_strip_at(
                self.header.ante_pat.file_path@,
                0,
                strip_level as int,
            ),
    {
        crate::scan::path_stripped_of_n_levels(self.header.ante_pat.file_path.as_str(), strip_level)
    }

    pub fn get_post_file_path(&self, strip_level: usize) -> (r: String)
        ensures
            r@ == crate::scan::spec_strip_at(
                self.header.post_pat.file_path@,
                0,
                strip_level as int,
            ),
    {
        crate::scan::path_stripped_of_n_levels(self.header.post_pat.file_path.as_str(), strip_level)
    }

    /// The post path, or the ante path when the post side is `/dev/null`.
    pub fn get_file_path(&self, strip_level: usize) -> (r: String)
        ensures
            r@ == crate::scan::spec_strip_at(
                if self.header.post_pat.file_path@ != "/dev/null"@ {
                    self.header.post_pat.file_path@
                } else {
                    self.header.ante_pat.file_path@
                },
                0,
                strip_level as int,
            ),
    {
        if !crate::scan::str_eq(self.header.post_pat.file_path.as_str(), "/dev/null") {
            self.get_post_file_path(strip_level)
        } else {
            self.get_ante_file_path(strip_level)
        }
    }

    /// Does some hunk of this diff add or change a line ending in white
    /// space?
    #[verifier::loop_isolation(false)]
    pub fn adds_trailing_white_space(&self) -> (r: bool)
        requires
            self.wf(),
        ensures
            r == exists|k: int, i: int|
                0 <= k < self.hunks@.len() && hv_post_lo(#[trigger] self.hunks.deep_view()[k]) <= i
                    < hv_post_hi(self.hunks.deep_view()[k]) && ((
                #[trigger] self.hunks.deep_view()[k].lines[i])[0] == '+'
                    || self.hunks.deep_view()[k].lines[i][0] == '!')
                    && self.hunks.deep_view()[k].lines[i].len() > 0 && spec_has_tws(
                    self.hunks.deep_view()[k].lines[i],
                ),
    {
        let mut k: usize = 0;
        while k < self.hunks.len()
            invariant
                k <= self.hunks@.len(),
                self.wf(),
                forall|m: int, i: int|
                    0 <= m < k && hv_post_lo(#[trigger] self.hunks.deep_view()[m]) <= i
                        < hv_post_hi(self.hunks.deep_view()[m]) ==> !(((
                    #[trigger] self.hunks.deep_view()[m].lines[i])[0] == '+'
                        || self.hunks.deep_view()[m].lines[i][0] == '!')
                        && self.hunks.deep_view()[m].lines[i].len() > 0 && spec_has_tws(
                        self.hunks.deep_view()[m].lines[i],
                    )),
            decreases self.hunks@.len() - k,
        {
            proof {
                assert(self.hunks.deep_view()[k as int] == self.hunks@[k as int]@);
            }
            if self.hunks[k].adds_trailing_white_space() {
                return true;
            }
            k = k + 1;
        }
        false
    }

    /// Applies this diff's hunks to a line sequence; `reverse` swaps each
    /// hunk's sides first.
    #[verifier::loop_isolation(false)]
    pub fn apply_to_lines(&self, lines: &Vec<String>, reverse: bool) -> (r: Changed)
        requires
            self.wf(),
        ensures
            ({
                let m = spec_apply_changes_lines(
                    spec_ctx_changes(self.hunks.deep_view(), reverse),
                    lines.deep_view(),
                );
                &&& r.string@ == m.out
                &&& r.successes == m.successes
                &&& r.merges == m.merges
                &&& r.already_applied == m.already_applied
                &&& r.already_merged == m.already_merged
                &&& r.failures == m.failures
            }),
    {
        let ghost hv = self.hunks.deep_view();
        let mut cs: Vec<Change> = Vec::new();
        let mut k: usize = 0;
        while k < self.hunks.len()
            invariant
                k <= self.hunks@.len(),
                cs@.len() == k,
                self.wf(),
                hv == self.hunks.deep_view(),
                forall|j: int|
                    0 <= j < k ==> (#[trigger] cs.deep_view()[j]) == spec_ctx_hunk_change(
                        hv[j],
                        reverse,
                    ),
            decreases self.hunks@.len() - k,
        {
            proof {
                assert(hv[k as int] == self.hunks@[k as int]@);
                assert(spec_ctx_hunk_wf(hv[k as int]));
            }
            let c = self.hunks[k].change(reverse);
            let ghost cs0 = cs@;
            let ghost odv = cs.deep_view();
            cs.push(c);
            proof {
                assert(cs@[k as int] == c);
                assert forall|j: int| 0 <= j < k + 1 implies (#[trigger] cs.deep_view()[j])
                    == spec_ctx_hunk_change(hv[j], reverse) by {
                    assert(cs.deep_view()[j] == cs@[j].deep_view());
                    assert(cs@[j].deep_view() == cs@[j]@);
                    if j < k {
                        assert(cs@[j] == cs0[j]);
                        assert(odv[j] == cs0[j].deep_view());
                        assert(odv[j] == spec_ctx_hunk_change(hv[j], reverse));
                    } else {
                        assert(cs@[j] == c);
                        assert(c@ == spec_ctx_hunk_change(hv[j], reverse));
                    }
                }
            }
            k = k + 1;
        }
        proof {
            assert(cs.deep_view() =~= spec_ctx_changes(hv, reverse));
        }
        let slice = cs.as_slice();
        proof {
            assert(slice.deep_view() =~= cs.deep_view());
        }
        apply_changes_to_lines(slice, lines)
    }
}

} // verus!
