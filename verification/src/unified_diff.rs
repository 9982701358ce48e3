//! The unified diff parser: `@@ -A,B +C,D @@` hunks whose body lines open
//! with a space, `+`, `-` or `\`.

use vstd::prelude::*;

use crate::change::{
    apply_changes_to_lines, make_change, spec_apply_changes_lines, spec_change, Change, Changed,
    ChangeView,
};
use crate::lines::{spec_has_tws, LineIfce, Lines};
use crate::scan::{chars_of, digits_end, match_at, parse_number, spec_digits_val, spec_is_digit,
    spec_match_at, spec_run_end};
use crate::text_diff::{
    extract_source_lines, get_text_diff_header_at, spec_extract_source_lines, spec_file_data,
    DiffParseError, DiffParseResult, SkipRule, TextDiffHeader,
};
use crate::DiffFormat;

verus! {

/// What follows `" +"` in a hunk header: `C(,D)? @@`, yielding the full
/// quadruple once `a` and `b` are known.
pub open spec fn spec_uh_post(s: Seq<char>, p: int, a: int, b: int) -> Option<(int, int, int, int)> {
    if !spec_match_at(s, p, " +"@) {
        None
    } else {
        let d3 = spec_run_end(s, p + 2, |c: char| spec_is_digit(c));
        if d3 <= p + 2 {
            None
        } else {
            let c = spec_digits_val(s, p + 2, d3);
            if d3 < s.len() && s[d3] == ',' {
                let d4 = spec_run_end(s, d3 + 1, |c: char| spec_is_digit(c));
                if d4 <= d3 + 1 {
                    None
                } else if spec_match_at(s, d4, " @@"@) {
                    Some((a, b, c, spec_digits_val(s, d3 + 1, d4)))
                } else {
                    None
                }
            } else if spec_match_at(s, d3, " @@"@) {
                Some((a, b, c, 1))
            } else {
                None
            }
        }
    }
}

/// The unified hunk start line `@@ -A(,B)? +C(,D)? @@...`; a missing `B`
/// or `D` stands for 1.
pub open spec fn spec_unified_hunk_header(s: Seq<char>) -> Option<(int, int, int, int)> {
    if !spec_match_at(s, 0, "@@ -"@) {
        None
    } else {
        let d1 = spec_run_end(s, 4, |c: char| spec_is_digit(c));
        if d1 <= 4 {
            None
        } else {
            let a = spec_digits_val(s, 4, d1);
            if d1 < s.len() && s[d1] == ',' {
                let d2 = spec_run_end(s, d1 + 1, |c: char| spec_is_digit(c));
                if d2 <= d1 + 1 {
                    None
                } else {
                    spec_uh_post(s, d2, a, spec_digits_val(s, d1 + 1, d2))
                }
            } else {
                spec_uh_post(s, d1, a, 1)
            }
        }
    }
}

/// Reads the `" +"C(,D)?" @@"` half of a hunk header.
#[verifier::loop_isolation(false)]
fn parse_uh_post(cv: &Vec<char>, p: usize, a: usize, b: usize, line_num: usize) -> (r:
    DiffParseResult<Option<(usize, usize, usize, usize)>>)
    requires
        p <= cv@.len(),
    ensures
        ({
            let sp = spec_uh_post(cv@, p as int, a as int, b as int);
            match r {
                Ok(Some((ra, rb, rc, rd))) => sp == Some(
                    (ra as int, rb as int, rc as int, rd as int),
                ),
                Ok(None) => sp is None,
                Err(e) => sp is Some && (e matches DiffParseError::ParseNumberError(l) && l
                    == line_num),
            }
        }),
{
    let n = cv.len();
    proof {
        reveal_strlit(" +");
        reveal_strlit(" @@");
    }
    if !match_at(cv, p, " +") {
        return Ok(None);
    }
    proof {
        assert(p + 2 <= n);
    }
    let d3 = digits_end(cv, p + 2);
    if d3 <= p + 2 {
        return Ok(None);
    }
    proof {
        crate::scan::lemma_run_end_bounds(cv@, p + 2, |c: char| spec_is_digit(c));
    }
    if d3 < n && cv[d3] == ',' {
        let d4 = digits_end(cv, d3 + 1);
        if d4 <= d3 + 1 {
            return Ok(None);
        }
        if !match_at(cv, d4, " @@") {
            return Ok(None);
        }
        proof {
            crate::scan::lemma_run_end_bounds(cv@, d3 + 1, |c: char| spec_is_digit(c));
        }
        let c = match parse_number(cv, p + 2, d3) {
            Some(v) => v,
            None => {
                return Err(DiffParseError::ParseNumberError(line_num));
            },
        };
        let d = match parse_number(cv, d3 + 1, d4) {
            Some(v) => v,
            None => {
                return Err(DiffParseError::ParseNumberError(line_num));
            },
        };
        Ok(Some((a, b, c, d)))
    } else if match_at(cv, d3, " @@") {
        let c = match parse_number(cv, p + 2, d3) {
            Some(v) => v,
            None => {
                return Err(DiffParseError::ParseNumberError(line_num));
            },
        };
        Ok(Some((a, b, c, 1)))
    } else {
        Ok(None)
    }
}

/// Reads a whole unified hunk header line.
#[verifier::loop_isolation(false)]
pub fn parse_unified_hunk_header(cv: &Vec<char>, line_num: usize) -> (r: DiffParseResult<
    Option<(usize, usize, usize, usize)>,
>)
    ensures
        ({
            let sp = spec_unified_hunk_header(cv@);
            match r {
                Ok(Some((ra, rb, rc, rd))) => sp == Some(
                    (ra as int, rb as int, rc as int, rd as int),
                ),
                Ok(None) => sp is None,
                Err(e) => sp is Some && (e matches DiffParseError::ParseNumberError(l) && l
                    == line_num),
            }
        }),
{
    proof {
        reveal_strlit("@@ -");
    }
    if !match_at(cv, 0, "@@ -") {
        return Ok(None);
    }
    let d1 = digits_end(cv, 4);
    if d1 <= 4 {
        return Ok(None);
    }
    proof {
        crate::scan::lemma_run_end_bounds(cv@, 4, |c: char| spec_is_digit(c));
    }
    // keep scanning on a value too large for a machine word, so that it is
    // only reported on a line that is a hunk header throughout
    let a_parsed = parse_number(cv, 4, d1);
    if d1 < cv.len() && cv[d1] == ',' {
        let d2 = digits_end(cv, d1 + 1);
        if d2 <= d1 + 1 {
            return Ok(None);
        }
        proof {
            crate::scan::lemma_run_end_bounds(cv@, d1 + 1, |c: char| spec_is_digit(c));
        }
        let b_parsed = parse_number(cv, d1 + 1, d2);
        match (a_parsed, b_parsed) {
            (Some(a), Some(b)) => parse_uh_post(cv, d2, a, b, line_num),
            _ => {
                if parse_uh_probe(cv, d2) {
                    Err(DiffParseError::ParseNumberError(line_num))
                } else {
                    Ok(None)
                }
            },
        }
    } else {
        match a_parsed {
            Some(a) => parse_uh_post(cv, d1, a, 1, line_num),
            None => {
                if parse_uh_probe(cv, d1) {
                    Err(DiffParseError::ParseNumberError(line_num))
                } else {
                    Ok(None)
                }
            },
        }
    }
}

/// Does the rest of a header line (from `p`) have the `" +"C(,D)?" @@"`
/// shape, whatever the numbers' size?
#[verifier::loop_isolation(false)]
fn parse_uh_probe(cv: &Vec<char>, p: usize) -> (r: bool)
    requires
        p <= cv@.len(),
    ensures
        r == (spec_uh_post(cv@, p as int, 0, 0) is Some),
{
    proof {
        reveal_strlit(" +");
        reveal_strlit(" @@");
    }
    let n = cv.len();
    if !match_at(cv, p, " +") {
        return false;
    }
    proof {
        assert(p + 2 <= n);
    }
    let d3 = digits_end(cv, p + 2);
    if d3 <= p + 2 {
        return false;
    }
    if d3 < n && cv[d3] == ',' {
        let d4 = digits_end(cv, d3 + 1);
        if d4 <= d3 + 1 {
            return false;
        }
        match_at(cv, d4, " @@")
    } else {
        match_at(cv, d3, " @@")
    }
}

/// One side of a unified hunk: its 1-based start line and its length.
#[derive(Debug, Clone, Copy)]
pub struct UnifiedDiffChunk {
    pub start_line_num: usize,
    pub length: usize,
}

/// One unified hunk: its verbatim lines (the header line included) and its
/// two chunks.
#[derive(Debug)]
pub struct UnifiedDiffHunk {
    pub lines: Lines,
    pub ante_chunk: UnifiedDiffChunk,
    pub post_chunk: UnifiedDiffChunk,
}

pub struct UnifiedHunkView {
    pub lines: Seq<Seq<char>>,
    pub ante_start: int,
    pub ante_len: int,
    pub post_start: int,
    pub post_len: int,
}

impl View for UnifiedDiffHunk {
    type V = UnifiedHunkView;

    open spec fn view(&self) -> UnifiedHunkView {
        UnifiedHunkView {
            lines: self.lines.deep_view(),
            ante_start: self.ante_chunk.start_line_num as int,
            ante_len: self.ante_chunk.length as int,
            post_start: self.post_chunk.start_line_num as int,
            post_len: self.post_chunk.length as int,
        }
    }
}

impl DeepView for UnifiedDiffHunk {
    type V = UnifiedHunkView;

    open spec fn deep_view(&self) -> UnifiedHunkView {
        self@
    }
}

/// A line of the ante side: context or removal.
pub open spec fn spec_ante_line(l: Seq<char>) -> bool {
    l.len() > 0 && (l[0] == ' ' || l[0] == '-')
}

/// A line of the post side: context or addition.
pub open spec fn spec_post_line(l: Seq<char>) -> bool {
    l.len() > 0 && (l[0] == '+' || l[0] == ' ')
}

/// How many of `ls[i..j)` belong to the ante side.
pub open spec fn spec_count_ante(ls: Seq<Seq<char>>, i: int, j: int) -> int
    decreases j - i,
{
    if i >= j {
        0
    } else {
        spec_count_ante(ls, i, j - 1) + if spec_ante_line(ls[j - 1]) {
            1int
        } else {
            0int
        }
    }
}

/// How many of `ls[i..j)` belong to the post side.
pub open spec fn spec_count_post(ls: Seq<Seq<char>>, i: int, j: int) -> int
    decreases j - i,
{
    if i >= j {
        0
    } else {
        spec_count_post(ls, i, j - 1) + if spec_post_line(ls[j - 1]) {
            1int
        } else {
            0int
        }
    }
}

/// A valid unified body line opens with a space, `+`, `-` or `\`.
pub open spec fn spec_unified_body_line(l: Seq<char>) -> bool {
    l.len() > 0 && (l[0] == ' ' || l[0] == '+' || l[0] == '-' || l[0] == '\\')
}

/// The zero-based index a 1-based diff line number stands for.
pub open spec fn spec_zero_based(x: int) -> int {
    if x > 0 {
        x - 1
    } else {
        0
    }
}

impl UnifiedDiffHunk {
    pub fn len(&self) -> (r: usize)
        ensures
            r == self.lines@.len(),
    {
        self.lines.len()
    }

    /// The source lines of the ante side: every body line but the additions.
    pub fn ante_lines(&self) -> (r: Lines)
        requires
            self.lines@.len() >= 1,
        ensures
            r.deep_view() == spec_extract_source_lines(
                self@.lines.skip(1),
                0,
                1,
                SkipRule::PlusPrefixed,
            ),
    {
        let body = &self.lines[1..self.lines.len()];
        proof {
            assert(body.deep_view() =~= self@.lines.skip(1));
        }
        extract_source_lines(body, 1, SkipRule::PlusPrefixed)
    }

    /// The source lines of the post side: every body line but the removals.
    pub fn post_lines(&self) -> (r: Lines)
        requires
            self.lines@.len() >= 1,
        ensures
            r.deep_view() == spec_extract_source_lines(
                self@.lines.skip(1),
                0,
                1,
                SkipRule::MinusPrefixed,
            ),
    {
        let body = &self.lines[1..self.lines.len()];
        proof {
            assert(body.deep_view() =~= self@.lines.skip(1));
        }
        extract_source_lines(body, 1, SkipRule::MinusPrefixed)
    }

    /// Does some added line of this hunk end in white space?
    #[verifier::loop_isolation(false)]
    pub fn adds_trailing_white_space(&self) -> (r: bool)
        ensures
            r == exists|i: int|
                0 <= i < self@.lines.len() && (#[trigger] self@.lines[i])[0] == '+' && self@.lines[
                    i
                ].len() > 0 && spec_has_tws(self@.lines[i]),
    {
        let mut i: usize = 0;
        while i < self.lines.len()
            invariant
                i <= self.lines@.len(),
                forall|j: int|
                    0 <= j < i ==> !((#[trigger] self@.lines[j])[0] == '+' && self@.lines[j].len()
                        > 0 && spec_has_tws(self@.lines[j])),
            decreases self.lines@.len() - i,
        {
            let cv = chars_of(self.lines[i].as_str());
            proof {
                assert(cv@ == self@.lines[i as int]);
            }
            if cv.len() > 0 && cv[0] == '+' && self.lines[i].has_trailing_white_space() {
                return true;
            }
            i = i + 1;
        }
        false
    }

    /// The change this hunk stands for, sides swapped when `reverse` holds.
    pub fn change(&self, reverse: bool) -> (c: Change)
        requires
            self.lines@.len() >= 1,
        ensures
            c@ == spec_unified_hunk_change(self@, reverse),
    {
        let av = self.ante_lines();
        let pv = self.post_lines();
        let astart = if self.ante_chunk.start_line_num > 0 {
            self.ante_chunk.start_line_num - 1
        } else {
            0
        };
        let pstart = if self.post_chunk.start_line_num > 0 {
            self.post_chunk.start_line_num - 1
        } else {
            0
        };
        if reverse {
            make_change(pstart, pv, astart, av)
        } else {
            make_change(astart, av, pstart, pv)
        }
    }
}

/// The change a unified hunk stands for.
pub open spec fn spec_unified_hunk_change(hv: UnifiedHunkView, reverse: bool) -> ChangeView {
    let a = spec_extract_source_lines(hv.lines.skip(1), 0, 1, SkipRule::PlusPrefixed);
    let p = spec_extract_source_lines(hv.lines.skip(1), 0, 1, SkipRule::MinusPrefixed);
    let astart = spec_zero_based(hv.ante_start);
    let pstart = spec_zero_based(hv.post_start);
    if reverse {
        spec_change(pstart, p, astart, a)
    } else {
        spec_change(astart, a, pstart, p)
    }
}

/// The changes of a hunk list, in order.
pub open spec fn spec_unified_changes(hs: Seq<UnifiedHunkView>, reverse: bool) -> Seq<ChangeView> {
    Seq::new(hs.len(), |k: int| spec_unified_hunk_change(hs[k], reverse))
}

/// The parser for the unified dialect.
pub struct UnifiedDiffParser {}

impl UnifiedDiffParser {
    pub fn new() -> (r: UnifiedDiffParser) {
        UnifiedDiffParser {  }
    }

    /// Reads one hunk at `start_index`: `Ok(None)` exactly when that line is
    /// no hunk header; an error only on a line that is one.
    #[verifier::loop_isolation(false)]
    #[verifier::rlimit(60)]
    pub fn get_hunk_at(&self, lines: &[String], start_index: usize) -> (r: DiffParseResult<
        Option<UnifiedDiffHunk>,
    >)
        ensures
            ({
                let lv = lines.deep_view();
                match r {
                    Ok(Some(h)) => {
                        &&& start_index < lv.len()
                        &&& spec_unified_hunk_header(lv[start_index as int]) == Some(
                            (h@.ante_start, h@.ante_len, h@.post_start, h@.post_len),
                        )
                        &&& h@.lines.len() >= 1
                        &&& start_index + h@.lines.len() <= lv.len()
                        &&& h@.lines =~= lv.subrange(
                            start_index as int,
                            start_index + h@.lines.len(),
                        )
                        &&& spec_count_ante(lv, start_index + 1, start_index + h@.lines.len())
                            == h@.ante_len
                        &&& spec_count_post(lv, start_index + 1, start_index + h@.lines.len())
                            == h@.post_len
                        &&& forall|j: int|
                            start_index < j < start_index + h@.lines.len()
                                ==> spec_unified_body_line(#[trigger] lv[j])
                    },
                    Ok(None) => start_index >= lv.len() || spec_unified_hunk_header(
                        lv[start_index as int],
                    ) is None,
                    Err(e) => {
                        &&& start_index < lv.len()
                        &&& spec_unified_hunk_header(lv[start_index as int]) is Some
                        &&& ((e matches DiffParseError::ParseNumberError(l) && l == start_index
                            + 1) || (e is UnexpectedEndOfInput) || (e matches
                        DiffParseError::SyntaxError(DiffFormat::Unified, l) && start_index + 1 < l
                            <= lv.len()))
                    },
                }
            }),
    {
        let ghost lv = lines.deep_view();
        if start_index >= lines.len() {
            return Ok(None);
        }
        let cv = chars_of(lines[start_index].as_str());
        proof {
            assert(cv@ == lv[start_index as int]);
        }
        let (a, b, c, d) = match parse_unified_hunk_header(&cv, start_index + 1)? {
            Some(q) => q,
            None => {
                return Ok(None);
            },
        };
        let mut ante_remaining = b;
        let mut post_remaining = d;
        let mut i = start_index + 1;
        while ante_remaining > 0 || post_remaining > 0
            invariant
                start_index + 1 <= i <= lv.len(),
                ante_remaining <= b,
                post_remaining <= d,
                spec_count_ante(lv, start_index + 1, i as int) == b - ante_remaining,
                spec_count_post(lv, start_index + 1, i as int) == d - post_remaining,
                forall|j: int|
                    start_index < j < i ==> spec_unified_body_line(#[trigger] lv[j]),
            decreases ante_remaining + post_remaining, lv.len() - i,
        {
            if i >= lines.len() {
                return Err(DiffParseError::UnexpectedEndOfInput);
            }
            let bl = chars_of(lines[i].as_str());
            proof {
                assert(bl@ == lv[i as int]);
            }
            if bl.len() == 0 {
                return Err(DiffParseError::SyntaxError(DiffFormat::Unified, i + 1));
            }
            let c0 = bl[0];
            if c0 == '\\' {
                i = i + 1;
            } else if c0 == ' ' {
                if ante_remaining == 0 || post_remaining == 0 {
                    return Err(DiffParseError::SyntaxError(DiffFormat::Unified, i + 1));
                }
                ante_remaining = ante_remaining - 1;
                post_remaining = post_remaining - 1;
                i = i + 1;
            } else if c0 == '-' {
                if ante_remaining == 0 {
                    return Err(DiffParseError::SyntaxError(DiffFormat::Unified, i + 1));
                }
                ante_remaining = ante_remaining - 1;
                i = i + 1;
            } else if c0 == '+' {
                if post_remaining == 0 {
                    return Err(DiffParseError::SyntaxError(DiffFormat::Unified, i + 1));
                }
                post_remaining = post_remaining - 1;
                i = i + 1;
            } else {
                return Err(DiffParseError::SyntaxError(DiffFormat::Unified, i + 1));
            }
        }
        if i < lines.len() {
            let tl = chars_of(lines[i].as_str());
            proof {
                assert(tl@ == lv[i as int]);
            }
            if tl.len() > 0 && tl[0] == '\\' {
                i = i + 1;
            }
        }
        let mut hl: Lines = Vec::new();
        let mut k = start_index;
        while k < i
            invariant
                start_index <= k <= i <= lv.len(),
                hl.deep_view() =~= lv.subrange(start_index as int, k as int),
            decreases i - k,
        {
            hl.push(lines[k].clone());
            k = k + 1;
            proof {
                assert(hl.deep_view() =~= lv.subrange(start_index as int, k as int));
            }
        }
        let hunk = UnifiedDiffHunk {
            lines: hl,
            ante_chunk: UnifiedDiffChunk { start_line_num: a, length: b },
            post_chunk: UnifiedDiffChunk { start_line_num: c, length: d },
        };
        Ok(Some(hunk))
    }
}

/// The verbatim lines of a hunk list, in order.
pub open spec fn spec_hunks_lines(hs: Seq<UnifiedHunkView>) -> Seq<Seq<char>>
    decreases hs.len(),
{
    if hs.len() == 0 {
        Seq::empty()
    } else {
        hs[0].lines + spec_hunks_lines(hs.skip(1))
    }
}

pub proof fn lemma_hunks_lines_snoc(hs: Seq<UnifiedHunkView>, h: UnifiedHunkView)
    ensures
        spec_hunks_lines(hs.push(h)) == spec_hunks_lines(hs) + h.lines,
    decreases hs.len(),
{
    let ps = hs.push(h);
    if hs.len() == 0 {
        assert(ps[0] == h);
        assert(ps.skip(1) =~= Seq::<UnifiedHunkView>::empty());
        assert(spec_hunks_lines(ps.skip(1)) =~= Seq::<Seq<char>>::empty());
        assert(spec_hunks_lines(hs) =~= Seq::<Seq<char>>::empty());
        assert(spec_hunks_lines(ps) =~= spec_hunks_lines(hs) + h.lines);
    } else {
        assert(ps[0] == hs[0]);
        assert(ps.skip(1) =~= hs.skip(1).push(h));
        lemma_hunks_lines_snoc(hs.skip(1), h);
        assert(spec_hunks_lines(ps) =~= spec_hunks_lines(hs) + h.lines);
    }
}

/// Every hunk of a parsed diff carries at least its header line.
pub open spec fn spec_hunks_wf(hs: Seq<UnifiedHunkView>) -> bool {
    forall|k: int| 0 <= k < hs.len() ==> (#[trigger] hs[k]).lines.len() >= 1
}

/// A parsed unified diff: its two-line header, its hunks, and how many
/// input lines the parse consumed.
#[derive(Debug)]
pub struct UnifiedDiff {
    pub lines_consumed: usize,
    pub header: TextDiffHeader,
    pub hunks: Vec<UnifiedDiffHunk>,
}

impl UnifiedDiff {
    pub open spec fn wf(&self) -> bool {
        spec_hunks_wf(self.hunks.deep_view())
    }

    /// How many input lines the parse consumed.
    pub fn len(&self) -> (r: usize)
        ensures
            r == self.lines_consumed,
    {
        self.lines_consumed
    }

    pub fn is_empty(&self) -> (r: bool)
        ensures
            r == (self.lines_consumed == 0),
    {
        self.lines_consumed == 0
    }

    pub fn header(&self) -> (r: &TextDiffHeader)
        ensures
            r == &self.header,
    {
        &self.header
    }

    pub fn hunks(&self) -> (r: &Vec<UnifiedDiffHunk>)
        ensures
            r == &self.hunks,
    {
        &self.hunks
    }

    pub fn get_ante_file_path(&self, strip_level: usize) -> (r: String)
        ensures
            r@ == crate::scan::spec_strip_at(
                self.header.ante_pat.file_path@,
                0,
                strip_level as int,
            ),
    {
        crate::scan::path_stripped_of_n_levels(self.header.ante_pat.file_path.as_str(), strip_level)
    }

    pub fn get_post_file_path(&self, strip_level: usize) -> (r: String)
        ensures
            r@ == crate::scan::spec_strip_at(
                self.header.post_pat.file_path@,
                0,
                strip_level as int,
            ),
    {
        crate::scan::path_stripped_of_n_levels(self.header.post_pat.file_path.as_str(), strip_level)
    }

    /// The post path, or the ante path when the post side is `/dev/null`.
    pub fn get_file_path(&self, strip_level: usize) -> (r: String)
        ensures
            r@ == crate::scan::spec_strip_at(
                if self.header.post_pat.file_path@ != "/dev/null"@ {
                    self.header.post_pat.file_path@
                } else {
                    self.header.ante_pat.file_path@
                },
                0,
                strip_level as int,
            ),
    {
        if !crate::scan::str_eq(self.header.post_pat.file_path.as_str(), "/dev/null") {
            self.get_post_file_path(strip_level)
        } else {
            self.get_ante_file_path(strip_level)
        }
    }

    /// Does some hunk of this diff add a line that ends in white space?
    #[verifier::loop_isolation(false)]
    pub fn adds_trailing_white_space(&self) -> (r: bool)
        ensures
            r == exists|k: int, i: int|
                0 <= k < self.hunks@.len() && 0 <= i < (
                #[trigger] self.hunks.deep_view()[k]).lines.len() && (
                #[trigger] self.hunks.deep_view()[k].lines[i])[0] == '+'
                    && self.hunks.deep_view()[k].lines[i].len() > 0 && spec_has_tws(
                    self.hunks.deep_view()[k].lines[i],
                ),
    {
        let mut k: usize = 0;
        while k < self.hunks.len()
            invariant
                k <= self.hunks@.len(),
                forall|m: int, i: int|
                    0 <= m < k && 0 <= i < (#[trigger] self.hunks.deep_view()[m]).lines.len()
                        ==> !((#[trigger] self.hunks.deep_view()[m].lines[i])[0] == '+'
                        && self.hunks.deep_view()[m].lines[i].len() > 0 && spec_has_tws(
                        self.hunks.deep_view()[m].lines[i],
                    )),
            decreases self.hunks@.len() - k,
        {
            proof {
                assert(self.hunks.deep_view()[k as int] == self.hunks@[k as int]@);
            }
            if self.hunks[k].adds_trailing_white_space() {
                return true;
            }
            k = k + 1;
        }
        false
    }

    /// Applies this diff's hunks to a line sequence; `reverse` swaps each
    /// hunk's sides first.
    #[verifier::loop_isolation(false)]
    pub fn apply_to_lines(&self, lines: &Vec<String>, reverse: bool) -> (r: Changed)
        requires
            self.wf(),
        ensures
            ({
                let m = spec_apply_changes_lines(
                    spec_unified_changes(self.hunks.deep_view(), reverse),
                    lines.deep_view(),
                );
                &&& r.string@ == m.out
                &&& r.successes == m.successes
                &&& r.merges == m.merges
                &&& r.already_applied == m.already_applied
                &&& r.already_merged == m.already_merged
                &&& r.failures == m.failures
            }),
    {
        let ghost hv = self.hunks.deep_view();
        let mut cs: Vec<Change> = Vec::new();
        let mut k: usize = 0;
        while k < self.hunks.len()
            invariant
                k <= self.hunks@.len(),
                cs@.len() == k,
                forall|j: int|
                    0 <= j < k ==> (#[trigger] cs.deep_view()[j]) == spec_unified_hunk_change(
                        hv[j],
                        reverse,
                    ),
            decreases self.hunks@.len() - k,
        {
            proof {
                assert(hv[k as int] == self.hunks@[k as int]@);
                assert(hv[k as int].lines.len() >= 1);
            }
            let c = self.hunks[k].change(reverse);
            let ghost cs0 = cs@;
            let ghost odv = cs.deep_view();
            cs.push(c);
            proof {
                assert(cs@[k as int] == c);
                assert(cs.deep_view()[k as int] == c@);
                assert(c@ == spec_unified_hunk_change(hv[k as int], reverse));
                assert forall|j: int| 0 <= j < k + 1 implies (#[trigger] cs.deep_view()[j])
                    == spec_unified_hunk_change(hv[j], reverse) by {
                    assert(cs.deep_view()[j] == cs@[j].deep_view());
                    assert(cs@[j].deep_view() == cs@[j]@);
                    if j < k {
                        assert(cs@[j] == cs0[j]);
                        assert(odv[j] == cs0[j].deep_view());
                        assert(odv[j] == spec_unified_hunk_change(hv[j], reverse));
                    } else {
                        assert(cs@[j] == c);
                        assert(c@ == spec_unified_hunk_change(hv[j], reverse));
                    }
                }
            }
            k = k + 1;
        }
        proof {
            assert(cs.deep_view() =~= spec_unified_changes(hv, reverse));
        }
        let slice = cs.as_slice();
        proof {
            assert(slice.deep_view() =~= cs.deep_view());
        }
        apply_changes_to_lines(slice, lines)
    }
}

impl UnifiedDiffParser {
    /// Reads a whole unified diff at `start_index`: the two header lines,
    /// then every hunk that follows.  `Ok(None)` exactly when fewer than two
    /// lines remain or the first line is no ante header.
    #[verifier::loop_isolation(false)]
    pub fn get_diff_at(&self, lines: &[String], start_index: usize) -> (r: DiffParseResult<
        Option<UnifiedDiff>,
    >)
        ensures
            ({
                let lv = lines.deep_view();
                match r {
                    Ok(Some(d)) => {
                        &&& start_index + 2 <= lv.len()
                        &&& spec_file_data(lv[start_index as int], "--- "@, false) == Some(
                            d.header.ante_pat@,
                        )
                        &&& spec_file_data(lv[start_index + 1], "+++ "@, false) == Some(
                            d.header.post_pat@,
                        )
                        &&& d.header.lines@.len() == 2
                        &&& 2 <= d.lines_consumed
                        &&& start_index + d.lines_consumed <= lv.len()
                        &&& d.header.lines.deep_view() + spec_hunks_lines(d.hunks.deep_view())
                            =~= lv.subrange(start_index as int, start_index + d.lines_consumed)
                        &&& d.wf()
                        &&& (start_index + d.lines_consumed == lv.len()
                            || spec_unified_hunk_header(
                            lv[start_index + d.lines_consumed],
                        ) is None)
                    },
                    Ok(None) => start_index + 2 > lv.len() || spec_file_data(
                        lv[start_index as int],
                        "--- "@,
                        false,
                    ) is None,
                    Err(_) => start_index + 2 <= lv.len() && spec_file_data(
                        lv[start_index as int],
                        "--- "@,
                        false,
                    ) is Some,
                }
            }),
    {
        let ghost lv = lines.deep_view();
        if start_index >= lines.len() || lines.len() - start_index < 2 {
            return Ok(None);
        }
        let header = match get_text_diff_header_at(lines, start_index, "--- ", "+++ ", false)? {
            Some(h) => h,
            None => {
                return Ok(None);
            },
        };
        let mut hunks: Vec<UnifiedDiffHunk> = Vec::new();
        let mut index = start_index + 2;
        let mut more = true;
        while more && index < lines.len()
            invariant
                start_index + 2 <= index <= lv.len(),
                spec_hunks_wf(hunks.deep_view()),
                header.lines.deep_view() + spec_hunks_lines(hunks.deep_view()) =~= lv.subrange(
                    start_index as int,
                    index as int,
                ),
                !more ==> spec_unified_hunk_header(lv[index as int]) is None,
            decreases lv.len() - index, (if more {
                1int
            } else {
                0int
            }),
        {
            let next = self.get_hunk_at(lines, index)?;
            match next {
                Some(h) => {
                    let ghost hs0 = hunks.deep_view();
                    let hlen = h.lines.len();
                    proof {
                        lemma_hunks_lines_snoc(hs0, h@);
                    }
                    hunks.push(h);
                    index = index + hlen;
                    proof {
                        assert(hunks.deep_view() =~= hs0.push(hunks@[hs0.len() as int]@));
                        assert(header.lines.deep_view() + spec_hunks_lines(hunks.deep_view())
                            =~= lv.subrange(start_index as int, index as int));
                    }
                },
                None => {
                    more = false;
                },
            }
        }
        Ok(
            Some(
                UnifiedDiff {
                    lines_consumed: index - start_index,
                    header,
                    hunks,
                },
            ),
        )
    }
}

} // verus!
