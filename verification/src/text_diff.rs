//! Shared parts of the text-diff parsers: the error model, path and
//! timestamp extraction, header recognition, and source-line extraction.

use vstd::prelude::*;
use vstd::string::StrSliceExecFns;

use crate::git_binary_diff::git_delta::DeltaError;
use crate::lines::Lines;
use crate::scan::{
    all_digits_in, chars_of, is_ws, match_at, parse_path, spec_all_digits, spec_is_ws,
    spec_match_at, spec_parse_path, spec_run_end, string_from_range,
};
use crate::DiffFormat;

verus! {

/// Everything that can go wrong while parsing or decoding a diff stream.
#[derive(Debug)]
pub enum DiffParseError {
    MissingAfterFileData(usize),
    ParseNumberError(usize),
    UnexpectedEndOfInput,
    UnexpectedEndHunk(DiffFormat, usize),
    UnexpectedInput(DiffFormat, String),
    SyntaxError(DiffFormat, usize),
    Base85Error(String),
    ZLibInflateError(String),
    GitDeltaError(DeltaError),
    IOError(String),
}

pub type DiffParseResult<T> = Result<T, DiffParseError>;

// ---- timestamps ----

/// `YYYY-MM-DD HH:MM:SS[.fffffffff] +HHMM`, at index `i`, with or without
/// the nine fractional digits.
pub open spec fn spec_ts_numeric_at(s: Seq<char>, i: int, frac: bool) -> bool {
    let tail = if frac {
        i + 29
    } else {
        i + 19
    };
    &&& 0 <= i
    &&& tail + 6 <= s.len()
    &&& spec_all_digits(s, i, i + 4)
    &&& s[i + 4] == '-'
    &&& spec_all_digits(s, i + 5, i + 7)
    &&& s[i + 7] == '-'
    &&& spec_all_digits(s, i + 8, i + 10)
    &&& s[i + 10] == ' '
    &&& spec_all_digits(s, i + 11, i + 13)
    &&& s[i + 13] == ':'
    &&& spec_all_digits(s, i + 14, i + 16)
    &&& s[i + 16] == ':'
    &&& spec_all_digits(s, i + 17, i + 19)
    &&& (frac ==> s[i + 19] == '.' && spec_all_digits(s, i + 20, i + 29))
    &&& s[tail] == ' '
    &&& (s[tail + 1] == '+' || s[tail + 1] == '-')
    &&& spec_all_digits(s, tail + 2, tail + 6)
}

pub open spec fn spec_is_upper(c: char) -> bool {
    'A' <= c <= 'Z'
}

pub open spec fn spec_is_lower(c: char) -> bool {
    'a' <= c <= 'z'
}

/// `Www Mmm DD HH:MM:SS YYYY +HHMM`, at index `i`.
pub open spec fn spec_ts_name_at(s: Seq<char>, i: int) -> bool {
    &&& 0 <= i
    &&& i + 30 <= s.len()
    &&& spec_is_upper(s[i]) && spec_is_lower(s[i + 1]) && spec_is_lower(s[i + 2])
    &&& s[i + 3] == ' '
    &&& spec_is_upper(s[i + 4]) && spec_is_lower(s[i + 5]) && spec_is_lower(s[i + 6])
    &&& s[i + 7] == ' '
    &&& spec_all_digits(s, i + 8, i + 10)
    &&& s[i + 10] == ' '
    &&& spec_all_digits(s, i + 11, i + 13)
    &&& s[i + 13] == ':'
    &&& spec_all_digits(s, i + 14, i + 16)
    &&& s[i + 16] == ':'
    &&& spec_all_digits(s, i + 17, i + 19)
    &&& s[i + 19] == ' '
    &&& spec_all_digits(s, i + 20, i + 24)
    &&& s[i + 24] == ' '
    &&& (s[i + 25] == '+' || s[i + 25] == '-')
    &&& spec_all_digits(s, i + 26, i + 30)
}

/// The end of a timestamp standing at index `i`, if one does.
pub open spec fn spec_ts_end(s: Seq<char>, i: int) -> Option<int> {
    if spec_ts_numeric_at(s, i, true) {
        Some(i + 35)
    } else if spec_ts_numeric_at(s, i, false) {
        Some(i + 25)
    } else if spec_ts_name_at(s, i) {
        Some(i + 30)
    } else {
        None
    }
}

fn ts_numeric_at(cv: &Vec<char>, i: usize, frac: bool) -> (r: bool)
    requires
        i <= cv@.len(),
    ensures
        r == spec_ts_numeric_at(cv@, i as int, frac),
{
    let need: usize = if frac {
        35
    } else {
        25
    };
    if cv.len() - i < need {
        return false;
    }
    let tail = if frac {
        i + 29
    } else {
        i + 19
    };
    all_digits_in(cv, i, i + 4) && cv[i + 4] == '-' && all_digits_in(cv, i + 5, i + 7) && cv[i + 7]
        == '-' && all_digits_in(cv, i + 8, i + 10) && cv[i + 10] == ' ' && all_digits_in(
        cv,
        i + 11,
        i + 13,
    ) && cv[i + 13] == ':' && all_digits_in(cv, i + 14, i + 16) && cv[i + 16] == ':'
        && all_digits_in(cv, i + 17, i + 19) && (!frac || (cv[i + 19] == '.' && all_digits_in(
        cv,
        i + 20,
        i + 29,
    ))) && cv[tail] == ' ' && (cv[tail + 1] == '+' || cv[tail + 1] == '-') && all_digits_in(
        cv,
        tail + 2,
        tail + 6,
    )
}

fn ts_name_at(cv: &Vec<char>, i: usize) -> (r: bool)
    requires
        i <= cv@.len(),
    ensures
        r == spec_ts_name_at(cv@, i as int),
{
    if cv.len() - i < 30 {
        return false;
    }
    let u0 = cv[i];
    let l1 = cv[i + 1];
    let l2 = cv[i + 2];
    let u4 = cv[i + 4];
    let l5 = cv[i + 5];
    let l6 = cv[i + 6];
    ('A' <= u0 && u0 <= 'Z') && ('a' <= l1 && l1 <= 'z') && ('a' <= l2 && l2 <= 'z') && cv[i + 3]
        == ' ' && ('A' <= u4 && u4 <= 'Z') && ('a' <= l5 && l5 <= 'z') && ('a' <= l6 && l6 <= 'z')
        && cv[i + 7] == ' ' && all_digits_in(cv, i + 8, i + 10) && cv[i + 10] == ' '
        && all_digits_in(cv, i + 11, i + 13) && cv[i + 13] == ':' && all_digits_in(
        cv,
        i + 14,
        i + 16,
    ) && cv[i + 16] == ':' && all_digits_in(cv, i + 17, i + 19) && cv[i + 19] == ' '
        && all_digits_in(cv, i + 20, i + 24) && cv[i + 24] == ' ' && (cv[i + 25] == '+' || cv[i
        + 25] == '-') && all_digits_in(cv, i + 26, i + 30)
}

fn ts_end(cv: &Vec<char>, i: usize) -> (r: Option<usize>)
    requires
        i <= cv@.len(),
    ensures
        match r {
            Some(e) => spec_ts_end(cv@, i as int) == Some(e as int) && i < e <= cv@.len(),
            None => spec_ts_end(cv@, i as int) is None,
        },
{
    let n = cv.len();
    if ts_numeric_at(cv, i, true) {
        proof {
            assert(i + 35 <= n);
        }
        Some(i + 35)
    } else if ts_numeric_at(cv, i, false) {
        proof {
            assert(i + 25 <= n);
        }
        Some(i + 25)
    } else if ts_name_at(cv, i) {
        proof {
            assert(i + 30 <= n);
        }
        Some(i + 30)
    } else {
        None
    }
}

// ---- the "path and optional timestamp" of a header line ----

/// A file path and the optional timestamp standing beside it.
#[derive(Debug, Clone)]
pub struct PathAndTimestamp {
    pub file_path: String,
    pub time_stamp: Option<String>,
}

pub struct PatView {
    pub file_path: Seq<char>,
    pub time_stamp: Option<Seq<char>>,
}

impl View for PathAndTimestamp {
    type V = PatView;

    open spec fn view(&self) -> PatView {
        PatView {
            file_path: self.file_path@,
            time_stamp: match self.time_stamp {
                Some(t) => Some(t@),
                None => None,
            },
        }
    }
}

/// What a header line `marker PATH [ws TS] rest` denotes.  With `strict`
/// nothing but an optional final newline may follow the path or timestamp.
pub open spec fn spec_file_data(s: Seq<char>, marker: Seq<char>, strict: bool) -> Option<PatView> {
    if !spec_match_at(s, 0, marker) {
        None
    } else {
        match spec_parse_path(s, marker.len() as int) {
            None => None,
            Some((p, e)) => {
                let w = spec_run_end(s, e, |c: char| spec_is_ws(c) && c != '\n');
                let ts = if w > e {
                    spec_ts_end(s, w)
                } else {
                    None
                };
                let after = match ts {
                    Some(te) => te,
                    None => e,
                };
                let tsv = match ts {
                    Some(te) => Some(s.subrange(w, te)),
                    None => None,
                };
                if strict && !(after == s.len() || (after == s.len() - 1 && s[after] == '\n')) {
                    None
                } else {
                    Some(PatView { file_path: p, time_stamp: tsv })
                }
            },
        }
    }
}

/// Reads the path and optional timestamp of the header line `cv`, which
/// must open with `marker`.
pub fn get_file_data(cv: &Vec<char>, marker: &str, strict: bool) -> (r: Option<PathAndTimestamp>)
    ensures
        match r {
            Some(pat) => spec_file_data(cv@, marker@, strict) == Some(pat@),
            None => spec_file_data(cv@, marker@, strict) is None,
        },
{
    if !match_at(cv, 0, marker) {
        return None;
    }
    let mlen = marker.unicode_len();
    let path_parse = parse_path(cv, mlen);
    match path_parse {
        None => None,
        Some((p, e)) => {
            let w = inline_ws_end(cv, e);
            let ts = if w > e {
                ts_end(cv, w)
            } else {
                None
            };
            let after = match ts {
                Some(te) => te,
                None => e,
            };
            if strict && !(after == cv.len() || (after == cv.len() - 1 && cv[after] == '\n')) {
                return None;
            }
            let tsv = match ts {
                Some(te) => Some(string_from_range(cv, w, te)),
                None => None,
            };
            Some(PathAndTimestamp { file_path: p, time_stamp: tsv })
        },
    }
}

/// First index at or past `i` that is not white space, newlines excluded.
#[verifier::loop_isolation(false)]
fn inline_ws_end(cv: &Vec<char>, i: usize) -> (r: usize)
    requires
        i <= cv@.len(),
    ensures
        r == spec_run_end(cv@, i as int, |c: char| spec_is_ws(c) && c != '\n'),
        i <= r <= cv@.len(),
{
    let ghost pred = |c: char| spec_is_ws(c) && c != '\n';
    let mut j = i;
    while j < cv.len() && is_ws(cv[j]) && cv[j] != '\n'
        invariant
            i <= j <= cv@.len(),
            spec_run_end(cv@, i as int, pred) == spec_run_end(cv@, j as int, pred),
        decreases cv@.len() - j,
    {
        j = j + 1;
    }
    j
}

// ---- the two-line header of a text diff ----

/// The two header lines of a text diff, with their extracted paths.
#[derive(Debug)]
pub struct TextDiffHeader {
    pub lines: Lines,
    pub ante_pat: PathAndTimestamp,
    pub post_pat: PathAndTimestamp,
}

/// Reads the ante and post header pair at `start_index`: `None` when the
/// ante marker line does not match, an error when the ante line matches but
/// the post line does not.
pub fn get_text_diff_header_at(
    lines: &[String],
    start_index: usize,
    ante_marker: &str,
    post_marker: &str,
    strict: bool,
) -> (r: DiffParseResult<Option<TextDiffHeader>>)
    requires
        start_index + 2 <= lines@.len(),
    ensures
        ({
            let a = spec_file_data(lines.deep_view()[start_index as int], ante_marker@, strict);
            let p = spec_file_data(lines.deep_view()[start_index + 1], post_marker@, strict);
            match r {
                Ok(Some(h)) => {
                    &&& a == Some(h.ante_pat@)
                    &&& p == Some(h.post_pat@)
                    &&& h.lines.deep_view() =~= lines.deep_view().subrange(
                        start_index as int,
                        start_index + 2,
                    )
                },
                Ok(None) => a is None,
                Err(e) => a is Some && p is None && (e matches DiffParseError::MissingAfterFileData(
                    i,
                ) && i == start_index),
            }
        }),
{
    let cv0 = chars_of(lines[start_index].as_str());
    proof {
        assert(cv0@ == lines.deep_view()[start_index as int]);
    }
    let ante_pat = match get_file_data(&cv0, ante_marker, strict) {
        Some(pat) => pat,
        None => {
            return Ok(None);
        },
    };
    let cv1 = chars_of(lines[start_index + 1].as_str());
    proof {
        assert(cv1@ == lines.deep_view()[start_index + 1]);
    }
    let post_pat = match get_file_data(&cv1, post_marker, strict) {
        Some(pat) => pat,
        None => {
            return Err(DiffParseError::MissingAfterFileData(start_index));
        },
    };
    let mut hl: Lines = Vec::new();
    hl.push(lines[start_index].clone());
    hl.push(lines[start_index + 1].clone());
    proof {
        assert(hl.deep_view() =~= lines.deep_view().subrange(start_index as int, start_index + 2));
    }
    Ok(Some(TextDiffHeader { lines: hl, ante_pat, post_pat }))
}

// ---- source-line extraction from hunk bodies ----

/// Which body lines the extraction drops, besides `\`-annotation lines.
#[derive(Debug, Clone, Copy)]
pub enum SkipRule {
    Nothing,
    PlusPrefixed,
    MinusPrefixed,
}

pub open spec fn spec_skip_line(r: SkipRule, l: Seq<char>) -> bool {
    match r {
        SkipRule::Nothing => false,
        SkipRule::PlusPrefixed => l.len() > 0 && l[0] == '+',
        SkipRule::MinusPrefixed => l.len() > 0 && l[0] == '-',
    }
}

pub open spec fn spec_is_annotation(l: Seq<char>) -> bool {
    l.len() > 0 && l[0] == '\\'
}

/// A line without its trailing newlines.
pub open spec fn spec_trim_nl(l: Seq<char>) -> Seq<char>
    decreases l.len(),
{
    if l.len() > 0 && l.last() == '\n' {
        spec_trim_nl(l.drop_last())
    } else {
        l
    }
}

/// The source lines extracted from `ls[i..]`: skipped and annotation lines
/// are dropped, a fixed-width prefix is trimmed, and a line followed by a
/// `\`-annotation loses its trailing newline.
pub open spec fn spec_extract_source_lines(
    ls: Seq<Seq<char>>,
    i: int,
    trim: int,
    r: SkipRule,
) -> Seq<Seq<char>>
    decreases ls.len() - i,
{
    if i < 0 || i >= ls.len() {
        Seq::empty()
    } else {
        let l = ls[i];
        if spec_skip_line(r, l) || spec_is_annotation(l) {
            spec_extract_source_lines(ls, i + 1, trim, r)
        } else {
            let cut = if l.len() < trim {
                l.len() as int
            } else {
                trim
            };
            let core = l.skip(cut);
            let keep = if i + 1 == ls.len() || !spec_is_annotation(ls[i + 1]) {
                core
            } else {
                spec_trim_nl(core)
            };
            seq![keep] + spec_extract_source_lines(ls, i + 1, trim, r)
        }
    }
}

fn line_skipped(rule: SkipRule, cv: &Vec<char>) -> (r: bool)
    ensures
        r == spec_skip_line(rule, cv@),
{
    match rule {
        SkipRule::Nothing => false,
        SkipRule::PlusPrefixed => cv.len() > 0 && cv[0] == '+',
        SkipRule::MinusPrefixed => cv.len() > 0 && cv[0] == '-',
    }
}

fn line_is_annotation(cv: &Vec<char>) -> (r: bool)
    ensures
        r == spec_is_annotation(cv@),
{
    cv.len() > 0 && cv[0] == '\\'
}

/// Extracts one side's source lines from a hunk body: trims `trim_left_n`
/// prefix characters, drops the lines `skip` names and `\`-annotation
/// lines, and strips the newline of a line a `\`-annotation follows.
#[verifier::loop_isolation(false)]
pub fn extract_source_lines(lines: &[String], trim_left_n: usize, skip: SkipRule) -> (r: Lines)
    ensures
        r.deep_view() == spec_extract_source_lines(
            lines.deep_view(),
            0,
            trim_left_n as int,
            skip,
        ),
{
    let ghost lv = lines.deep_view();
    let mut out: Lines = Vec::new();
    let mut i: usize = 0;
    while i < lines.len()
        invariant
            i <= lines@.len(),
            spec_extract_source_lines(lv, 0, trim_left_n as int, skip) =~= out.deep_view()
                + spec_extract_source_lines(lv, i as int, trim_left_n as int, skip),
        decreases lines@.len() - i,
    {
        let cv = chars_of(lines[i].as_str());
        proof {
            assert(cv@ == lv[i as int]);
        }
        let ghost out0 = out.deep_view();
        if !line_skipped(skip, &cv) && !line_is_annotation(&cv) {
            let cut = if cv.len() < trim_left_n {
                cv.len()
            } else {
                trim_left_n
            };
            let followed = if i + 1 < lines.len() {
                let nv = chars_of(lines[i + 1].as_str());
                proof {
                    assert(nv@ == lv[i + 1]);
                }
                line_is_annotation(&nv)
            } else {
                false
            };
            let mut end = cv.len();
            if followed {
                while end > cut && cv[end - 1] == '\n'
                    invariant
                        cut <= end <= cv@.len(),
                        spec_trim_nl(cv@.skip(cut as int)) == spec_trim_nl(
                            cv@.subrange(cut as int, end as int),
                        ),
                    decreases end,
                {
                    proof {
                        assert(cv@.subrange(cut as int, end as int).drop_last() =~= cv@.subrange(
                            cut as int,
                            end - 1,
                        ));
                    }
                    end = end - 1;
                }
                proof {
                    assert(spec_trim_nl(cv@.subrange(cut as int, end as int)) == cv@.subrange(
                        cut as int,
                        end as int,
                    ));
                }
            }
            let piece = string_from_range(&cv, cut, end);
            out.push(piece);
            proof {
                if followed {
                    assert(out.deep_view() =~= out0 + seq![spec_trim_nl(cv@.skip(cut as int))]);
                } else {
                    assert(cv@.subrange(cut as int, cv@.len() as int) =~= cv@.skip(cut as int));
                    assert(out.deep_view() =~= out0 + seq![cv@.skip(cut as int)]);
                }
            }
        }
        i = i + 1;
        proof {
            assert(spec_extract_source_lines(lv, 0, trim_left_n as int, skip) =~= out.deep_view()
                + spec_extract_source_lines(lv, i as int, trim_left_n as int, skip));
        }
    }
    proof {
        assert(out.deep_view() =~= spec_extract_source_lines(lv, 0, trim_left_n as int, skip));
    }
    out
}

} // verus!
