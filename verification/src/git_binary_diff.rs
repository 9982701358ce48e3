//! Recognition of the two-sided binary patch body: a forward and a reverse
//! payload, each a base-85 encoding of literal or delta data.

pub mod git_base85;
pub mod git_delta;

use vstd::prelude::*;

use crate::lines::Lines;
use crate::scan::{
    chars_of, digits_end, match_at, parse_number, spec_digits_val, spec_is_digit, spec_match_at,
    spec_run_end,
};
use crate::text_diff::{DiffParseError, DiffParseResult};
use crate::DiffFormat;

use self::git_base85::{decode_lines, spec_decode_lines, spec_lines_bytes};

verus! {

/// How a binary payload encodes its content.
#[derive(Debug, Clone, Copy, PartialEq, Eq, Structural)]
pub enum GitBinaryDiffMethod {
    Literal,
    Delta,
}

/// The index of the line's content end: its length, less a final newline.
pub open spec fn spec_line_content_end(s: Seq<char>) -> int {
    if s.len() > 0 && s[s.len() - 1] == '\n' {
        s.len() - 1
    } else {
        s.len() as int
    }
}

/// The binary body's opening line, `GIT binary patch`.
pub open spec fn spec_bin_header(s: Seq<char>) -> bool {
    spec_match_at(s, 0, "GIT binary patch"@) && spec_line_content_end(s) == 16
}

/// A payload's method line: `literal N` or `delta N`.
pub open spec fn spec_bin_method_line(s: Seq<char>) -> Option<(GitBinaryDiffMethod, int)> {
    if spec_match_at(s, 0, "literal "@) {
        let d = spec_run_end(s, 8, |c: char| spec_is_digit(c));
        if d > 8 && d == spec_line_content_end(s) {
            Some((GitBinaryDiffMethod::Literal, spec_digits_val(s, 8, d)))
        } else {
            None
        }
    } else if spec_match_at(s, 0, "delta "@) {
        let d = spec_run_end(s, 6, |c: char| spec_is_digit(c));
        if d > 6 && d == spec_line_content_end(s) {
            Some((GitBinaryDiffMethod::Delta, spec_digits_val(s, 6, d)))
        } else {
            None
        }
    } else {
        None
    }
}

/// A blank line: nothing but its newline.
pub open spec fn spec_blank_line(s: Seq<char>) -> bool {
    spec_line_content_end(s) == 0
}

fn line_content_end(cv: &Vec<char>) -> (r: usize)
    ensures
        r as int == spec_line_content_end(cv@),
        r <= cv@.len(),
{
    let n = cv.len();
    if n > 0 && cv[n - 1] == '\n' {
        n - 1
    } else {
        n
    }
}

/// Reads a payload's method line.
#[verifier::loop_isolation(false)]
fn parse_bin_method_line(cv: &Vec<char>, line_num: usize) -> (r: DiffParseResult<
    Option<(GitBinaryDiffMethod, usize)>,
>)
    ensures
        ({
            let sp = spec_bin_method_line(cv@);
            match r {
                Ok(Some((m, sz))) => sp == Some((m, sz as int)),
                Ok(None) => sp is None,
                Err(e) => sp is Some && (e matches DiffParseError::ParseNumberError(l) && l
                    == line_num),
            }
        }),
{
    let n = cv.len();
    proof {
        reveal_strlit("literal ");
        reveal_strlit("delta ");
    }
    let e = line_content_end(cv);
    if match_at(cv, 0, "literal ") {
        let d = digits_end(cv, 8);
        if d > 8 && d == e {
            proof {
                crate::scan::lemma_run_end_bounds(cv@, 8, |c: char| spec_is_digit(c));
            }
            match parse_number(cv, 8, d) {
                Some(sz) => Ok(Some((GitBinaryDiffMethod::Literal, sz))),
                None => Err(DiffParseError::ParseNumberError(line_num)),
            }
        } else {
            Ok(None)
        }
    } else if match_at(cv, 0, "delta ") {
        let d = digits_end(cv, 6);
        if d > 6 && d == e {
            proof {
                crate::scan::lemma_run_end_bounds(cv@, 6, |c: char| spec_is_digit(c));
            }
            match parse_number(cv, 6, d) {
                Some(sz) => Ok(Some((GitBinaryDiffMethod::Delta, sz))),
                None => Err(DiffParseError::ParseNumberError(line_num)),
            }
        } else {
            Ok(None)
        }
    } else {
        Ok(None)
    }
}

/// One side's payload: its method, its declared decoded length, and its
/// base-85 lines, kept verbatim.
#[derive(Debug)]
pub struct GitBinaryDiffData {
    pub method: GitBinaryDiffMethod,
    pub len: usize,
    pub data_lines: Lines,
}

impl GitBinaryDiffData {
    /// The payload's raw bytes, decoded from its base-85 lines.
    pub fn decoded_payload(&self) -> (r: DiffParseResult<Vec<u8>>)
        ensures
            match r {
                Ok(v) => spec_decode_lines(spec_lines_bytes(self.data_lines.deep_view())) == Some(
                    v@,
                ),
                Err(_) => spec_decode_lines(spec_lines_bytes(self.data_lines.deep_view()))
                    is None,
            },
    {
        let sl = self.data_lines.as_slice();
        proof {
            assert(sl.deep_view() =~= self.data_lines.deep_view());
        }
        decode_lines(sl)
    }
}

/// What the zlib stream `b` inflates to, when it inflates at all.
pub uninterp spec fn zlib_inflate_of(b: Seq<u8>) -> Option<Seq<u8>>;

/// Relies on inflate::inflate_bytes_zlib: decompression of a zlib stream,
/// whose outcome depends on the bytes alone.
#[verifier::external_body]
fn inflate_zlib(data: &[u8]) -> (r: Result<Vec<u8>, String>)
    ensures
        match r {
            Ok(v) => zlib_inflate_of(data@) == Some(v@),
            Err(_) => zlib_inflate_of(data@) is None,
        },
{
    inflate::inflate_bytes_zlib(data)
}

impl GitBinaryDiffData {
    /// The content of a literal payload: its bytes decoded, then inflated;
    /// the declared length must match exactly.
    pub fn inflated_content(&self) -> (r: DiffParseResult<Vec<u8>>)
        ensures
            match r {
                Ok(v) => {
                    &&& (match spec_decode_lines(spec_lines_bytes(self.data_lines.deep_view())) {
                        Some(raw) => zlib_inflate_of(raw) == Some(v@),
                        None => false,
                    })
                    &&& v@.len() == self.len
                },
                Err(_) => match spec_decode_lines(
                    spec_lines_bytes(self.data_lines.deep_view()),
                ) {
                    Some(raw) => zlib_inflate_of(raw) is None || zlib_inflate_of(
                        raw,
                    )->Some_0.len() != self.len,
                    None => true,
                },
            },
    {
        let raw = self.decoded_payload()?;
        let raw_slice = raw.as_slice();
        proof {
            assert(raw_slice@ == raw@);
        }
        let content = match inflate_zlib(raw_slice) {
            Ok(v) => v,
            Err(_) => {
                return Err(
                    DiffParseError::ZLibInflateError("could not inflate the payload".to_owned()),
                );
            },
        };
        if content.len() != self.len {
            return Err(
                DiffParseError::ZLibInflateError(
                    "inflated payload has the wrong length".to_owned(),
                ),
            );
        }
        Ok(content)
    }
}

/// A parsed binary diff body: the verbatim lines and the forward and
/// reverse payloads.
#[derive(Debug)]
pub struct GitBinaryDiff {
    pub lines: Lines,
    pub forward: GitBinaryDiffData,
    pub reverse: GitBinaryDiffData,
}

impl GitBinaryDiff {
    pub fn len(&self) -> (r: usize)
        ensures
            r == self.lines@.len(),
    {
        self.lines.len()
    }
}

/// The parser for the binary body.
pub struct GitBinaryDiffParser {}

impl GitBinaryDiffParser {
    pub fn new() -> (r: GitBinaryDiffParser) {
        GitBinaryDiffParser {  }
    }

    /// Reads one side's payload at `i`: the method line, then base-85 lines
    /// through a blank terminator.  Returns the payload and the index just
    /// past the terminator.
    #[verifier::loop_isolation(false)]
    fn get_data_at(&self, lines: &[String], i: usize) -> (r: DiffParseResult<
        (GitBinaryDiffData, usize),
    >)
        ensures
            ({
                let lv = lines.deep_view();
                match r {
                    Ok((d, next)) => {
                        &&& i < lv.len()
                        &&& spec_bin_method_line(lv[i as int]) == Some((d.method, d.len as int))
                        &&& i + 1 + d.data_lines@.len() < next <= lv.len()
                        &&& next == i + 2 + d.data_lines@.len()
                        &&& d.data_lines.deep_view() =~= lv.subrange(
                            i + 1,
                            i + 1 + d.data_lines@.len(),
                        )
                        &&& (forall|k: int|
                            i + 1 <= k < next - 1 ==> !spec_blank_line(#[trigger] lv[k]))
                        &&& spec_blank_line(lv[next - 1])
                    },
                    Err(_) => true,
                }
            }),
    {
        let ghost lv = lines.deep_view();
        if i >= lines.len() {
            return Err(DiffParseError::UnexpectedEndOfInput);
        }
        let mcv = chars_of(lines[i].as_str());
        proof {
            assert(mcv@ == lv[i as int]);
        }
        let (method, len) = match parse_bin_method_line(&mcv, i + 1)? {
            Some(q) => q,
            None => {
                return Err(DiffParseError::SyntaxError(DiffFormat::GitBinary, i + 1));
            },
        };
        let mut data_lines: Lines = Vec::new();
        let mut j = i + 1;
        loop
            invariant
                i + 1 <= j <= lv.len(),
                data_lines@.len() == j - i - 1,
                data_lines.deep_view() =~= lv.subrange(i + 1, j as int),
                forall|k: int| i + 1 <= k < j ==> !spec_blank_line(#[trigger] lv[k]),
            decreases lv.len() - j,
        {
            if j >= lines.len() {
                return Err(DiffParseError::UnexpectedEndOfInput);
            }
            let cv = chars_of(lines[j].as_str());
            proof {
                assert(cv@ == lv[j as int]);
            }
            if line_content_end(&cv) == 0 {
                break ;
            }
            data_lines.push(lines[j].clone());
            j = j + 1;
            proof {
                assert(data_lines.deep_view() =~= lv.subrange(i + 1, j as int));
            }
        }
        Ok((GitBinaryDiffData { method, len, data_lines }, j + 1))
    }

    /// Reads a whole binary body at `start_index`: the `GIT binary patch`
    /// line, then the forward and reverse payloads.  `Ok(None)` exactly
    /// when the first line is no binary header.
    #[verifier::loop_isolation(false)]
    pub fn get_diff_at(&self, lines: &[String], start_index: usize) -> (r: DiffParseResult<
        Option<GitBinaryDiff>,
    >)
        ensures
            ({
                let lv = lines.deep_view();
                match r {
                    Ok(Some(d)) => {
                        &&& start_index < lv.len()
                        &&& spec_bin_header(lv[start_index as int])
                        &&& d.lines@.len() == 5 + d.forward.data_lines@.len()
                            + d.reverse.data_lines@.len()
                        &&& start_index + d.lines@.len() <= lv.len()
                        &&& d.lines.deep_view() =~= lv.subrange(
                            start_index as int,
                            start_index + d.lines@.len(),
                        )
                        &&& spec_bin_method_line(lv[start_index + 1]) == Some(
                            (d.forward.method, d.forward.len as int),
                        )
                        &&& d.forward.data_lines.deep_view() =~= lv.subrange(
                            start_index + 2,
                            start_index + 2 + d.forward.data_lines@.len(),
                        )
                        &&& spec_bin_method_line(
                            lv[start_index + 3 + d.forward.data_lines@.len()],
                        ) == Some((d.reverse.method, d.reverse.len as int))
                        &&& d.reverse.data_lines.deep_view() =~= lv.subrange(
                            start_index + 4 + d.forward.data_lines@.len(),
                            start_index + 4 + d.forward.data_lines@.len()
                                + d.reverse.data_lines@.len(),
                        )
                    },
                    Ok(None) => start_index >= lv.len() || !spec_bin_header(
                        lv[start_index as int],
                    ),
                    Err(_) => start_index < lv.len() && spec_bin_header(lv[start_index as int]),
                }
            }),
    {
        let ghost lv = lines.deep_view();
        if start_index >= lines.len() {
            return Ok(None);
        }
        let cv = chars_of(lines[start_index].as_str());
        proof {
            assert(cv@ == lv[start_index as int]);
            reveal_strlit("GIT binary patch");
        }
        if !(match_at(&cv, 0, "GIT binary patch") && line_content_end(&cv) == 16) {
            return Ok(None);
        }
        let (forward, after_forward) = self.get_data_at(lines, start_index + 1)?;
        let (reverse, after_reverse) = self.get_data_at(lines, after_forward)?;
        let mut hl: Lines = Vec::new();
        let mut k = start_index;
        while k < after_reverse
            invariant
                start_index <= k <= after_reverse <= lv.len(),
                hl.deep_view() =~= lv.subrange(start_index as int, k as int),
            decreases after_reverse - k,
        {
            hl.push(lines[k].clone());
            k = k + 1;
            proof {
                assert(hl.deep_view() =~= lv.subrange(start_index as int, k as int));
            }
        }
        Ok(Some(GitBinaryDiff { lines: hl, forward, reverse }))
    }
}

} // verus!
