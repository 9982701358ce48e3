//! The diff dispatcher: tries the unified, binary and context parsers in
//! turn, pairs a diff with its preamble, and hashes whole patch records.

use vstd::prelude::*;

use crate::context_diff::{spec_ctx_hunks_lines, spec_ctx_hunks_wf, ContextDiff, ContextDiffParser};
use crate::git_binary_diff::{spec_bin_header, GitBinaryDiff, GitBinaryDiffParser};
use crate::lines::Lines;
use crate::preamble::{
    spec_diff_header, spec_git_extras_run, spec_git_header, spec_preamble_lines, GitPreamble,
    Preamble, PreambleParser,
};
use crate::scan::spec_strip_at;
use crate::text_diff::{spec_file_data, DiffParseResult};
use crate::unified_diff::{spec_hunks_lines, spec_hunks_wf, UnifiedDiff, UnifiedDiffParser};

verus! {

/// A recognized diff body, of any dialect, or a VCS preamble standing
/// alone.
#[derive(Debug)]
pub enum Diff {
    Unified(UnifiedDiff),
    Context(ContextDiff),
    GitBinary(GitBinaryDiff),
    GitPreambleOnly(GitPreamble),
}

/// The verbatim lines a diff consists of.
pub open spec fn spec_diff_lines(d: &Diff) -> Seq<Seq<char>> {
    match d {
        Diff::Unified(u) => u.header.lines.deep_view() + spec_hunks_lines(u.hunks.deep_view()),
        Diff::Context(c) => c.header.lines.deep_view() + spec_ctx_hunks_lines(c.hunks.deep_view()),
        Diff::GitBinary(b) => b.lines.deep_view(),
        Diff::GitPreambleOnly(p) => p.lines.deep_view(),
    }
}

/// How many input lines the diff's parse consumed.
pub open spec fn spec_diff_len(d: &Diff) -> int {
    match d {
        Diff::Unified(u) => u.lines_consumed as int,
        Diff::Context(c) => c.lines_consumed as int,
        Diff::GitBinary(b) => b.lines@.len() as int,
        Diff::GitPreambleOnly(p) => p.lines@.len() as int,
    }
}

/// The structural soundness each dialect guarantees for its hunks.
pub open spec fn spec_diff_wf(d: &Diff) -> bool {
    match d {
        Diff::Unified(u) => spec_hunks_wf(u.hunks.deep_view()) && u.lines_consumed as int
            == spec_diff_lines(d).len(),
        Diff::Context(c) => spec_ctx_hunks_wf(c.hunks.deep_view()) && c.lines_consumed as int
            == spec_diff_lines(d).len(),
        Diff::GitBinary(b) => true,
        Diff::GitPreambleOnly(p) => true,
    }
}

impl Diff {
    pub fn len(&self) -> (r: usize)
        ensures
            r as int == spec_diff_len(self),
    {
        match self {
            Diff::Unified(d) => d.len(),
            Diff::Context(d) => d.len(),
            Diff::GitBinary(d) => d.len(),
            Diff::GitPreambleOnly(d) => d.len(),
        }
    }

    /// The diff's verbatim lines, collected into one vector.
    #[verifier::loop_isolation(false)]
    pub fn collect_lines(&self) -> (r: Lines)
        ensures
            r.deep_view() == spec_diff_lines(self),
    {
        match self {
            Diff::Unified(d) => {
                let mut out: Lines = Vec::new();
                append_lines(&mut out, &d.header.lines);
                let mut k: usize = 0;
                while k < d.hunks.len()
                    invariant
                        k <= d.hunks@.len(),
                        out.deep_view() =~= d.header.lines.deep_view() + spec_hunks_lines(
                            d.hunks.deep_view().take(k as int),
                        ),
                    decreases d.hunks@.len() - k,
                {
                    proof {
                        assert(d.hunks.deep_view()[k as int] == d.hunks@[k as int]@);
                        crate::unified_diff::lemma_hunks_lines_snoc(
                            d.hunks.deep_view().take(k as int),
                            d.hunks.deep_view()[k as int],
                        );
                        assert(d.hunks.deep_view().take(k as int).push(
                            d.hunks.deep_view()[k as int],
                        ) =~= d.hunks.deep_view().take(k as int + 1));
                    }
                    append_lines(&mut out, &d.hunks[k].lines);
                    k = k + 1;
                }
                proof {
                    assert(d.hunks.deep_view().take(d.hunks@.len() as int) =~= d.hunks.deep_view());
                }
                out
            },
            Diff::Context(d) => {
                let mut out: Lines = Vec::new();
                append_lines(&mut out, &d.header.lines);
                let mut k: usize = 0;
                while k < d.hunks.len()
                    invariant
                        k <= d.hunks@.len(),
                        out.deep_view() =~= d.header.lines.deep_view() + spec_ctx_hunks_lines(
                            d.hunks.deep_view().take(k as int),
                        ),
                    decreases d.hunks@.len() - k,
                {
                    proof {
                        assert(d.hunks.deep_view()[k as int] == d.hunks@[k as int]@);
                        crate::context_diff::lemma_ctx_hunks_lines_snoc(
                            d.hunks.deep_view().take(k as int),
                            d.hunks.deep_view()[k as int],
                        );
                        assert(d.hunks.deep_view().take(k as int).push(
                            d.hunks.deep_view()[k as int],
                        ) =~= d.hunks.deep_view().take(k as int + 1));
                    }
                    append_lines(&mut out, &d.hunks[k].lines);
                    k = k + 1;
                }
                proof {
                    assert(d.hunks.deep_view().take(d.hunks@.len() as int) =~= d.hunks.deep_view());
                }
                out
            },
            Diff::GitBinary(d) => {
                let mut out: Lines = Vec::new();
                append_lines(&mut out, &d.lines);
                proof {
                    assert(out.deep_view() =~= d.lines.deep_view());
                }
                out
            },
            Diff::GitPreambleOnly(d) => {
                let mut out: Lines = Vec::new();
                append_lines(&mut out, &d.lines);
                proof {
                    assert(out.deep_view() =~= d.lines.deep_view());
                }
                out
            },
        }
    }

    pub fn get_ante_file_path(&self, strip_level: usize) -> (r: Option<String>)
        ensures
            match r {
                Some(p) => p@ == spec_strip_at(spec_diff_ante_path(self), 0, strip_level as int),
                None => self is GitBinary,
            },
    {
        match self {
            Diff::Unified(d) => Some(d.get_ante_file_path(strip_level)),
            Diff::Context(d) => Some(d.get_ante_file_path(strip_level)),
            Diff::GitBinary(_) => None,
            Diff::GitPreambleOnly(p) => Some(p.get_ante_file_path(strip_level)),
        }
    }

    pub fn get_post_file_path(&self, strip_level: usize) -> (r: Option<String>)
        ensures
            match r {
                Some(p) => p@ == spec_strip_at(spec_diff_post_path(self), 0, strip_level as int),
                None => self is GitBinary,
            },
    {
        match self {
            Diff::Unified(d) => Some(d.get_post_file_path(strip_level)),
            Diff::Context(d) => Some(d.get_post_file_path(strip_level)),
            Diff::GitBinary(_) => None,
            Diff::GitPreambleOnly(p) => Some(p.get_post_file_path(strip_level)),
        }
    }

    /// The post path, or the ante path when the post side is `/dev/null`.
    pub fn get_file_path(&self, strip_level: usize) -> (r: Option<String>)
        ensures
            r is None <==> self is GitBinary,
            !(self is GitBinary) ==> r is Some && r->Some_0@ == spec_strip_at(
                if spec_diff_post_path(self) == "/dev/null"@ {
                    spec_diff_ante_path(self)
                } else {
                    spec_diff_post_path(self)
                },
                0,
                strip_level as int,
            ),
    {
        match self {
            Diff::Unified(d) => Some(d.get_file_path(strip_level)),
            Diff::Context(d) => Some(d.get_file_path(strip_level)),
            Diff::GitBinary(_) => None,
            Diff::GitPreambleOnly(p) => Some(p.get_file_path(strip_level)),
        }
    }

    /// Does the diff add a line ending in white space?
    pub fn adds_trailing_white_space(&self) -> (r: bool)
        requires
            spec_diff_wf(self),
        ensures
            r == spec_diff_adds_tws(self),
    {
        match self {
            Diff::Unified(d) => d.adds_trailing_white_space(),
            Diff::Context(d) => d.adds_trailing_white_space(),
            Diff::GitBinary(_) => false,
            Diff::GitPreambleOnly(_) => false,
        }
    }
}

/// Does a diff add a line that ends in white space: an added line of some
/// unified hunk, or an added or changed line of some context hunk.
pub open spec fn spec_diff_adds_tws(d: &Diff) -> bool {
    match d {
        Diff::Unified(u) => exists|k: int, i: int|
            0 <= k < u.hunks@.len() && 0 <= i < (#[trigger] u.hunks.deep_view()[k]).lines.len()
                && (#[trigger] u.hunks.deep_view()[k].lines[i])[0] == '+'
                && u.hunks.deep_view()[k].lines[i].len() > 0 && crate::lines::spec_has_tws(
                u.hunks.deep_view()[k].lines[i],
            ),
        Diff::Context(c) => exists|k: int, i: int|
            0 <= k < c.hunks@.len() && crate::context_diff::hv_post_lo(
                #[trigger] c.hunks.deep_view()[k],
            ) <= i < crate::context_diff::hv_post_hi(c.hunks.deep_view()[k]) && ((
            #[trigger] c.hunks.deep_view()[k].lines[i])[0] == '+' || c.hunks.deep_view()[k].lines[
                i
            ][0] == '!') && c.hunks.deep_view()[k].lines[i].len() > 0 && crate::lines::spec_has_tws(
                c.hunks.deep_view()[k].lines[i],
            ),
        Diff::GitBinary(_) => false,
        Diff::GitPreambleOnly(_) => false,
    }
}

pub open spec fn spec_diff_ante_path(d: &Diff) -> Seq<char> {
    match d {
        Diff::Unified(u) => u.header.ante_pat.file_path@,
        Diff::Context(c) => c.header.ante_pat.file_path@,
        Diff::GitBinary(b) => Seq::empty(),
        Diff::GitPreambleOnly(p) => p.ante_file_path@,
    }
}

pub open spec fn spec_diff_post_path(d: &Diff) -> Seq<char> {
    match d {
        Diff::Unified(u) => u.header.post_pat.file_path@,
        Diff::Context(c) => c.header.post_pat.file_path@,
        Diff::GitBinary(b) => Seq::empty(),
        Diff::GitPreambleOnly(p) => p.post_file_path@,
    }
}

/// Appends a clone of every line of `src` to `out`.
#[verifier::loop_isolation(false)]
fn append_lines(out: &mut Lines, src: &Lines)
    ensures
        final(out).deep_view() =~= old(out).deep_view() + src.deep_view(),
{
    let ghost base = out.deep_view();
    let mut k: usize = 0;
    while k < src.len()
        invariant
            k <= src@.len(),
            out.deep_view() =~= base + src.deep_view().take(k as int),
        decreases src@.len() - k,
    {
        let ghost prev = out.deep_view();
        out.push(src[k].clone());
        proof {
            assert(out.deep_view() =~= prev.push(src.deep_view()[k as int]));
            assert(prev.push(src.deep_view()[k as int]) =~= base + src.deep_view().take(
                k as int + 1,
            ));
        }
        k = k + 1;
    }
    proof {
        assert(src.deep_view().take(src@.len() as int) =~= src.deep_view());
    }
}

/// Whether a line opens a recognizable diff body of any dialect.
pub open spec fn spec_no_diff_at(lv: Seq<Seq<char>>, i: int) -> bool {
    &&& (i + 2 > lv.len() || spec_file_data(lv[i], "--- "@, false) is None)
    &&& (i >= lv.len() || !spec_bin_header(lv[i]))
    &&& (i + 2 > lv.len() || spec_file_data(lv[i], "*** "@, true) is None)
}

/// No patch record opens at line `i`: no VCS header, and whichever way
/// the generic-preamble question falls, no diff body follows.
pub open spec fn spec_line_skippable(lv: Seq<Seq<char>>, i: int) -> bool {
    &&& spec_git_header(lv[i]) is None
    &&& (match spec_diff_header(lv[i]) {
        Some(_) => spec_no_diff_at(lv, i + 1),
        None => spec_no_diff_at(lv, i),
    })
}

/// The line span a preamble at `i` takes: the header line and its
/// attribute run for the VCS flavor, one line for the generic flavor, and
/// none where neither header matches.
pub open spec fn spec_preamble_span(lv: Seq<Seq<char>>, i: int) -> int {
    if 0 <= i < lv.len() && spec_git_header(lv[i]) is Some {
        1 + spec_git_extras_run(lv, i + 1)
    } else if 0 <= i < lv.len() && spec_diff_header(lv[i]) is Some {
        1
    } else {
        0
    }
}

/// The dispatcher over the three dialects, tried in a fixed order.
pub struct DiffParser {
    pub context_diff_parser: ContextDiffParser,
    pub unified_diff_parser: UnifiedDiffParser,
    pub git_binary_diff_parser: GitBinaryDiffParser,
}

impl DiffParser {
    pub fn new() -> (r: DiffParser) {
        DiffParser {
            context_diff_parser: ContextDiffParser::new(),
            unified_diff_parser: UnifiedDiffParser::new(),
            git_binary_diff_parser: GitBinaryDiffParser::new(),
        }
    }

    /// Tries the dialects at `start_index` in order: unified, then binary,
    /// then context; the first success wins.
    pub fn get_diff_at(&self, lines: &[String], start_index: usize) -> (r: DiffParseResult<
        Option<Diff>,
    >)
        ensures
            ({
                let lv = lines.deep_view();
                match r {
                    Ok(Some(d)) => {
                        &&& spec_diff_wf(&d)
                        &&& 1 <= spec_diff_len(&d)
                        &&& start_index + spec_diff_len(&d) <= lv.len()
                        &&& spec_diff_lines(&d) =~= lv.subrange(
                            start_index as int,
                            start_index + spec_diff_len(&d),
                        )
                        &&& !(d is GitPreambleOnly)
                        &&& (d is Unified ==> start_index + 2 <= lv.len() && spec_file_data(
                            lv[start_index as int],
                            "--- "@,
                            false,
                        ) is Some)
                        &&& (d is GitBinary ==> (start_index + 2 > lv.len() || spec_file_data(
                            lv[start_index as int],
                            "--- "@,
                            false,
                        ) is None) && start_index < lv.len() && spec_bin_header(
                            lv[start_index as int],
                        ))
                        &&& (d is Context ==> (start_index + 2 > lv.len() || spec_file_data(
                            lv[start_index as int],
                            "--- "@,
                            false,
                        ) is None) && (start_index >= lv.len() || !spec_bin_header(
                            lv[start_index as int],
                        )) && start_index + 2 <= lv.len() && spec_file_data(
                            lv[start_index as int],
                            "*** "@,
                            true,
                        ) is Some)
                    },
                    Ok(None) => spec_no_diff_at(lv, start_index as int),
                    Err(_) => !spec_no_diff_at(lv, start_index as int),
                }
            }),
    {
        if let Some(result) = self.unified_diff_parser.get_diff_at(lines, start_index)? {
            proof {
                assert(result.lines_consumed as int == result.header.lines.deep_view().len()
                    + spec_hunks_lines(result.hunks.deep_view()).len());
            }
            return Ok(Some(Diff::Unified(result)));
        }
        if let Some(result) = self.git_binary_diff_parser.get_diff_at(lines, start_index)? {
            return Ok(Some(Diff::GitBinary(result)));
        }
        if let Some(result) = self.context_diff_parser.get_diff_at(lines, start_index)? {
            proof {
                assert(result.lines_consumed as int == result.header.lines.deep_view().len()
                    + spec_ctx_hunks_lines(result.hunks.deep_view()).len());
            }
            return Ok(Some(Diff::Context(result)));
        }
        Ok(None)
    }
}

/// A whole patch record: an optional preamble and a diff body.
#[derive(Debug)]
pub struct DiffPlus {
    pub preamble: Option<Preamble>,
    pub diff: Diff,
}

/// The record's verbatim lines: the preamble's, then the body's.
pub open spec fn spec_diff_plus_lines(dp: &DiffPlus) -> Seq<Seq<char>> {
    match dp.preamble {
        Some(p) => spec_preamble_lines(&p) + spec_diff_lines(&dp.diff),
        None => spec_diff_lines(&dp.diff),
    }
}

/// How many input lines the record's parse consumed: the preamble's line
/// count plus the body's.
pub open spec fn spec_diff_plus_len(dp: &DiffPlus) -> int {
    match dp.preamble {
        Some(p) => spec_preamble_lines(&p).len() + spec_diff_len(&dp.diff),
        None => spec_diff_len(&dp.diff),
    }
}

impl DiffPlus {
    /// The preamble line count plus the body line count.
    pub fn len(&self) -> (r: usize)
        requires
            spec_diff_plus_len(self) <= usize::MAX,
        ensures
            r as int == spec_diff_plus_len(self),
    {
        match &self.preamble {
            Some(p) => p.len() + self.diff.len(),
            None => self.diff.len(),
        }
    }

    pub fn preamble(&self) -> (r: &Option<Preamble>)
        ensures
            r == &self.preamble,
    {
        &self.preamble
    }

    pub fn diff(&self) -> (r: &Diff)
        ensures
            r == &self.diff,
    {
        &self.diff
    }

    /// The record's verbatim lines, collected into one vector.
    pub fn collect_lines(&self) -> (r: Lines)
        ensures
            r.deep_view() == spec_diff_plus_lines(self),
    {
        let mut out: Lines = Vec::new();
        match &self.preamble {
            Some(p) => {
                append_lines(&mut out, p.lines());
            },
            None => {},
        }
        let body = self.diff.collect_lines();
        append_lines(&mut out, &body);
        proof {
            assert(out.deep_view() =~= spec_diff_plus_lines(self));
        }
        out
    }

    /// A stable content hash over the record's lines: the preamble's first,
    /// then the body's, byte for byte.
    pub fn hash_digest(&self) -> (r: Vec<u8>)
        ensures
            r@ == sha256_of(spec_utf8_concat(spec_diff_plus_lines(self))),
    {
        let all = self.collect_lines();
        let bytes = lines_utf8(&all);
        sha256_digest(bytes.as_slice())
    }
}

/// The UTF-8 bytes of a line sequence, concatenated in order.
pub open spec fn spec_utf8_concat(ls: Seq<Seq<char>>) -> Seq<u8>
    decreases ls.len(),
{
    if ls.len() == 0 {
        Seq::empty()
    } else {
        vstd::utf8::encode_utf8(ls[0]) + spec_utf8_concat(ls.skip(1))
    }
}

/// Concatenates the UTF-8 bytes of every line.
#[verifier::loop_isolation(false)]
fn lines_utf8(lines: &Lines) -> (r: Vec<u8>)
    ensures
        r@ == spec_utf8_concat(lines.deep_view()),
{
    let ghost lv = lines.deep_view();
    let mut out: Vec<u8> = Vec::new();
    let mut k: usize = 0;
    proof {
        assert(lv.skip(0) =~= lv);
    }
    while k < lines.len()
        invariant
            k <= lines@.len(),
            spec_utf8_concat(lv) =~= out@ + spec_utf8_concat(lv.skip(k as int)),
        decreases lines@.len() - k,
    {
        let mut piece = lines[k].as_str().as_bytes_vec();
        proof {
            assert(lv.skip(k as int)[0] == lv[k as int]);
            assert(piece@ == vstd::utf8::encode_utf8(lv[k as int]));
            assert(lv.skip(k as int).skip(1) =~= lv.skip(k as int + 1));
        }
        let ghost out0 = out@;
        out.append(&mut piece);
        proof {
            assert(spec_utf8_concat(lv) =~= out@ + spec_utf8_concat(lv.skip(k as int + 1)));
        }
        k = k + 1;
    }
    proof {
        assert(spec_utf8_concat(lv.skip(k as int)) =~= Seq::<u8>::empty());
        assert(out@ =~= spec_utf8_concat(lv));
    }
    out
}

/// The SHA-256 digest of a byte stream.
pub uninterp spec fn sha256_of(data: Seq<u8>) -> Seq<u8>;

/// Relies on crypto_hash::digest with the SHA256 algorithm: a digest that
/// depends on the data alone.
#[verifier::external_body]
fn sha256_digest(data: &[u8]) -> (r: Vec<u8>)
    ensures
        r@ == sha256_of(data@),
{
    crypto_hash::digest(crypto_hash::Algorithm::SHA256, data)
}

/// Two patch records whose line streams agree hash alike: the digest is a
/// function of the lines alone, so it survives a round trip through the
/// parser, which hands the lines back verbatim.
pub proof fn lemma_digest_depends_on_lines_alone(a: &DiffPlus, b: &DiffPlus)
    requires
        spec_diff_plus_lines(a) == spec_diff_plus_lines(b),
    ensures
        sha256_of(spec_utf8_concat(spec_diff_plus_lines(a))) == sha256_of(
            spec_utf8_concat(spec_diff_plus_lines(b)),
        ),
{
}

/// The parser for whole patch records.
pub struct DiffPlusParser {
    pub preamble_parser: PreambleParser,
    pub diff_parser: DiffParser,
}

impl DiffPlusParser {
    pub fn new() -> (r: DiffPlusParser) {
        DiffPlusParser { preamble_parser: PreambleParser::new(), diff_parser: DiffParser::new() }
    }

    /// Reads one patch record at `start_index`: a preamble with a body, a
    /// body alone, or a VCS preamble standing alone.  The lines consumed
    /// are exactly the record's own.
    #[verifier::rlimit(60)]
    pub fn get_diff_plus_at(&self, lines: &[String], start_index: usize) -> (r: DiffParseResult<
        Option<DiffPlus>,
    >)
        ensures
            ({
                let lv = lines.deep_view();
                match r {
                    Ok(Some(dp)) => {
                        &&& 1 <= spec_diff_plus_len(&dp)
                        &&& start_index + spec_diff_plus_len(&dp) <= lv.len()
                        &&& spec_diff_plus_lines(&dp) =~= lv.subrange(
                            start_index as int,
                            start_index + spec_diff_plus_len(&dp),
                        )
                        &&& spec_diff_wf(&dp.diff)
                        &&& (match dp.preamble {
                            Some(Preamble::Git(g)) => start_index < lv.len() && spec_git_header(
                                lv[start_index as int],
                            ) == Some((g.ante_file_path@, g.post_file_path@)) && !(dp.diff
                                is GitPreambleOnly),
                            Some(Preamble::Diff(d)) => start_index < lv.len() && spec_git_header(
                                lv[start_index as int],
                            ) is None && spec_diff_header(lv[start_index as int]) == Some(
                                (d.ante_file_path@, d.post_file_path@),
                            ) && !(dp.diff is GitPreambleOnly),
                            None => true,
                        })
                        &&& (dp.diff is GitPreambleOnly ==> dp.preamble is None && start_index
                            < lv.len() && spec_git_header(lv[start_index as int]) is Some
                            && spec_no_diff_at(
                            lv,
                            start_index + spec_preamble_span(lv, start_index as int),
                        ))
                        &&& (dp.preamble is None && !(dp.diff is GitPreambleOnly)
                            ==> start_index >= lv.len() || (spec_git_header(
                            lv[start_index as int],
                        ) is None && spec_diff_header(lv[start_index as int]) is None))
                    },
                    Ok(None) => start_index >= lv.len() || spec_line_skippable(
                        lv,
                        start_index as int,
                    ),
                    Err(_) => !spec_no_diff_at(
                        lv,
                        start_index + spec_preamble_span(lv, start_index as int),
                    ),
                }
            }),
    {
        let ghost lv = lines.deep_view();
        match self.preamble_parser.get_preamble_at(lines, start_index) {
            Some(preamble) => {
                let nl = lines.len();
                let plen = preamble.len();
                proof {
                    assert(start_index + plen <= nl);
                }
                if let Some(diff) = self.diff_parser.get_diff_at(lines, start_index + plen)? {
                    let dp = DiffPlus { preamble: Some(preamble), diff };
                    proof {
                        assert(spec_diff_plus_lines(&dp) =~= lv.subrange(
                            start_index as int,
                            start_index + spec_diff_plus_len(&dp),
                        ));
                    }
                    Ok(Some(dp))
                } else if let Preamble::Git(git_preamble) = preamble {
                    let dp = DiffPlus { preamble: None, diff: Diff::GitPreambleOnly(git_preamble) };
                    proof {
                        assert(spec_diff_plus_lines(&dp) =~= lv.subrange(
                            start_index as int,
                            start_index + spec_diff_plus_len(&dp),
                        ));
                    }
                    Ok(Some(dp))
                } else {
                    Ok(None)
                }
            },
            None => {
                if let Some(diff) = self.diff_parser.get_diff_at(lines, start_index)? {
                    let dp = DiffPlus { preamble: None, diff };
                    proof {
                        assert(spec_diff_plus_lines(&dp) =~= lv.subrange(
                            start_index as int,
                            start_index + spec_diff_plus_len(&dp),
                        ));
                    }
                    Ok(Some(dp))
                } else {
                    Ok(None)
                }
            },
        }
    }

    /// Reads every patch record of a line stream, skipping one line at a
    /// time where none is recognized.  Each returned record's lines stand
    /// verbatim in the input, in order and without overlap.
    #[verifier::loop_isolation(false)]
    pub fn parse_lines(&self, lines: &[String]) -> (r: DiffParseResult<Vec<DiffPlus>>)
        ensures
            ({
                let lv = lines.deep_view();
                match r {
                    Ok(dps) => {
                        &&& (forall|k: int|
                            0 <= k < dps@.len() ==> spec_diff_wf(&(#[trigger] dps@[k]).diff))
                        &&& exists|ps: Seq<int>|
                            #![trigger ps.len()]
                            {
                                &&& ps.len() == dps@.len()
                                &&& (forall|k: int|
                                    0 <= k < dps@.len() ==> 0 <= #[trigger] ps[k] && ps[k]
                                        + spec_diff_plus_len(&dps@[k]) <= lv.len()
                                        && spec_diff_plus_lines(&dps@[k]) == lv.subrange(
                                        ps[k],
                                        ps[k] + spec_diff_plus_len(&dps@[k]),
                                    ))
                                &&& (forall|k: int|
                                    0 <= k && k + 1 < dps@.len() ==> #[trigger] ps[k]
                                        + spec_diff_plus_len(&dps@[k]) <= ps[k + 1])
                                &&& (forall|i: int|
                                    0 <= i < lv.len() && (forall|k: int|
                                        0 <= k < dps@.len() ==> !(#[trigger] ps[k] <= i < ps[k]
                                            + spec_diff_plus_len(&dps@[k]))) ==> #[trigger] spec_line_skippable(
                                        lv,
                                        i,
                                    ))
                            }
                    },
                    Err(_) => exists|i: int|
                        0 <= i < lv.len() && !spec_no_diff_at(
                            lv,
                            i + #[trigger] spec_preamble_span(lv, i),
                        ),
                }
            }),
    {
        let ghost lv = lines.deep_view();
        let mut diff_pluses: Vec<DiffPlus> = Vec::new();
        let ghost mut ps: Seq<int> = Seq::empty();
        let mut index: usize = 0;
        while index < lines.len()
            invariant
                index <= lines@.len(),
                ps.len() == diff_pluses@.len(),
                forall|k: int|
                    0 <= k < diff_pluses@.len() ==> spec_diff_wf(
                        &(#[trigger] diff_pluses@[k]).diff,
                    ),
                forall|k: int|
                    0 <= k < diff_pluses@.len() ==> 0 <= #[trigger] ps[k] && ps[k]
                        + spec_diff_plus_len(&diff_pluses@[k]) <= index
                        && spec_diff_plus_lines(&diff_pluses@[k]) == lv.subrange(
                        ps[k],
                        ps[k] + spec_diff_plus_len(&diff_pluses@[k]),
                    ),
                forall|k: int|
                    0 <= k && k + 1 < diff_pluses@.len() ==> #[trigger] ps[k]
                        + spec_diff_plus_len(&diff_pluses@[k]) <= ps[k + 1],
                forall|i: int|
                    0 <= i < index && (forall|k: int|
                        0 <= k < diff_pluses@.len() ==> !(#[trigger] ps[k] <= i < ps[k]
                            + spec_diff_plus_len(&diff_pluses@[k])))
                        ==> #[trigger] spec_line_skippable(lv, i),
            decreases lines@.len() - index,
        {
            let step = self.get_diff_plus_at(lines, index);
            let parsed = match step {
                Ok(o) => o,
                Err(e) => {
                    proof {
                        assert(0 <= index < lv.len() && !spec_no_diff_at(
                            lv,
                            index + spec_preamble_span(lv, index as int),
                        ));
                    }
                    return Err(e);
                },
            };
            match parsed {
                Some(diff_plus) => {
                    let dlen = diff_plus.len();
                    let ghost d0 = diff_pluses@;
                    let ghost ps0 = ps;
                    diff_pluses.push(diff_plus);
                    proof {
                        ps = ps.push(index as int);
                    }
                    index = index + dlen;
                    proof {
                        assert forall|k: int| 0 <= k < diff_pluses@.len() implies spec_diff_wf(
                            &(#[trigger] diff_pluses@[k]).diff,
                        ) by {
                            if k < d0.len() {
                                assert(diff_pluses@[k] == d0[k]);
                            }
                        }
                        assert forall|k: int| 0 <= k < diff_pluses@.len() implies 0 <= #[trigger] ps[
                            k
                        ] && ps[k] + spec_diff_plus_len(&diff_pluses@[k]) <= index
                            && spec_diff_plus_lines(&diff_pluses@[k]) == lv.subrange(
                            ps[k],
                            ps[k] + spec_diff_plus_len(&diff_pluses@[k]),
                        ) by {
                            if k < d0.len() {
                                assert(diff_pluses@[k] == d0[k]);
                                assert(ps[k] == ps0[k]);
                            } else {
                                assert(diff_pluses@[k] == diff_pluses@.last());
                                assert(ps[k] == index - dlen);
                            }
                        }
                        assert forall|k: int| 0 <= k && k + 1 < diff_pluses@.len() implies #[trigger] ps[
                            k
                        ] + spec_diff_plus_len(&diff_pluses@[k]) <= ps[k + 1] by {
                            assert(diff_pluses@[k] == d0[k]);
                            assert(ps[k] == ps0[k]);
                            if k + 1 < d0.len() {
                                assert(ps[k + 1] == ps0[k + 1]);
                            } else {
                                assert(ps[k + 1] == index - dlen);
                            }
                        }
                        assert forall|i: int|
                            0 <= i < index && (forall|k: int|
                                0 <= k < diff_pluses@.len() ==> !(#[trigger] ps[k] <= i < ps[k]
                                    + spec_diff_plus_len(&diff_pluses@[k])))
                            implies #[trigger] spec_line_skippable(lv, i) by {
                            // the line lies before the new record, so it lay
                            // outside every earlier record too
                            assert(ps[d0.len() as int] == index - dlen);
                            assert(!(ps[d0.len() as int] <= i < ps[d0.len() as int]
                                + spec_diff_plus_len(&diff_pluses@[d0.len() as int])));
                            assert(i < index - dlen);
                            assert forall|k: int| 0 <= k < d0.len() implies !(#[trigger] ps0[k] <= i
                                < ps0[k] + spec_diff_plus_len(&d0[k])) by {
                                assert(ps[k] == ps0[k]);
                                assert(diff_pluses@[k] == d0[k]);
                                assert(!(ps[k] <= i < ps[k] + spec_diff_plus_len(
                                    &diff_pluses@[k],
                                )));
                            }
                        }
                    }
                },
                None => {
                    proof {
                        assert(spec_line_skippable(lv, index as int));
                        assert forall|i: int|
                            0 <= i < index + 1 && (forall|k: int|
                                0 <= k < diff_pluses@.len() ==> !(#[trigger] ps[k] <= i < ps[k]
                                    + spec_diff_plus_len(&diff_pluses@[k])))
                            implies #[trigger] spec_line_skippable(lv, i) by {}
                    }
                    index = index + 1;
                },
            }
        }
        Ok(diff_pluses)
    }
}

} // verus!
