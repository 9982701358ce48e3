//! The preamble parsers: the VCS-flavored `diff --git` header with its
//! attribute lines, and the generic `diff <options> <path> <path>` header.

use vstd::prelude::*;
use vstd::string::StrSliceExecFns;

use crate::lines::Lines;
use crate::scan::{
    all_digits_in, chars_of, is_hex_digit, is_ws, match_at, parse_path,
    path_stripped_of_n_levels, skip_ws, spec_all_digits, spec_is_hex_digit, spec_is_ws,
    spec_match_at, spec_parse_path, spec_run_end, spec_strip_at, str_eq, string_from_range,
};

verus! {

/// The index of the line's content end: its length, less a final newline.
pub open spec fn spec_content_end(s: Seq<char>) -> int {
    if s.len() > 0 && s[s.len() - 1] == '\n' {
        s.len() - 1
    } else {
        s.len() as int
    }
}

fn content_end(cv: &Vec<char>) -> (r: usize)
    ensures
        r as int == spec_content_end(cv@),
        r <= cv@.len(),
{
    let n = cv.len();
    if n > 0 && cv[n - 1] == '\n' {
        n - 1
    } else {
        n
    }
}

// ---- the VCS-flavored header ----

/// `diff ws+ --git ws+ PATH ws+ PATH`, then nothing but an optional final
/// newline.  Yields the two extracted paths.
pub open spec fn spec_git_header(s: Seq<char>) -> Option<(Seq<char>, Seq<char>)> {
    if !spec_match_at(s, 0, "diff"@) {
        None
    } else {
        let w1 = spec_run_end(s, 4, |c: char| spec_is_ws(c));
        if w1 <= 4 {
            None
        } else if !spec_match_at(s, w1, "--git"@) {
            None
        } else {
            let w2 = spec_run_end(s, w1 + 5, |c: char| spec_is_ws(c));
            if w2 <= w1 + 5 {
                None
            } else {
                match spec_parse_path(s, w2) {
                    None => None,
                    Some((p1, e1)) => {
                        let w3 = spec_run_end(s, e1, |c: char| spec_is_ws(c));
                        if w3 <= e1 {
                            None
                        } else {
                            match spec_parse_path(s, w3) {
                                None => None,
                                Some((p2, e2)) => {
                                    if e2 == s.len() || (e2 == s.len() - 1 && s[e2] == '\n') {
                                        Some((p1, p2))
                                    } else {
                                        None
                                    }
                                },
                            }
                        }
                    },
                }
            }
        }
    }
}

/// Reads a `diff --git` header line.
#[verifier::loop_isolation(false)]
fn parse_git_header(cv: &Vec<char>) -> (r: Option<(String, String)>)
    ensures
        match r {
            Some((a, p)) => spec_git_header(cv@) == Some((a@, p@)),
            None => spec_git_header(cv@) is None,
        },
{
    let n = cv.len();
    proof {
        reveal_strlit("diff");
        reveal_strlit("--git");
    }
    if !match_at(cv, 0, "diff") {
        return None;
    }
    let w1 = skip_ws(cv, 4);
    if w1 <= 4 {
        return None;
    }
    if !match_at(cv, w1, "--git") {
        return None;
    }
    let w2 = skip_ws(cv, w1 + 5);
    if w2 <= w1 + 5 {
        return None;
    }
    let (p1, e1) = match parse_path(cv, w2) {
        Some(q) => q,
        None => {
            return None;
        },
    };
    let w3 = skip_ws(cv, e1);
    if w3 <= e1 {
        return None;
    }
    let (p2, e2) = match parse_path(cv, w3) {
        Some(q) => q,
        None => {
            return None;
        },
    };
    if e2 == n || (e2 == n - 1 && cv[e2] == '\n') {
        Some((p1, p2))
    } else {
        None
    }
}

// ---- the attribute lines a VCS preamble absorbs ----

/// The attribute names a VCS preamble can carry.
#[derive(Debug, Clone, Copy, PartialEq, Eq, Structural)]
pub enum PreambleLabel {
    OldMode,
    NewMode,
    DeletedFileMode,
    NewFileMode,
    SimilarityIndex,
    DissimilarityIndex,
    IndexLine,
    CopyFrom,
    CopyTo,
    RenameFrom,
    RenameTo,
}

/// The keyword an attribute line opens with.
pub open spec fn spec_label_keyword(l: PreambleLabel) -> Seq<char> {
    match l {
        PreambleLabel::OldMode => "old mode"@,
        PreambleLabel::NewMode => "new mode"@,
        PreambleLabel::DeletedFileMode => "deleted file mode"@,
        PreambleLabel::NewFileMode => "new file mode"@,
        PreambleLabel::SimilarityIndex => "similarity index"@,
        PreambleLabel::DissimilarityIndex => "dissimilarity index"@,
        PreambleLabel::IndexLine => "index"@,
        PreambleLabel::CopyFrom => "copy from"@,
        PreambleLabel::CopyTo => "copy to"@,
        PreambleLabel::RenameFrom => "rename from"@,
        PreambleLabel::RenameTo => "rename to"@,
    }
}

pub fn label_keyword(l: PreambleLabel) -> (r: &'static str)
    ensures
        r@ == spec_label_keyword(l),
{
    match l {
        PreambleLabel::OldMode => "old mode",
        PreambleLabel::NewMode => "new mode",
        PreambleLabel::DeletedFileMode => "deleted file mode",
        PreambleLabel::NewFileMode => "new file mode",
        PreambleLabel::SimilarityIndex => "similarity index",
        PreambleLabel::DissimilarityIndex => "dissimilarity index",
        PreambleLabel::IndexLine => "index",
        PreambleLabel::CopyFrom => "copy from",
        PreambleLabel::CopyTo => "copy to",
        PreambleLabel::RenameFrom => "rename from",
        PreambleLabel::RenameTo => "rename to",
    }
}

/// The body shapes the attribute patterns use.
pub open spec fn spec_mode_body(s: Seq<char>, w: int, e: int) -> bool {
    spec_all_digits(s, w, e)
}

pub open spec fn spec_percent_body(s: Seq<char>, w: int, e: int) -> bool {
    w < e && s[e - 1] == '%' && spec_all_digits(s, w, e - 1)
}

pub open spec fn spec_all_hex(s: Seq<char>, i: int, j: int) -> bool {
    forall|k: int| i <= k < j ==> spec_is_hex_digit(s[k])
}

/// `hex+..hex+( \d*)?`, the body of an `index` line.
pub open spec fn spec_index_body(s: Seq<char>, w: int, e: int) -> bool {
    exists|h1: int, h3: int|
        #![trigger spec_all_hex(s, w, h1), spec_all_hex(s, h1 + 2, h3)]
        {
            &&& w < h1
            &&& h1 + 2 <= h3 <= e
            &&& spec_all_hex(s, w, h1)
            &&& spec_match_at(s, h1, ".."@)
            &&& h1 + 2 < h3
            &&& spec_all_hex(s, h1 + 2, h3)
            &&& (h3 == e || (h3 < e && s[h3] == ' ' && spec_all_digits(s, h3 + 1, e)))
        }
}

pub open spec fn spec_path_body(s: Seq<char>, w: int, e: int) -> bool {
    match spec_parse_path(s, w) {
        Some((p, e2)) => e2 == e,
        None => false,
    }
}

/// Does the label's pattern accept the line body `s[w..e)`?
pub open spec fn spec_label_body(l: PreambleLabel, s: Seq<char>, w: int, e: int) -> bool {
    match l {
        PreambleLabel::OldMode => spec_mode_body(s, w, e),
        PreambleLabel::NewMode => spec_mode_body(s, w, e),
        PreambleLabel::DeletedFileMode => spec_mode_body(s, w, e),
        PreambleLabel::NewFileMode => spec_mode_body(s, w, e),
        PreambleLabel::SimilarityIndex => spec_percent_body(s, w, e),
        PreambleLabel::DissimilarityIndex => spec_percent_body(s, w, e),
        PreambleLabel::IndexLine => spec_index_body(s, w, e),
        PreambleLabel::CopyFrom => spec_path_body(s, w, e),
        PreambleLabel::CopyTo => spec_path_body(s, w, e),
        PreambleLabel::RenameFrom => spec_path_body(s, w, e),
        PreambleLabel::RenameTo => spec_path_body(s, w, e),
    }
}

/// Does the line match the label's whole pattern
/// `^keyword ws+ body (\n)?$`?  Yields the body's span.
pub open spec fn spec_label_match(l: PreambleLabel, s: Seq<char>) -> Option<(int, int)> {
    let kw = spec_label_keyword(l);
    if !spec_match_at(s, 0, kw) {
        None
    } else {
        let w = spec_run_end(s, kw.len() as int, |c: char| spec_is_ws(c) && c != '\n');
        if w <= kw.len() {
            None
        } else {
            let e = spec_content_end(s);
            if w <= e && spec_label_body(l, s, w, e) {
                Some((w, e))
            } else {
                None
            }
        }
    }
}

/// The first label, in the fixed pattern order, whose pattern accepts the
/// line, with the value it extracts.
pub open spec fn spec_git_extra(s: Seq<char>) -> Option<(PreambleLabel, Seq<char>)> {
    spec_git_extra_from(s, 0)
}

pub open spec fn spec_label_order(k: int) -> PreambleLabel {
    if k == 0 {
        PreambleLabel::OldMode
    } else if k == 1 {
        PreambleLabel::NewMode
    } else if k == 2 {
        PreambleLabel::DeletedFileMode
    } else if k == 3 {
        PreambleLabel::NewFileMode
    } else if k == 4 {
        PreambleLabel::SimilarityIndex
    } else if k == 5 {
        PreambleLabel::DissimilarityIndex
    } else if k == 6 {
        PreambleLabel::IndexLine
    } else if k == 7 {
        PreambleLabel::CopyFrom
    } else if k == 8 {
        PreambleLabel::CopyTo
    } else if k == 9 {
        PreambleLabel::RenameFrom
    } else {
        PreambleLabel::RenameTo
    }
}

/// How many consecutive lines from `i` on carry an absorbable attribute.
pub open spec fn spec_git_extras_run(lv: Seq<Seq<char>>, i: int) -> int
    decreases lv.len() - i,
{
    if i < 0 || i >= lv.len() || spec_git_extra(lv[i]) is None {
        0
    } else {
        1 + spec_git_extras_run(lv, i + 1)
    }
}

pub open spec fn spec_git_extra_from(s: Seq<char>, k: int) -> Option<(PreambleLabel, Seq<char>)>
    decreases 11 - k,
{
    if k < 0 || k >= 11 {
        None
    } else {
        let l = spec_label_order(k);
        match spec_label_match(l, s) {
            Some((w, e)) => Some((l, s.subrange(w, e))),
            None => spec_git_extra_from(s, k + 1),
        }
    }
}

/// First index at or past `i` that is not inline white space.
#[verifier::loop_isolation(false)]
fn inline_ws_end(cv: &Vec<char>, i: usize) -> (r: usize)
    requires
        i <= cv@.len(),
    ensures
        r == spec_run_end(cv@, i as int, |c: char| spec_is_ws(c) && c != '\n'),
        i <= r <= cv@.len(),
{
    let ghost pred = |c: char| spec_is_ws(c) && c != '\n';
    let mut j = i;
    while j < cv.len() && is_ws(cv[j]) && cv[j] != '\n'
        invariant
            i <= j <= cv@.len(),
            spec_run_end(cv@, i as int, pred) == spec_run_end(cv@, j as int, pred),
        decreases cv@.len() - j,
    {
        j = j + 1;
    }
    j
}

/// Are all of `cv[i..j)` hexadecimal digits?
#[verifier::loop_isolation(false)]
fn all_hex_in(cv: &Vec<char>, i: usize, j: usize) -> (r: bool)
    requires
        i <= j <= cv@.len(),
    ensures
        r == spec_all_hex(cv@, i as int, j as int),
{
    let mut k = i;
    while k < j
        invariant
            i <= k <= j,
            forall|m: int| i <= m < k ==> spec_is_hex_digit(cv@[m]),
        decreases j - k,
    {
        if !is_hex_digit(cv[k]) {
            return false;
        }
        k = k + 1;
    }
    true
}

/// First index at or past `i` that is not a hexadecimal digit.
#[verifier::loop_isolation(false)]
fn hex_end(cv: &Vec<char>, i: usize) -> (r: usize)
    requires
        i <= cv@.len(),
    ensures
        i <= r <= cv@.len(),
        spec_all_hex(cv@, i as int, r as int),
        r < cv@.len() ==> !spec_is_hex_digit(cv@[r as int]),
{
    let mut j = i;
    while j < cv.len() && is_hex_digit(cv[j])
        invariant
            i <= j <= cv@.len(),
            forall|m: int| i <= m < j ==> spec_is_hex_digit(cv@[m]),
        decreases cv@.len() - j,
    {
        j = j + 1;
    }
    j
}

/// Does the body of an `index` line stand at `cv[w..e)`?
#[verifier::loop_isolation(false)]
#[verifier::rlimit(100)]
fn check_index_body(cv: &Vec<char>, w: usize, e: usize) -> (r: bool)
    requires
        w <= e <= cv@.len(),
    ensures
        r == spec_index_body(cv@, w as int, e as int),
{
    proof {
        reveal_strlit("..");
    }
    let h1 = hex_end(cv, w);
    let h3_raw = if h1 < e && cv.len() - h1 >= 2 {
        hex_end(cv, h1 + 2)
    } else {
        h1
    };
    let h3c = if h3_raw > e {
        e
    } else {
        h3_raw
    };
    let shape_ok = h1 > w && h1 < e && match_at(cv, h1, "..") && h3c > h1 + 2 && (h3c == e || (
    cv[h3c] == ' ' && all_digits_in(cv, h3c + 1, e)));
    proof {
        reveal_strlit("..");
        if shape_ok {
            assert(spec_all_hex(cv@, h1 as int + 2, h3c as int));
            assert(spec_index_body(cv@, w as int, e as int));
        } else {
            assert forall|h1x: int, h3x: int|
                #![trigger spec_all_hex(cv@, w as int, h1x), spec_all_hex(cv@, h1x + 2, h3x)]
                !(w < h1x && h1x + 2 <= h3x <= e && spec_all_hex(cv@, w as int, h1x)
                    && spec_match_at(cv@, h1x, ".."@) && h1x + 2 < h3x && spec_all_hex(
                    cv@,
                    h1x + 2,
                    h3x,
                ) && (h3x == e || (h3x < e && cv@[h3x] == ' ' && spec_all_digits(
                    cv@,
                    h3x + 1,
                    e as int,
                )))) by {
                reveal_strlit("..");
                if w < h1x && h1x + 2 <= h3x <= e && spec_all_hex(cv@, w as int, h1x)
                    && spec_match_at(cv@, h1x, ".."@) && h1x + 2 < h3x && spec_all_hex(
                    cv@,
                    h1x + 2,
                    h3x,
                ) {
                    assert(cv@[h1x] == ".."@[0]);
                    assert(cv@[h1x] == '.');
                    assert(!spec_is_hex_digit('.'));
                    if h1x < h1 {
                        assert(spec_is_hex_digit(cv@[h1x]));
                        assert(false);
                    }
                    if h1x > h1 {
                        assert(h1 < cv@.len());
                        assert(spec_is_hex_digit(cv@[h1 as int]));
                        assert(false);
                    }
                    assert(h1x == h1);
                    assert(h1 > w && h1 < e);
                    assert(h1 + 2 <= cv@.len());
                    assert(spec_match_at(cv@, h1 as int, ".."@));
                    // h3x must be within the hex run that follows the dots
                    if h3x > h3c {
                        if h3_raw > e {
                            assert(h3c == e);
                            assert(false);
                        } else {
                            assert(h3c == h3_raw);
                            assert(h3_raw < cv@.len());
                            assert(!spec_is_hex_digit(cv@[h3_raw as int]));
                            assert(spec_is_hex_digit(cv@[h3_raw as int]));
                            assert(false);
                        }
                    }
                    if h3x < h3c {
                        assert(h3c <= h3_raw);
                        assert(spec_is_hex_digit(cv@[h3x]));
                        assert(h3x < e);
                        assert(cv@[h3x] != ' ');
                        assert(!(h3x == e || (h3x < e && cv@[h3x] == ' ' && spec_all_digits(
                            cv@,
                            h3x + 1,
                            e as int,
                        ))));
                    } else if h3x == h3c {
                        assert(h3c > h1 + 2);
                        assert(!(h3c == e || (cv@[h3c as int] == ' ' && spec_all_digits(
                            cv@,
                            h3c + 1,
                            e as int,
                        ))));
                    }
                }
            }
        }
    }
    shape_ok
}

/// Reads the attribute an absorbable line carries.
#[verifier::loop_isolation(false)]
fn check_extra(cv: &Vec<char>) -> (r: Option<(PreambleLabel, String)>)
    ensures
        match r {
            Some((l, v)) => spec_git_extra(cv@) == Some((l, v@)),
            None => spec_git_extra(cv@) is None,
        },
{
    let mut k: usize = 0;
    while k < 11
        invariant
            k <= 11,
            spec_git_extra(cv@) == spec_git_extra_from(cv@, k as int),
        decreases 11 - k,
    {
        let label = if k == 0 {
            PreambleLabel::OldMode
        } else if k == 1 {
            PreambleLabel::NewMode
        } else if k == 2 {
            PreambleLabel::DeletedFileMode
        } else if k == 3 {
            PreambleLabel::NewFileMode
        } else if k == 4 {
            PreambleLabel::SimilarityIndex
        } else if k == 5 {
            PreambleLabel::DissimilarityIndex
        } else if k == 6 {
            PreambleLabel::IndexLine
        } else if k == 7 {
            PreambleLabel::CopyFrom
        } else if k == 8 {
            PreambleLabel::CopyTo
        } else if k == 9 {
            PreambleLabel::RenameFrom
        } else {
            PreambleLabel::RenameTo
        };
        proof {
            assert(label == spec_label_order(k as int));
        }
        match check_label(cv, label) {
            Some(v) => {
                return Some((label, v));
            },
            None => {},
        }
        k = k + 1;
    }
    None
}

/// Does the line match one label's pattern?  Yields the extracted value.
#[verifier::loop_isolation(false)]
fn check_label(cv: &Vec<char>, label: PreambleLabel) -> (r: Option<String>)
    ensures
        match r {
            Some(v) => (match spec_label_match(label, cv@) {
                Some((w, e)) => v@ == cv@.subrange(w, e),
                None => false,
            }),
            None => spec_label_match(label, cv@) is None,
        },
{
    let kw = label_keyword(label);
    if !match_at(cv, 0, kw) {
        return None;
    }
    let klen = kw.unicode_len();
    proof {
        assert(klen <= cv@.len());
    }
    let w = inline_ws_end(cv, klen);
    if w <= klen {
        return None;
    }
    let e = content_end(cv);
    if w > e {
        return None;
    }
    let body_ok = match label {
        PreambleLabel::OldMode => all_digits_in(cv, w, e),
        PreambleLabel::NewMode => all_digits_in(cv, w, e),
        PreambleLabel::DeletedFileMode => all_digits_in(cv, w, e),
        PreambleLabel::NewFileMode => all_digits_in(cv, w, e),
        PreambleLabel::SimilarityIndex => w < e && {
            let pc = cv[e - 1];
            pc == '%' && all_digits_in(cv, w, e - 1)
        },
        PreambleLabel::DissimilarityIndex => w < e && {
            let pc = cv[e - 1];
            pc == '%' && all_digits_in(cv, w, e - 1)
        },
        PreambleLabel::IndexLine => check_index_body(cv, w, e),
        PreambleLabel::CopyFrom => check_path_body(cv, w, e),
        PreambleLabel::CopyTo => check_path_body(cv, w, e),
        PreambleLabel::RenameFrom => check_path_body(cv, w, e),
        PreambleLabel::RenameTo => check_path_body(cv, w, e),
    };
    if body_ok {
        Some(string_from_range(cv, w, e))
    } else {
        None
    }
}

fn check_path_body(cv: &Vec<char>, w: usize, e: usize) -> (r: bool)
    requires
        w <= e <= cv@.len(),
    ensures
        r == spec_path_body(cv@, w as int, e as int),
{
    match parse_path(cv, w) {
        Some((p, e2)) => e2 == e,
        None => false,
    }
}

// ---- the VCS-flavored preamble ----

/// One absorbed attribute line: its name, value, and line offset within
/// the preamble.
#[derive(Debug, Clone)]
pub struct PreambleExtra {
    pub label: PreambleLabel,
    pub value: String,
    pub line_offset: usize,
}

pub struct ExtraView {
    pub label: PreambleLabel,
    pub value: Seq<char>,
    pub line_offset: int,
}

impl View for PreambleExtra {
    type V = ExtraView;

    open spec fn view(&self) -> ExtraView {
        ExtraView {
            label: self.label,
            value: self.value@,
            line_offset: self.line_offset as int,
        }
    }
}

impl DeepView for PreambleExtra {
    type V = ExtraView;

    open spec fn deep_view(&self) -> ExtraView {
        self@
    }
}

/// The value of the last extra that carries `label`, searched from the
/// back: a later absorbed line overrides an earlier one of the same name.
pub open spec fn spec_find_extra(es: Seq<ExtraView>, label: PreambleLabel) -> Option<ExtraView>
    decreases es.len(),
{
    if es.len() == 0 {
        None
    } else if es.last().label == label {
        Some(es.last())
    } else {
        spec_find_extra(es.drop_last(), label)
    }
}

/// A recognized VCS-flavored preamble: its verbatim lines, the two paths of
/// its header, and the absorbed attribute lines.
#[derive(Debug)]
pub struct GitPreamble {
    pub lines: Lines,
    pub ante_file_path: String,
    pub post_file_path: String,
    pub extras: Vec<PreambleExtra>,
}

impl GitPreamble {
    pub fn len(&self) -> (r: usize)
        ensures
            r == self.lines@.len(),
    {
        self.lines.len()
    }

    pub fn is_empty(&self) -> (r: bool)
        ensures
            r == (self.lines@.len() == 0),
    {
        self.lines.len() == 0
    }

    pub fn ante_file_path_as_str(&self) -> (r: &str)
        ensures
            r@ == self.ante_file_path@,
    {
        self.ante_file_path.as_str()
    }

    pub fn post_file_path_as_str(&self) -> (r: &str)
        ensures
            r@ == self.post_file_path@,
    {
        self.post_file_path.as_str()
    }

    pub fn get_ante_file_path(&self, strip_level: usize) -> (r: String)
        ensures
            r@ == spec_strip_at(self.ante_file_path@, 0, strip_level as int),
    {
        path_stripped_of_n_levels(self.ante_file_path.as_str(), strip_level)
    }

    pub fn get_post_file_path(&self, strip_level: usize) -> (r: String)
        ensures
            r@ == spec_strip_at(self.post_file_path@, 0, strip_level as int),
    {
        path_stripped_of_n_levels(self.post_file_path.as_str(), strip_level)
    }

    /// The post path, or the ante path when the post side is `/dev/null`.
    pub fn get_file_path(&self, strip_level: usize) -> (r: String)
        ensures
            r@ == spec_strip_at(
                if self.post_file_path@ == "/dev/null"@ {
                    self.ante_file_path@
                } else {
                    self.post_file_path@
                },
                0,
                strip_level as int,
            ),
    {
        if str_eq(self.post_file_path.as_str(), "/dev/null") {
            self.get_ante_file_path(strip_level)
        } else {
            self.get_post_file_path(strip_level)
        }
    }

    /// The value of the named attribute, if an absorbed line carries it; a
    /// later line overrides an earlier one of the same name.
    #[verifier::loop_isolation(false)]
    pub fn get_extra(&self, name: &str) -> (r: Option<&str>)
        ensures
            ({
                let found = spec_find_extra_by_name(self.extras.deep_view(), name@);
                match r {
                    Some(v) => (match found {
                        Some(ev) => v@ == ev.value,
                        None => false,
                    }),
                    None => found is None,
                }
            }),
    {
        let ghost es = self.extras.deep_view();
        let mut k = self.extras.len();
        proof {
            assert(es.take(k as int) =~= es);
        }
        while k > 0
            invariant
                k <= self.extras@.len(),
                es == self.extras.deep_view(),
                spec_find_extra_by_name(es, name@) == spec_find_extra_by_name(
                    es.take(k as int),
                    name@,
                ),
            decreases k,
        {
            k = k - 1;
            proof {
                assert(self.extras.deep_view()[k as int] == self.extras@[k as int]@);
                assert(es.take(k as int + 1).last() == es[k as int]);
                assert(es.take(k as int + 1).drop_last() =~= es.take(k as int));
            }
            if str_eq(label_keyword(self.extras[k].label), name) {
                return Some(self.extras[k].value.as_str());
            }
        }
        proof {
            assert(es.take(0) =~= Seq::<ExtraView>::empty());
        }
        None
    }

    /// The line offset (within the preamble) of the named attribute.
    #[verifier::loop_isolation(false)]
    pub fn get_extra_line_index(&self, name: &str) -> (r: Option<usize>)
        ensures
            ({
                let found = spec_find_extra_by_name(self.extras.deep_view(), name@);
                match r {
                    Some(v) => (match found {
                        Some(ev) => v as int == ev.line_offset,
                        None => false,
                    }),
                    None => found is None,
                }
            }),
    {
        let ghost es = self.extras.deep_view();
        let mut k = self.extras.len();
        proof {
            assert(es.take(k as int) =~= es);
        }
        while k > 0
            invariant
                k <= self.extras@.len(),
                es == self.extras.deep_view(),
                spec_find_extra_by_name(es, name@) == spec_find_extra_by_name(
                    es.take(k as int),
                    name@,
                ),
            decreases k,
        {
            k = k - 1;
            proof {
                assert(self.extras.deep_view()[k as int] == self.extras@[k as int]@);
                assert(es.take(k as int + 1).last() == es[k as int]);
                assert(es.take(k as int + 1).drop_last() =~= es.take(k as int));
            }
            if str_eq(label_keyword(self.extras[k].label), name) {
                return Some(self.extras[k].line_offset);
            }
        }
        proof {
            assert(es.take(0) =~= Seq::<ExtraView>::empty());
        }
        None
    }

    pub fn iter_extras(&self) -> (r: &Vec<PreambleExtra>)
        ensures
            r == &self.extras,
    {
        &self.extras
    }
}

/// The last extra whose label's keyword spells `name`.
pub open spec fn spec_find_extra_by_name(es: Seq<ExtraView>, name: Seq<char>) -> Option<ExtraView>
    decreases es.len(),
{
    if es.len() == 0 {
        None
    } else if spec_label_keyword(es.last().label) == name {
        Some(es.last())
    } else {
        spec_find_extra_by_name(es.drop_last(), name)
    }
}

/// The parser for the VCS-flavored preamble.
pub struct GitPreambleParser {}

impl GitPreambleParser {
    pub fn new() -> (r: GitPreambleParser) {
        GitPreambleParser {  }
    }

    /// Recognizes a VCS preamble at `start_index`: the `diff --git` header
    /// line, then every contiguous attribute line after it.
    #[verifier::loop_isolation(false)]
    pub fn get_preamble_at(&self, lines: &[String], start_index: usize) -> (r: Option<GitPreamble>)
        ensures
            ({
                let lv = lines.deep_view();
                match r {
                    Some(p) => {
                        &&& start_index < lv.len()
                        &&& spec_git_header(lv[start_index as int]) == Some(
                            (p.ante_file_path@, p.post_file_path@),
                        )
                        &&& p.lines@.len() == 1 + p.extras@.len()
                        &&& start_index + p.lines@.len() <= lv.len()
                        &&& p.lines.deep_view() =~= lv.subrange(
                            start_index as int,
                            start_index + p.lines@.len(),
                        )
                        &&& (forall|k: int|
                            0 <= k < p.extras@.len() ==> {
                                let ev = #[trigger] p.extras.deep_view()[k];
                                &&& ev.line_offset == k + 1
                                &&& spec_git_extra(lv[start_index + 1 + k]) == Some(
                                    (ev.label, ev.value),
                                )
                            })
                        &&& (start_index + p.lines@.len() == lv.len() || spec_git_extra(
                            lv[start_index + p.lines@.len()],
                        ) is None)
                        &&& p.lines@.len() == 1 + spec_git_extras_run(lv, start_index + 1)
                    },
                    None => start_index >= lv.len() || spec_git_header(lv[start_index as int])
                        is None,
                }
            }),
    {
        let ghost lv = lines.deep_view();
        if start_index >= lines.len() {
            return None;
        }
        let cv = chars_of(lines[start_index].as_str());
        proof {
            assert(cv@ == lv[start_index as int]);
        }
        let (ante_file_path, post_file_path) = match parse_git_header(&cv) {
            Some(q) => q,
            None => {
                return None;
            },
        };
        let mut extras: Vec<PreambleExtra> = Vec::new();
        let mut i = start_index + 1;
        loop
            invariant
                start_index + 1 <= i <= lv.len(),
                extras@.len() == i - start_index - 1,
                spec_git_extras_run(lv, start_index + 1) == (i - start_index - 1)
                    + spec_git_extras_run(lv, i as int),
                forall|k: int|
                    0 <= k < extras@.len() ==> {
                        let ev = #[trigger] extras.deep_view()[k];
                        &&& ev.line_offset == k + 1
                        &&& spec_git_extra(lv[start_index + 1 + k]) == Some((ev.label, ev.value))
                    },
            decreases lv.len() - i,
        {
            if i >= lines.len() {
                break ;
            }
            let ecv = chars_of(lines[i].as_str());
            proof {
                assert(ecv@ == lv[i as int]);
            }
            match check_extra(&ecv) {
                Some((label, value)) => {
                    let ghost e0 = extras.deep_view();
                    extras.push(
                        PreambleExtra { label, value, line_offset: i - start_index },
                    );
                    proof {
                        assert forall|k: int| 0 <= k < extras@.len() implies {
                            let ev = #[trigger] extras.deep_view()[k];
                            &&& ev.line_offset == k + 1
                            &&& spec_git_extra(lv[start_index + 1 + k]) == Some(
                                (ev.label, ev.value),
                            )
                        } by {
                            assert(extras.deep_view()[k] == extras@[k]@);
                            if k < e0.len() {
                                assert(e0[k] == extras.deep_view()[k]);
                            }
                        }
                    }
                    i = i + 1;
                },
                None => {
                    break ;
                },
            }
        }
        let mut pl: Lines = Vec::new();
        let mut k = start_index;
        while k < i
            invariant
                start_index <= k <= i <= lv.len(),
                pl.deep_view() =~= lv.subrange(start_index as int, k as int),
            decreases i - k,
        {
            pl.push(lines[k].clone());
            k = k + 1;
            proof {
                assert(pl.deep_view() =~= lv.subrange(start_index as int, k as int));
            }
        }
        Some(GitPreamble { lines: pl, ante_file_path, post_file_path, extras })
    }
}

// ---- the generic preamble ----

/// The start of the white-space run that ends just before `e`.
pub open spec fn spec_rws(s: Seq<char>, e: int) -> int
    decreases e,
{
    if e <= 0 || e > s.len() || !spec_is_ws(s[e - 1]) {
        e
    } else {
        spec_rws(s, e - 1)
    }
}

/// The start of the non-white-space run that ends just before `e`.
pub open spec fn spec_rrun(s: Seq<char>, e: int) -> int
    decreases e,
{
    if e <= 0 || e > s.len() || spec_is_ws(s[e - 1]) {
        e
    } else {
        spec_rrun(s, e - 1)
    }
}

/// The nearest `"` at or before `from`.
pub open spec fn spec_rfind_quote(s: Seq<char>, from: int) -> Option<int>
    decreases from + 1,
{
    if from < 0 || from >= s.len() {
        None
    } else if s[from] == '"' {
        Some(from)
    } else {
        spec_rfind_quote(s, from - 1)
    }
}

/// The path token that ends just before `e`: a quoted span when one closes
/// there, else a white-space-free run.  Returns the path's value and the
/// token's start.
pub open spec fn spec_rtoken(s: Seq<char>, e: int) -> Option<(Seq<char>, int)> {
    if e <= 0 || e > s.len() {
        None
    } else if s[e - 1] == '"' && (match spec_rfind_quote(s, e - 2) {
        Some(j) => j < e - 2,
        None => false,
    }) {
        let j = spec_rfind_quote(s, e - 2)->Some_0;
        Some((s.subrange(j + 1, e - 1), j))
    } else {
        let j = spec_rrun(s, e);
        if j < e {
            Some((s.subrange(j, e), j))
        } else {
            None
        }
    }
}

/// Does `t` stand anywhere in `s[i..j)`?
pub open spec fn spec_contains_in(s: Seq<char>, i: int, j: int, t: Seq<char>) -> bool {
    exists|p: int| i <= p && p + t.len() <= j && #[trigger] spec_match_at(s, p, t)
}

/// `diff <options> <path> <path>`: the header of a generic preamble.  The
/// two paths are the line's last two tokens; at least two characters of
/// options stand between `diff` and them, and those options do not spell
/// `--git`.
pub open spec fn spec_diff_header(s: Seq<char>) -> Option<(Seq<char>, Seq<char>)> {
    let e = spec_content_end(s);
    if !spec_match_at(s, 0, "diff"@) {
        None
    } else {
        match spec_rtoken(s, e) {
            None => None,
            Some((p2, t2)) => {
                let m2 = spec_rws(s, t2);
                if m2 >= t2 {
                    None
                } else {
                    match spec_rtoken(s, m2) {
                        None => None,
                        Some((p1, t1)) => {
                            if t1 >= 7 && 4 < s.len() && spec_is_ws(s[4]) && !spec_contains_in(
                                s,
                                4,
                                t1 - 1,
                                "--git"@,
                            ) {
                                Some((p1, p2))
                            } else {
                                None
                            }
                        },
                    }
                }
            },
        }
    }
}

#[verifier::loop_isolation(false)]
fn rws_start(cv: &Vec<char>, e: usize) -> (r: usize)
    requires
        e <= cv@.len(),
    ensures
        r as int == spec_rws(cv@, e as int),
        r <= e,
{
    let mut j = e;
    while j > 0 && is_ws(cv[j - 1])
        invariant
            j <= e,
            spec_rws(cv@, e as int) == spec_rws(cv@, j as int),
        decreases j,
    {
        j = j - 1;
    }
    j
}

#[verifier::loop_isolation(false)]
fn rrun_start(cv: &Vec<char>, e: usize) -> (r: usize)
    requires
        e <= cv@.len(),
    ensures
        r as int == spec_rrun(cv@, e as int),
        r <= e,
{
    let mut j = e;
    while j > 0 && !is_ws(cv[j - 1])
        invariant
            j <= e,
            spec_rrun(cv@, e as int) == spec_rrun(cv@, j as int),
        decreases j,
    {
        j = j - 1;
    }
    j
}

#[verifier::loop_isolation(false)]
fn rfind_quote(cv: &Vec<char>, from: usize) -> (r: Option<usize>)
    ensures
        match r {
            Some(j) => spec_rfind_quote(cv@, from as int) == Some(j as int) && j <= from && (
            j as int) < cv@.len(),
            None => spec_rfind_quote(cv@, from as int) is None,
        },
{
    if from >= cv.len() {
        return None;
    }
    let mut j = from;
    loop
        invariant
            j <= from < cv@.len(),
            spec_rfind_quote(cv@, from as int) == spec_rfind_quote(cv@, j as int),
        decreases j + 1,
    {
        if cv[j] == '"' {
            return Some(j);
        }
        if j == 0 {
            proof {
                assert(spec_rfind_quote(cv@, -1) is None);
            }
            return None;
        }
        j = j - 1;
    }
}

/// Reads the path token ending just before `e`.
fn rtoken(cv: &Vec<char>, e: usize) -> (r: Option<(String, usize)>)
    requires
        e <= cv@.len(),
    ensures
        match r {
            Some((p, t)) => spec_rtoken(cv@, e as int) == Some((p@, t as int)) && t < e,
            None => spec_rtoken(cv@, e as int) is None,
        },
{
    if e == 0 {
        return None;
    }
    if cv[e - 1] == '"' {
        let q = if e >= 2 {
            rfind_quote(cv, e - 2)
        } else {
            proof {
                assert(spec_rfind_quote(cv@, e - 2) is None);
            }
            None
        };
        match q {
            Some(j) if j < e - 2 => {
                return Some((string_from_range(cv, j + 1, e - 1), j));
            },
            _ => {},
        }
    }
    let j = rrun_start(cv, e);
    if j < e {
        Some((string_from_range(cv, j, e), j))
    } else {
        None
    }
}

/// Does `--git` stand anywhere in `cv[i..j)`?
#[verifier::loop_isolation(false)]
fn contains_git(cv: &Vec<char>, i: usize, j: usize) -> (r: bool)
    requires
        i <= cv@.len(),
    ensures
        r == spec_contains_in(cv@, i as int, j as int, "--git"@),
{
    proof {
        reveal_strlit("--git");
    }
    let jc = if j > cv.len() {
        cv.len()
    } else {
        j
    };
    if jc < 5 || i > jc - 5 {
        proof {
            assert forall|p: int| !(i <= p && p + 5 <= j && spec_match_at(cv@, p, "--git"@)) by {
                if i <= p && p + 5 <= j && spec_match_at(cv@, p, "--git"@) {
                    assert(p + 5 <= cv@.len());
                }
            }
        }
        return false;
    }
    let mut p = i;
    while p <= jc - 5
        invariant
            i <= p,
            5 <= jc <= cv@.len(),
            jc <= j,
            i <= jc - 5,
            forall|q: int| i <= q < p ==> !(#[trigger] spec_match_at(cv@, q, "--git"@)) || !(q
                + 5 <= j),
        decreases jc - p,
    {
        if match_at(cv, p, "--git") {
            return true;
        }
        p = p + 1;
    }
    proof {
        assert forall|q: int| !(i <= q && q + 5 <= j && spec_match_at(cv@, q, "--git"@)) by {
            if i <= q && q + 5 <= j && spec_match_at(cv@, q, "--git"@) {
                assert(q + 5 <= cv@.len());
                assert(q < p);
            }
        }
    }
    false
}

/// A recognized generic preamble: its single line and the two paths.
#[derive(Debug)]
pub struct DiffPreamble {
    pub lines: Lines,
    pub ante_file_path: String,
    pub post_file_path: String,
}

impl DiffPreamble {
    pub fn len(&self) -> (r: usize)
        ensures
            r == self.lines@.len(),
    {
        self.lines.len()
    }

    pub fn is_empty(&self) -> (r: bool)
        ensures
            r == (self.lines@.len() == 0),
    {
        self.lines.len() == 0
    }

    pub fn ante_file_path_as_str(&self) -> (r: &str)
        ensures
            r@ == self.ante_file_path@,
    {
        self.ante_file_path.as_str()
    }

    pub fn post_file_path_as_str(&self) -> (r: &str)
        ensures
            r@ == self.post_file_path@,
    {
        self.post_file_path.as_str()
    }

    pub fn get_ante_file_path(&self, strip_level: usize) -> (r: String)
        ensures
            r@ == spec_strip_at(self.ante_file_path@, 0, strip_level as int),
    {
        path_stripped_of_n_levels(self.ante_file_path.as_str(), strip_level)
    }

    pub fn get_post_file_path(&self, strip_level: usize) -> (r: String)
        ensures
            r@ == spec_strip_at(self.post_file_path@, 0, strip_level as int),
    {
        path_stripped_of_n_levels(self.post_file_path.as_str(), strip_level)
    }

    /// The post path, or the ante path when the post side is `/dev/null`.
    pub fn get_file_path(&self, strip_level: usize) -> (r: String)
        ensures
            r@ == spec_strip_at(
                if self.post_file_path@ == "/dev/null"@ {
                    self.ante_file_path@
                } else {
                    self.post_file_path@
                },
                0,
                strip_level as int,
            ),
    {
        if str_eq(self.post_file_path.as_str(), "/dev/null") {
            self.get_ante_file_path(strip_level)
        } else {
            self.get_post_file_path(strip_level)
        }
    }
}

/// The parser for the generic preamble.
pub struct DiffPreambleParser {}

impl DiffPreambleParser {
    pub fn new() -> (r: DiffPreambleParser) {
        DiffPreambleParser {  }
    }

    /// Recognizes a generic preamble line at `start_index`.
    pub fn get_preamble_at(&self, lines: &[String], start_index: usize) -> (r: Option<
        DiffPreamble,
    >)
        ensures
            ({
                let lv = lines.deep_view();
                match r {
                    Some(p) => {
                        &&& start_index < lv.len()
                        &&& spec_diff_header(lv[start_index as int]) == Some(
                            (p.ante_file_path@, p.post_file_path@),
                        )
                        &&& p.lines@.len() == 1
                        &&& p.lines.deep_view() =~= lv.subrange(
                            start_index as int,
                            start_index + 1,
                        )
                    },
                    None => start_index >= lv.len() || spec_diff_header(lv[start_index as int])
                        is None,
                }
            }),
    {
        let ghost lv = lines.deep_view();
        if start_index >= lines.len() {
            return None;
        }
        let cv = chars_of(lines[start_index].as_str());
        proof {
            assert(cv@ == lv[start_index as int]);
            reveal_strlit("diff");
        }
        if !match_at(&cv, 0, "diff") {
            return None;
        }
        let e = content_end(&cv);
        let (p2, t2) = match rtoken(&cv, e) {
            Some(q) => q,
            None => {
                return None;
            },
        };
        let m2 = rws_start(&cv, t2);
        if m2 >= t2 {
            return None;
        }
        let (p1, t1) = match rtoken(&cv, m2) {
            Some(q) => q,
            None => {
                return None;
            },
        };
        if !(t1 >= 7 && 4 < cv.len() && is_ws(cv[4])) {
            return None;
        }
        if contains_git(&cv, 4, t1 - 1) {
            return None;
        }
        let mut pl: Lines = Vec::new();
        pl.push(lines[start_index].clone());
        proof {
            assert(pl.deep_view() =~= lv.subrange(start_index as int, start_index + 1));
        }
        Some(DiffPreamble { lines: pl, ante_file_path: p1, post_file_path: p2 })
    }
}

/// Either recognized preamble flavor.
#[derive(Debug)]
pub enum Preamble {
    Git(GitPreamble),
    Diff(DiffPreamble),
}

impl Preamble {
    pub fn len(&self) -> (r: usize)
        ensures
            r == spec_preamble_len(self),
    {
        match self {
            Preamble::Git(p) => p.len(),
            Preamble::Diff(p) => p.len(),
        }
    }

    pub fn is_empty(&self) -> (r: bool)
        ensures
            r == (spec_preamble_len(self) == 0),
    {
        self.len() == 0
    }

    pub fn get_ante_file_path(&self, strip_level: usize) -> (r: String)
        ensures
            r@ == spec_strip_at(spec_preamble_ante_path(self), 0, strip_level as int),
    {
        match self {
            Preamble::Git(p) => p.get_ante_file_path(strip_level),
            Preamble::Diff(p) => p.get_ante_file_path(strip_level),
        }
    }

    pub fn get_post_file_path(&self, strip_level: usize) -> (r: String)
        ensures
            r@ == spec_strip_at(spec_preamble_post_path(self), 0, strip_level as int),
    {
        match self {
            Preamble::Git(p) => p.get_post_file_path(strip_level),
            Preamble::Diff(p) => p.get_post_file_path(strip_level),
        }
    }

    /// The post path, or the ante path when the post side is `/dev/null`.
    pub fn get_file_path(&self, strip_level: usize) -> (r: String)
        ensures
            r@ == spec_strip_at(
                if spec_preamble_post_path(self) == "/dev/null"@ {
                    spec_preamble_ante_path(self)
                } else {
                    spec_preamble_post_path(self)
                },
                0,
                strip_level as int,
            ),
    {
        match self {
            Preamble::Git(p) => p.get_file_path(strip_level),
            Preamble::Diff(p) => p.get_file_path(strip_level),
        }
    }

    /// The verbatim lines of this preamble.
    pub fn lines(&self) -> (r: &Lines)
        ensures
            r.deep_view() == spec_preamble_lines(self),
    {
        match self {
            Preamble::Git(p) => &p.lines,
            Preamble::Diff(p) => &p.lines,
        }
    }
}

pub open spec fn spec_preamble_len(p: &Preamble) -> int {
    match p {
        Preamble::Git(g) => g.lines@.len() as int,
        Preamble::Diff(d) => d.lines@.len() as int,
    }
}

pub open spec fn spec_preamble_lines(p: &Preamble) -> Seq<Seq<char>> {
    match p {
        Preamble::Git(g) => g.lines.deep_view(),
        Preamble::Diff(d) => d.lines.deep_view(),
    }
}

pub open spec fn spec_preamble_ante_path(p: &Preamble) -> Seq<char> {
    match p {
        Preamble::Git(g) => g.ante_file_path@,
        Preamble::Diff(d) => d.ante_file_path@,
    }
}

pub open spec fn spec_preamble_post_path(p: &Preamble) -> Seq<char> {
    match p {
        Preamble::Git(g) => g.post_file_path@,
        Preamble::Diff(d) => d.post_file_path@,
    }
}

/// The preamble dispatcher: the VCS flavor is tried first.
pub struct PreambleParser {
    pub git_preamble_parser: GitPreambleParser,
    pub diff_preamble_parser: DiffPreambleParser,
}

impl PreambleParser {
    pub fn new() -> (r: PreambleParser) {
        PreambleParser {
            git_preamble_parser: GitPreambleParser::new(),
            diff_preamble_parser: DiffPreambleParser::new(),
        }
    }

    /// Recognizes either preamble flavor at `start_index`, the VCS flavor
    /// first.
    pub fn get_preamble_at(&self, lines: &[String], start_index: usize) -> (r: Option<Preamble>)
        ensures
            ({
                let lv = lines.deep_view();
                match r {
                    Some(Preamble::Git(p)) => {
                        &&& start_index < lv.len()
                        &&& spec_git_header(lv[start_index as int]) == Some(
                            (p.ante_file_path@, p.post_file_path@),
                        )
                        &&& p.lines@.len() >= 1
                        &&& p.lines@.len() == 1 + spec_git_extras_run(lv, start_index + 1)
                        &&& start_index + p.lines@.len() <= lv.len()
                        &&& p.lines.deep_view() =~= lv.subrange(
                            start_index as int,
                            start_index + p.lines@.len(),
                        )
                    },
                    Some(Preamble::Diff(p)) => {
                        &&& start_index < lv.len()
                        &&& spec_git_header(lv[start_index as int]) is None
                        &&& spec_diff_header(lv[start_index as int]) == Some(
                            (p.ante_file_path@, p.post_file_path@),
                        )
                        &&& p.lines@.len() == 1
                        &&& p.lines.deep_view() =~= lv.subrange(
                            start_index as int,
                            start_index + 1,
                        )
                    },
                    None => start_index >= lv.len() || (spec_git_header(lv[start_index as int])
                        is None && spec_diff_header(lv[start_index as int]) is None),
                }
            }),
    {
        match self.git_preamble_parser.get_preamble_at(lines, start_index) {
            Some(p) => Some(Preamble::Git(p)),
            None => match self.diff_preamble_parser.get_preamble_at(lines, start_index) {
                Some(p) => Some(Preamble::Diff(p)),
                None => None,
            },
        }
    }
}

} // verus!
