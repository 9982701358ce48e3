//! Line utilities: segmenting a text into newline-terminated lines,
//! trailing-whitespace detection, and locating sublines in a line sequence.

use vstd::prelude::*;
use vstd::string::StrSliceExecFns;

verus! {

/// A line is a string that keeps its terminating newline, if any.
/// The empty string is not a line.
pub type Line = String;

/// An ordered, 0-indexed sequence of lines.
pub type Lines = Vec<String>;

/// Index just past the first newline of `s`, or `s.len()` if `s` holds none.
pub open spec fn spec_line_end(s: Seq<char>) -> int
    decreases s.len(),
{
    if s.len() == 0 {
        0
    } else if s[0] == '\n' {
        1
    } else {
        1 + spec_line_end(s.subrange(1, s.len() as int))
    }
}

pub proof fn lemma_line_end_bounds(s: Seq<char>)
    ensures
        s.len() == 0 ==> spec_line_end(s) == 0,
        s.len() > 0 ==> 1 <= spec_line_end(s) <= s.len(),
    decreases s.len(),
{
    if s.len() > 0 && s[0] != '\n' {
        lemma_line_end_bounds(s.subrange(1, s.len() as int));
    }
}

/// If `i` is the first newline of `s`, the first line ends just past it.
pub proof fn lemma_line_end_at(s: Seq<char>, i: int)
    requires
        0 <= i < s.len(),
        s[i] == '\n',
        forall|j: int| 0 <= j < i ==> s[j] != '\n',
    ensures
        spec_line_end(s) == i + 1,
    decreases i,
{
    if i > 0 {
        let t = s.subrange(1, s.len() as int);
        lemma_line_end_at(t, i - 1);
    }
}

/// A text without a newline is one single line.
pub proof fn lemma_line_end_none(s: Seq<char>)
    requires
        forall|j: int| 0 <= j < s.len() ==> s[j] != '\n',
    ensures
        spec_line_end(s) == s.len(),
    decreases s.len(),
{
    if s.len() > 0 {
        lemma_line_end_none(s.subrange(1, s.len() as int));
    }
}

/// The lines of a text, each keeping its terminating newline; a final line
/// without a newline is kept as-is, and an empty text has no lines.
pub open spec fn spec_lines_of(s: Seq<char>) -> Seq<Seq<char>>
    decreases s.len(),
    via spec_lines_of_decreases
{
    if s.len() == 0 {
        Seq::empty()
    } else {
        let e = spec_line_end(s);
        seq![s.subrange(0, e)] + spec_lines_of(s.subrange(e, s.len() as int))
    }
}

#[via_fn]
proof fn spec_lines_of_decreases(s: Seq<char>) {
    lemma_line_end_bounds(s);
}

/// The lines of the suffix of `s` that starts at `i`.
pub open spec fn spec_lines_from(s: Seq<char>, i: int) -> Seq<Seq<char>>
    recommends
        0 <= i <= s.len(),
{
    spec_lines_of(s.subrange(i, s.len() as int))
}

/// Concatenation of a sequence of lines back into one text.
pub open spec fn spec_concat_lines(ls: Seq<Seq<char>>) -> Seq<char>
    decreases ls.len(),
{
    if ls.len() == 0 {
        Seq::empty()
    } else {
        ls[0] + spec_concat_lines(ls.subrange(1, ls.len() as int))
    }
}

/// The lines of a text concatenate back to that text exactly.
pub proof fn lemma_lines_concat(s: Seq<char>)
    ensures
        spec_concat_lines(spec_lines_of(s)) == s,
    decreases s.len(),
{
    if s.len() == 0 {
        assert(spec_concat_lines(spec_lines_of(s)) =~= s);
    } else {
        lemma_line_end_bounds(s);
        let e = spec_line_end(s);
        let rest = s.subrange(e, s.len() as int);
        lemma_lines_concat(rest);
        let ls = spec_lines_of(s);
        assert(ls.subrange(1, ls.len() as int) =~= spec_lines_of(rest));
        assert(spec_concat_lines(ls) =~= s);
    }
}

/// A non-restartable iterator over the newline-terminated lines of a text.
pub struct CompleteLines<'a> {
    string: &'a str,
    start_index: usize,
}

impl<'a> CompleteLines<'a> {
    /// The whole text being segmented.
    pub closed spec fn text(self) -> Seq<char> {
        self.string@
    }

    /// The position (in characters) of the first line not yet yielded.
    pub closed spec fn pos(self) -> int {
        self.start_index as int
    }

    pub open spec fn wf(self) -> bool {
        0 <= self.pos() <= self.text().len()
    }

    pub fn new(string: &'a str) -> (r: Self)
        ensures
            r.text() == string@,
            r.pos() == 0,
            r.wf(),
    {
        CompleteLines { string, start_index: 0 }
    }

    /// Yields the next line: the text from the current position through its
    /// first newline, or through the end of the text if no newline follows.
    pub fn next(&mut self) -> (r: Option<&'a str>)
        requires
            old(self).wf(),
        ensures
            final(self).wf(),
            final(self).text() == old(self).text(),
            match r {
                Some(line) => {
                    &&& old(self).pos() < old(self).text().len()
                    &&& old(self).pos() < final(self).pos() <= old(self).text().len()
                    &&& line@ == old(self).text().subrange(old(self).pos(), final(self).pos())
                    &&& line@.len() > 0
                    &&& spec_lines_from(old(self).text(), old(self).pos()) == seq![line@]
                        + spec_lines_from(final(self).text(), final(self).pos())
                },
                None => {
                    &&& old(self).pos() == old(self).text().len()
                    &&& *final(self) == *old(self)
                },
            },
    {
        let text_len = self.string.unicode_len();
        if self.start_index < text_len {
            let start = self.start_index;
            let ghost s = self.string@;
            let ghost suffix = s.subrange(start as int, s.len() as int);
            let mut i = start;
            while i < text_len && self.string.get_char(i) != '\n'
                invariant
                    start <= i <= text_len,
                    text_len == s.len(),
                    s == self.string@,
                    forall|j: int| start <= j < i ==> s[j] != '\n',
                decreases text_len - i,
            {
                i = i + 1;
            }
            let end = if i < text_len {
                i + 1
            } else {
                text_len
            };
            proof {
                assert(forall|k: int| 0 <= k < suffix.len() ==> suffix[k] == s[start + k]);
                if i < text_len {
                    lemma_line_end_at(suffix, i - start);
                } else {
                    lemma_line_end_none(suffix);
                }
                assert(spec_line_end(suffix) == end - start);
                assert(suffix.subrange(0, (end - start) as int) =~= s.subrange(
                    start as int,
                    end as int,
                ));
                assert(suffix.subrange((end - start) as int, suffix.len() as int) =~= s.subrange(
                    end as int,
                    s.len() as int,
                ));
                assert(spec_lines_of(suffix) == seq![s.subrange(start as int, end as int)]
                    + spec_lines_from(s, end as int));
            }
            let line = self.string.substring_char(start, end);
            self.start_index = end;
            Some(line)
        } else {
            None
        }
    }
}

/// Access to [`CompleteLines`] as a method on owned strings.
pub trait CompleteLinesExt: View<V = Seq<char>> {
    fn complete_lines<'a>(&'a self) -> (r: CompleteLines<'a>)
        ensures
            r.text() == self@,
            r.pos() == 0,
            r.wf(),
    ;
}

impl CompleteLinesExt for String {
    fn complete_lines<'a>(&'a self) -> (r: CompleteLines<'a>) {
        CompleteLines::new(self.as_str())
    }
}

/// Collects the complete lines of a text into a vector of owned lines.
pub fn split_lines(text: &str) -> (r: Vec<String>)
    ensures
        r.deep_view() == spec_lines_of(text@),
{
    let mut it = CompleteLines::new(text);
    let mut acc: Vec<String> = Vec::new();
    let ghost total = spec_lines_of(text@);
    proof {
        assert(text@.subrange(0, text@.len() as int) =~= text@);
        assert(acc.deep_view() =~= Seq::<Seq<char>>::empty());
    }
    loop
        invariant
            it.wf(),
            it.text() == text@,
            acc.deep_view() + spec_lines_from(text@, it.pos()) =~= total,
        ensures
            acc.deep_view() == total,
        decreases text@.len() - it.pos(),
    {
        let ghost old_acc = acc.deep_view();
        match it.next() {
            Some(line) => {
                let owned: String = line.to_owned();
                acc.push(owned);
                proof {
                    assert(acc.deep_view() =~= old_acc + seq![line@]);
                    assert(acc.deep_view() + spec_lines_from(text@, it.pos()) =~= total);
                }
            },
            None => {
                proof {
                    assert(spec_lines_from(text@, it.pos()) =~= Seq::<Seq<char>>::empty());
                    assert(acc.deep_view() =~= total);
                }
                break ;
            },
        }
    }
    acc
}

/// True of a character that counts as horizontal white space.
pub open spec fn spec_is_tws_char(c: char) -> bool {
    c == ' ' || c == '\t' || c == '\u{000C}' || c == '\u{000B}'
}

/// True if the line ends in white space, ignoring a final newline.
pub open spec fn spec_has_tws(s: Seq<char>) -> bool {
    let t = if s.len() > 0 && s[s.len() - 1] == '\n' {
        s.drop_last()
    } else {
        s
    };
    t.len() > 0 && spec_is_tws_char(t[t.len() - 1])
}

/// Operations every line offers.
pub trait LineIfce: View<V = Seq<char>> {
    fn has_trailing_white_space(&self) -> (r: bool)
        ensures
            r == spec_has_tws(self@),
    ;
}

impl LineIfce for String {
    fn has_trailing_white_space(&self) -> (r: bool) {
        let s = self.as_str();
        let n = s.unicode_len();
        if n == 0 {
            return false;
        }
        let last = s.get_char(n - 1);
        if last == '\n' {
            if n == 1 {
                proof {
                    assert(self@.drop_last().len() == 0);
                }
                return false;
            }
            let c = s.get_char(n - 2);
            proof {
                assert(self@.drop_last()[n - 2] == self@[n - 2]);
            }
            is_tws_char(c)
        } else {
            is_tws_char(last)
        }
    }
}

fn is_tws_char(c: char) -> (r: bool)
    ensures
        r == spec_is_tws_char(c),
{
    c == ' ' || c == '\t' || c == '\u{000C}' || c == '\u{000B}'
}

/// `sub` stands at index `idx` of `hay`, line for line.
pub open spec fn spec_contains_at(hay: Seq<Seq<char>>, sub: Seq<Seq<char>>, idx: int) -> bool {
    &&& 0 <= idx
    &&& idx + sub.len() <= hay.len()
    &&& forall|i: int| 0 <= i < sub.len() ==> hay[idx + i] == sub[i]
}

/// Operations every line sequence offers.
pub trait LinesIfce: DeepView<V = Seq<Seq<char>>> {
    /// Splits a text into its complete lines.
    fn from_string(string: &str) -> (r: Lines)
        ensures
            r.deep_view() == spec_lines_of(string@),
    ;

    /// Do we contain `sub_lines` starting at `index`?
    fn contains_sub_lines_at(&self, sub_lines: &[String], index: usize) -> (r: bool)
        ensures
            r == spec_contains_at(self.deep_view(), sub_lines.deep_view(), index as int),
    ;

    /// The first index at or after `start_index` where `sub_lines` stands.
    fn find_first_sub_lines(&self, sub_lines: &[String], start_index: usize) -> (r: Option<usize>)
        ensures
            match r {
                Some(i) => {
                    &&& start_index <= i
                    &&& spec_contains_at(self.deep_view(), sub_lines.deep_view(), i as int)
                    &&& forall|j: int|
                        start_index <= j < i ==> !spec_contains_at(
                            self.deep_view(),
                            sub_lines.deep_view(),
                            j,
                        )
                },
                None => forall|j: int|
                    start_index <= j ==> !spec_contains_at(
                        self.deep_view(),
                        sub_lines.deep_view(),
                        j,
                    ),
            },
    ;
}

impl LinesIfce for Vec<String> {
    fn from_string(string: &str) -> (r: Lines) {
        split_lines(string)
    }

    fn contains_sub_lines_at(&self, sub_lines: &[String], index: usize) -> (r: bool) {
        if index > self.len() || sub_lines.len() > self.len() - index {
            return false;
        }
        let mut i: usize = 0;
        while i < sub_lines.len()
            invariant
                0 <= i <= sub_lines.len(),
                index + sub_lines.len() <= self.len(),
                forall|k: int| 0 <= k < i ==> self.deep_view()[index + k] == sub_lines.deep_view()[k],
            decreases sub_lines.len() - i,
        {
            if !lines_eq(&self[index + i], &sub_lines[i]) {
                proof {
                    assert(self.deep_view()[index + i] == self@[index as int + i as int]@);
                    assert(sub_lines.deep_view()[i as int] == sub_lines@[i as int]@);
                }
                return false;
            }
            proof {
                assert(self.deep_view()[index + i] == self@[index as int + i as int]@);
                assert(sub_lines.deep_view()[i as int] == sub_lines@[i as int]@);
            }
            i = i + 1;
        }
        true
    }

    fn find_first_sub_lines(&self, sub_lines: &[String], start_index: usize) -> (r: Option<usize>) {
        if sub_lines.len() > self.len() {
            return None;
        }
        let last = self.len() - sub_lines.len();
        if start_index > last {
            return None;
        }
        let mut index = start_index;
        while index <= last
            invariant
                start_index <= index,
                last == self.len() - sub_lines.len(),
                sub_lines.len() <= self.len(),
                forall|j: int|
                    start_index <= j < index ==> !spec_contains_at(
                        self.deep_view(),
                        sub_lines.deep_view(),
                        j,
                    ),
            decreases last + 1 - index,
        {
            if self.contains_sub_lines_at(sub_lines, index) {
                return Some(index);
            }
            index = index + 1;
        }
        None
    }
}

/// Byte-exact comparison of two lines, newline included.
pub fn lines_eq(a: &String, b: &String) -> (r: bool)
    ensures
        r == (a@ == b@),
{
    *a == *b
}

/// Number of equal leading lines of `lines1` and `lines2`: the index of the
/// first inequality from the head, the shorter length if one sequence is a
/// prefix of the other, and `None` if the two are the same.
pub fn first_inequality_fm_head(lines1: &[String], lines2: &[String]) -> (r: Option<usize>)
    ensures
        ({
            let a = lines1.deep_view();
            let b = lines2.deep_view();
            let m = if a.len() <= b.len() {
                a.len() as int
            } else {
                b.len() as int
            };
            match r {
                Some(i) => {
                    &&& 0 <= i <= m
                    &&& forall|j: int| 0 <= j < i ==> a[j] == b[j]
                    &&& i < m ==> a[i as int] != b[i as int]
                    &&& i == m ==> a.len() != b.len()
                },
                None => a =~= b,
            }
        }),
{
    let m = if lines1.len() <= lines2.len() {
        lines1.len()
    } else {
        lines2.len()
    };
    let mut i: usize = 0;
    while i < m
        invariant
            0 <= i <= m,
            m <= lines1.len(),
            m <= lines2.len(),
            forall|j: int| 0 <= j < i ==> lines1.deep_view()[j] == lines2.deep_view()[j],
        decreases m - i,
    {
        if !lines_eq(&lines1[i], &lines2[i]) {
            proof {
                assert(lines1.deep_view()[i as int] == lines1@[i as int]@);
                assert(lines2.deep_view()[i as int] == lines2@[i as int]@);
            }
            return Some(i);
        }
        proof {
            assert(lines1.deep_view()[i as int] == lines1@[i as int]@);
            assert(lines2.deep_view()[i as int] == lines2@[i as int]@);
        }
        i = i + 1;
    }
    if lines1.len() == lines2.len() {
        proof {
            assert(lines1.deep_view() =~= lines2.deep_view());
        }
        None
    } else {
        Some(m)
    }
}

/// Number of equal trailing lines, the mirror image of
/// [`first_inequality_fm_head`].
pub fn first_inequality_fm_tail(lines1: &[String], lines2: &[String]) -> (r: Option<usize>)
    ensures
        ({
            let a = lines1.deep_view();
            let b = lines2.deep_view();
            let m = if a.len() <= b.len() {
                a.len() as int
            } else {
                b.len() as int
            };
            match r {
                Some(i) => {
                    &&& 0 <= i <= m
                    &&& forall|j: int|
                        0 <= j < i ==> #[trigger] a[a.len() - 1 - j] == b[b.len() - 1 - j]
                    &&& i < m ==> a[a.len() - 1 - i] != b[b.len() - 1 - i]
                    &&& i == m ==> a.len() != b.len()
                },
                None => a =~= b,
            }
        }),
{
    let m = if lines1.len() <= lines2.len() {
        lines1.len()
    } else {
        lines2.len()
    };
    let mut i: usize = 0;
    while i < m
        invariant
            0 <= i <= m,
            m <= lines1.len(),
            m <= lines2.len(),
            forall|j: int|
                0 <= j < i ==> #[trigger] lines1.deep_view()[lines1@.len() - 1 - j]
                    == lines2.deep_view()[lines2@.len() - 1 - j],
        decreases m - i,
    {
        if !lines_eq(&lines1[lines1.len() - 1 - i], &lines2[lines2.len() - 1 - i]) {
            proof {
                assert(lines1.deep_view()[lines1@.len() - 1 - i] == lines1@[lines1@.len() - 1
                    - i]@);
                assert(lines2.deep_view()[lines2@.len() - 1 - i] == lines2@[lines2@.len() - 1
                    - i]@);
            }
            return Some(i);
        }
        proof {
            assert(lines1.deep_view()[lines1@.len() - 1 - i] == lines1@[lines1@.len() - 1 - i]@);
            assert(lines2.deep_view()[lines2@.len() - 1 - i] == lines2@[lines2@.len() - 1 - i]@);
        }
        i = i + 1;
    }
    if lines1.len() == lines2.len() {
        proof {
            assert(forall|j: int|
                0 <= j < lines1.deep_view().len() ==> lines1.deep_view()[j]
                    == lines2.deep_view()[lines2@.len() - 1 - (lines1@.len() - 1 - j)]);
            assert(lines1.deep_view() =~= lines2.deep_view());
        }
        None
    } else {
        Some(m)
    }
}

} // verus!
