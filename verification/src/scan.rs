//! Character-level scanning helpers shared by the diff parsers: whitespace
//! runs, literal matches, digit runs, numbers, and path tokens.

use vstd::prelude::*;
use vstd::string::StrSliceExecFns;

verus! {

/// White space as the parsers' patterns see it.
pub open spec fn spec_is_ws(c: char) -> bool {
    c == ' ' || c == '\t' || c == '\n' || c == '\r' || c == '\u{000B}' || c == '\u{000C}'
}

pub fn is_ws(c: char) -> (r: bool)
    ensures
        r == spec_is_ws(c),
{
    c == ' ' || c == '\t' || c == '\n' || c == '\r' || c == '\u{000B}' || c == '\u{000C}'
}

pub open spec fn spec_is_digit(c: char) -> bool {
    '0' <= c <= '9'
}

pub fn is_digit(c: char) -> (r: bool)
    ensures
        r == spec_is_digit(c),
{
    '0' <= c && c <= '9'
}

pub open spec fn spec_is_hex_digit(c: char) -> bool {
    '0' <= c <= '9' || 'a' <= c <= 'f' || 'A' <= c <= 'F'
}

pub fn is_hex_digit(c: char) -> (r: bool)
    ensures
        r == spec_is_hex_digit(c),
{
    ('0' <= c && c <= '9') || ('a' <= c && c <= 'f') || ('A' <= c && c <= 'F')
}

/// The characters of a string, with random access.
#[verifier::loop_isolation(false)]
pub fn chars_of(s: &str) -> (r: Vec<char>)
    ensures
        r@ == s@,
{
    let n = s.unicode_len();
    let mut out: Vec<char> = Vec::new();
    let mut i: usize = 0;
    while i < n
        invariant
            i <= n,
            n == s@.len(),
            out@ == s@.subrange(0, i as int),
        decreases n - i,
    {
        out.push(s.get_char(i));
        proof {
            assert(out@ =~= s@.subrange(0, i + 1));
        }
        i = i + 1;
    }
    proof {
        assert(out@ =~= s@);
    }
    out
}

/// The first index at or past `i` holding a character that fails `pred`;
/// the scan helpers instantiate `pred` with a character class.
pub open spec fn spec_run_end(s: Seq<char>, i: int, pred: spec_fn(char) -> bool) -> int
    decreases s.len() - i,
{
    if i < 0 || i >= s.len() {
        i
    } else if pred(s[i]) {
        spec_run_end(s, i + 1, pred)
    } else {
        i
    }
}

/// The end of a run never lies before its start, nor past the text.
pub proof fn lemma_run_end_bounds(s: Seq<char>, i: int, pred: spec_fn(char) -> bool)
    requires
        0 <= i <= s.len(),
    ensures
        i <= spec_run_end(s, i, pred) <= s.len(),
        forall|j: int| i <= j < spec_run_end(s, i, pred) ==> pred(s[j]),
        spec_run_end(s, i, pred) < s.len() ==> !pred(s[spec_run_end(s, i, pred)]),
    decreases s.len() - i,
{
    if i < s.len() && pred(s[i]) {
        lemma_run_end_bounds(s, i + 1, pred);
    }
}

/// First index at or past `i` that is not white space.
#[verifier::loop_isolation(false)]
pub fn skip_ws(cv: &Vec<char>, i: usize) -> (r: usize)
    requires
        i <= cv@.len(),
    ensures
        r == spec_run_end(cv@, i as int, |c: char| spec_is_ws(c)),
        i <= r <= cv@.len(),
{
    let ghost pred = |c: char| spec_is_ws(c);
    let mut j = i;
    while j < cv.len() && is_ws(cv[j])
        invariant
            i <= j <= cv@.len(),
            spec_run_end(cv@, i as int, pred) == spec_run_end(cv@, j as int, pred),
        decreases cv@.len() - j,
    {
        j = j + 1;
    }
    j
}

/// First index at or past `i` that is white space.
#[verifier::loop_isolation(false)]
pub fn token_end(cv: &Vec<char>, i: usize) -> (r: usize)
    requires
        i <= cv@.len(),
    ensures
        r == spec_run_end(cv@, i as int, |c: char| !spec_is_ws(c)),
        i <= r <= cv@.len(),
{
    let ghost pred = |c: char| !spec_is_ws(c);
    let mut j = i;
    while j < cv.len() && !is_ws(cv[j])
        invariant
            i <= j <= cv@.len(),
            spec_run_end(cv@, i as int, pred) == spec_run_end(cv@, j as int, pred),
        decreases cv@.len() - j,
    {
        j = j + 1;
    }
    j
}

/// First index at or past `i` that is not a digit.
#[verifier::loop_isolation(false)]
pub fn digits_end(cv: &Vec<char>, i: usize) -> (r: usize)
    requires
        i <= cv@.len(),
    ensures
        r == spec_run_end(cv@, i as int, |c: char| spec_is_digit(c)),
        i <= r <= cv@.len(),
{
    let ghost pred = |c: char| spec_is_digit(c);
    let mut j = i;
    while j < cv.len() && is_digit(cv[j])
        invariant
            i <= j <= cv@.len(),
            spec_run_end(cv@, i as int, pred) == spec_run_end(cv@, j as int, pred),
        decreases cv@.len() - j,
    {
        j = j + 1;
    }
    j
}

/// `t` stands letter for letter at index `i` of `s`.
pub open spec fn spec_match_at(s: Seq<char>, i: int, t: Seq<char>) -> bool {
    &&& 0 <= i
    &&& i + t.len() <= s.len()
    &&& forall|k: int| 0 <= k < t.len() ==> s[i + k] == t[k]
}

/// Does the literal `t` stand at index `i` of the text?
#[verifier::loop_isolation(false)]
pub fn match_at(cv: &Vec<char>, i: usize, t: &str) -> (r: bool)
    ensures
        r == spec_match_at(cv@, i as int, t@),
{
    let n = t.unicode_len();
    if i > cv.len() || n > cv.len() - i {
        return false;
    }
    let mut k: usize = 0;
    while k < n
        invariant
            k <= n,
            n == t@.len(),
            i + n <= cv@.len(),
            forall|m: int| 0 <= m < k ==> cv@[i + m] == t@[m],
        decreases n - k,
    {
        if cv[i + k] != t.get_char(k) {
            return false;
        }
        k = k + 1;
    }
    true
}

/// The first index at or past `from` holding `c`, if any.
pub open spec fn spec_find_char(s: Seq<char>, from: int, c: char) -> Option<int>
    decreases s.len() - from,
{
    if from < 0 || from >= s.len() {
        None
    } else if s[from] == c {
        Some(from)
    } else {
        spec_find_char(s, from + 1, c)
    }
}

#[verifier::loop_isolation(false)]
pub fn find_char(cv: &Vec<char>, from: usize, c: char) -> (r: Option<usize>)
    requires
        from <= cv@.len(),
    ensures
        match r {
            Some(i) => from <= i < cv@.len() && spec_find_char(cv@, from as int, c) == Some(
                i as int,
            ) && cv@[i as int] == c,
            None => spec_find_char(cv@, from as int, c) is None,
        },
{
    let mut j = from;
    while j < cv.len()
        invariant
            from <= j <= cv@.len(),
            spec_find_char(cv@, from as int, c) == spec_find_char(cv@, j as int, c),
        decreases cv@.len() - j,
    {
        if cv[j] == c {
            return Some(j);
        }
        j = j + 1;
    }
    None
}

/// The value of the digit run `s[i..j)`.
pub open spec fn spec_digits_val(s: Seq<char>, i: int, j: int) -> int
    decreases j - i,
{
    if i >= j {
        0
    } else {
        spec_digits_val(s, i, j - 1) * 10 + (s[j - 1] as int - 48)
    }
}

/// All of `s[i..j)` are digits.
pub open spec fn spec_all_digits(s: Seq<char>, i: int, j: int) -> bool {
    forall|k: int| i <= k < j ==> spec_is_digit(s[k])
}

/// Are all of `cv[i..j)` digits?
#[verifier::loop_isolation(false)]
pub fn all_digits_in(cv: &Vec<char>, i: usize, j: usize) -> (r: bool)
    requires
        i <= j <= cv@.len(),
    ensures
        r == spec_all_digits(cv@, i as int, j as int),
{
    let mut k = i;
    while k < j
        invariant
            i <= k <= j,
            forall|m: int| i <= m < k ==> spec_is_digit(cv@[m]),
        decreases j - k,
    {
        if !is_digit(cv[k]) {
            return false;
        }
        k = k + 1;
    }
    true
}

/// Reads the number spelled by the digit run `s[i..j)`; `None` when the
/// value does not fit a machine word.
#[verifier::loop_isolation(false)]
pub fn parse_number(cv: &Vec<char>, i: usize, j: usize) -> (r: Option<usize>)
    requires
        i <= j <= cv@.len(),
        spec_all_digits(cv@, i as int, j as int),
    ensures
        match r {
            Some(v) => spec_digits_val(cv@, i as int, j as int) == v as int,
            None => spec_digits_val(cv@, i as int, j as int) > usize::MAX,
        },
{
    let mut v: usize = 0;
    let mut k = i;
    while k < j
        invariant
            i <= k <= j <= cv@.len(),
            spec_all_digits(cv@, i as int, j as int),
            v as int == spec_digits_val(cv@, i as int, k as int),
        decreases j - k,
    {
        let c = cv[k];
        let d = (c as u32 - 48) as usize;
        proof {
            assert(spec_is_digit(cv@[k as int]));
            assert(d < 10);
        }
        if v > usize::MAX / 10 || (v == usize::MAX / 10 && d > usize::MAX % 10) {
            proof {
                lemma_digits_val_grows(cv@, i as int, k as int + 1, j as int);
                vstd::arithmetic::div_mod::lemma_fundamental_div_mod(usize::MAX as int, 10);
            }
            return None;
        }
        v = v * 10 + d;
        k = k + 1;
    }
    Some(v)
}

/// A longer digit run never spells a smaller number.
proof fn lemma_digits_val_grows(s: Seq<char>, i: int, j: int, j2: int)
    requires
        i <= j <= j2,
        spec_all_digits(s, i, j2),
        0 <= i,
        j2 <= s.len(),
    ensures
        spec_digits_val(s, i, j2) >= spec_digits_val(s, i, j),
    decreases j2 - j,
{
    if j < j2 {
        lemma_digits_val_grows(s, i, j, j2 - 1);
        assert(spec_is_digit(s[j2 - 1]));
        assert(spec_digits_val(s, i, j2) == spec_digits_val(s, i, j2 - 1) * 10 + (s[j2 - 1] as int
            - 48));
        assert(spec_digits_val(s, i, j2 - 1) * 10 >= spec_digits_val(s, i, j2 - 1)) by {
            lemma_digits_val_nonneg(s, i, j2 - 1);
        }
    }
}

/// A digit run's value is never negative.
proof fn lemma_digits_val_nonneg(s: Seq<char>, i: int, j: int)
    requires
        spec_all_digits(s, i, j),
        0 <= i,
        j <= s.len(),
    ensures
        spec_digits_val(s, i, j) >= 0,
    decreases j - i,
{
    if i < j {
        lemma_digits_val_nonneg(s, i, j - 1);
    }
}

/// A path token: double-quoted with contained non-quote characters, or a
/// whitespace-free run.  Returns the path's characters and the index just
/// past the token.
pub open spec fn spec_parse_path(s: Seq<char>, i: int) -> Option<(Seq<char>, int)> {
    if !(0 <= i < s.len()) {
        None
    } else if s[i] == '"' {
        match spec_find_char(s, i + 1, '"') {
            None => None,
            Some(j) => {
                if j > i + 1 {
                    Some((s.subrange(i + 1, j), j + 1))
                } else {
                    None
                }
            },
        }
    } else {
        let e = spec_run_end(s, i, |c: char| !spec_is_ws(c));
        if e > i {
            Some((s.subrange(i, e), e))
        } else {
            None
        }
    }
}

/// Reads a path token at index `i`.
pub fn parse_path(cv: &Vec<char>, i: usize) -> (r: Option<(String, usize)>)
    requires
        i <= cv@.len(),
    ensures
        match r {
            Some((p, next)) => spec_parse_path(cv@, i as int) == Some((p@, next as int)) && i < next
                <= cv@.len(),
            None => spec_parse_path(cv@, i as int) is None,
        },
{
    if i >= cv.len() {
        return None;
    }
    if cv[i] == '"' {
        match find_char(cv, i + 1, '"') {
            None => None,
            Some(j) => {
                if j > i + 1 {
                    let p = string_from_range(cv, i + 1, j);
                    Some((p, j + 1))
                } else {
                    None
                }
            },
        }
    } else {
        let e = token_end(cv, i);
        if e > i {
            let p = string_from_range(cv, i, e);
            Some((p, e))
        } else {
            None
        }
    }
}

/// The owned string holding the characters `cv[i..j)`.
#[verifier::loop_isolation(false)]
pub fn string_from_range(cv: &Vec<char>, i: usize, j: usize) -> (r: String)
    requires
        i <= j <= cv@.len(),
    ensures
        r@ == cv@.subrange(i as int, j as int),
{
    let mut out = String::new();
    let mut k = i;
    while k < j
        invariant
            i <= k <= j <= cv@.len(),
            out@ == cv@.subrange(i as int, k as int),
        decreases j - k,
    {
        push_char(&mut out, cv[k]);
        k = k + 1;
        proof {
            assert(out@ =~= cv@.subrange(i as int, k as int));
        }
    }
    proof {
        assert(out@ =~= cv@.subrange(i as int, j as int));
    }
    out
}

/// Appends one character to a string.
/// Relies on std's `String::push`: it appends exactly that character.
#[verifier::external_body]
pub fn push_char(s: &mut String, c: char)
    ensures
        final(s)@ == old(s)@.push(c),
{
    s.push(c);
}

/// Compares two string slices character for character.
#[verifier::loop_isolation(false)]
pub fn str_eq(a: &str, b: &str) -> (r: bool)
    ensures
        r == (a@ == b@),
{
    let na = a.unicode_len();
    let nb = b.unicode_len();
    if na != nb {
        proof {
            assert(a@.len() != b@.len());
        }
        return false;
    }
    let mut k: usize = 0;
    while k < na
        invariant
            k <= na,
            na == a@.len(),
            nb == b@.len(),
            na == nb,
            forall|m: int| 0 <= m < k ==> a@[m] == b@[m],
        decreases na - k,
    {
        if a.get_char(k) != b.get_char(k) {
            return false;
        }
        k = k + 1;
    }
    proof {
        assert(a@ =~= b@);
    }
    true
}

/// The path with its first `n` leading components removed, from `pos` on;
/// a path of fewer components strips to nothing.
pub open spec fn spec_strip_at(p: Seq<char>, pos: int, n: int) -> Seq<char>
    decreases n,
{
    if n <= 0 {
        p.skip(pos)
    } else {
        match spec_find_char(p, pos, '/') {
            Some(i) => spec_strip_at(p, i + 1, n - 1),
            None => Seq::empty(),
        }
    }
}

/// The path with its first `strip_level` leading components removed.
#[verifier::loop_isolation(false)]
pub fn path_stripped_of_n_levels(path: &str, strip_level: usize) -> (r: String)
    ensures
        r@ == spec_strip_at(path@, 0, strip_level as int),
{
    let cv = chars_of(path);
    let mut pos: usize = 0;
    let mut k: usize = 0;
    while k < strip_level
        invariant
            pos <= cv@.len(),
            k <= strip_level,
            spec_strip_at(cv@, 0, strip_level as int) == spec_strip_at(
                cv@,
                pos as int,
                (strip_level - k) as int,
            ),
        decreases strip_level - k,
    {
        match find_char(&cv, pos, '/') {
            Some(i) => {
                pos = i + 1;
            },
            None => {
                proof {
                    assert(spec_strip_at(cv@, pos as int, (strip_level - k) as int)
                        =~= Seq::<char>::empty());
                }
                return String::new();
            },
        }
        k = k + 1;
    }
    proof {
        assert(spec_strip_at(cv@, pos as int, 0) == cv@.skip(pos as int));
        assert(cv@.skip(pos as int) =~= cv@.subrange(pos as int, cv@.len() as int));
    }
    string_from_range(&cv, pos, cv.len())
}

/// The character of one decimal digit.
pub open spec fn spec_digit_char(d: int) -> char {
    if d == 0 {
        '0'
    } else if d == 1 {
        '1'
    } else if d == 2 {
        '2'
    } else if d == 3 {
        '3'
    } else if d == 4 {
        '4'
    } else if d == 5 {
        '5'
    } else if d == 6 {
        '6'
    } else if d == 7 {
        '7'
    } else if d == 8 {
        '8'
    } else {
        '9'
    }
}

/// The decimal rendering of a number, most significant digit first.
pub open spec fn spec_decimal(n: int) -> Seq<char>
    decreases n,
{
    if n < 10 {
        seq![spec_digit_char(if n >= 0 {
            n
        } else {
            0
        })]
    } else {
        spec_decimal(n / 10).push(spec_digit_char(n % 10))
    }
}

fn digit_char(d: usize) -> (r: char)
    requires
        d < 10,
    ensures
        r == spec_digit_char(d as int),
{
    if d == 0 {
        '0'
    } else if d == 1 {
        '1'
    } else if d == 2 {
        '2'
    } else if d == 3 {
        '3'
    } else if d == 4 {
        '4'
    } else if d == 5 {
        '5'
    } else if d == 6 {
        '6'
    } else if d == 7 {
        '7'
    } else if d == 8 {
        '8'
    } else {
        '9'
    }
}

/// Renders a number in decimal.
#[verifier::loop_isolation(false)]
pub fn usize_to_decimal(n: usize) -> (r: String)
    ensures
        r@ == spec_decimal(n as int),
{
    let mut buf: Vec<char> = Vec::new();
    let mut m = n;
    let mut done = false;
    while !done
        invariant
            done ==> spec_decimal(n as int) =~= buf@,
            !done ==> spec_decimal(n as int) =~= spec_decimal(m as int) + buf@,
        decreases m, (if done {
            0int
        } else {
            1int
        }),
    {
        let d = m % 10;
        let ghost m0 = m as int;
        let ghost buf0 = buf@;
        buf.insert(0, digit_char(d));
        proof {
            assert(buf@ =~= seq![spec_digit_char(d as int)] + buf0);
        }
        if m < 10 {
            done = true;
            proof {
                assert(spec_decimal(m0) =~= seq![spec_digit_char(d as int)]);
                assert(spec_decimal(n as int) =~= buf@);
            }
        } else {
            m = m / 10;
            proof {
                assert(spec_decimal(m0) == spec_decimal(m0 / 10).push(spec_digit_char(m0 % 10)));
                assert(spec_decimal(m0 / 10).push(spec_digit_char(m0 % 10)) + buf0
                    =~= spec_decimal(m as int) + buf@);
                assert(spec_decimal(n as int) =~= spec_decimal(m as int) + buf@);
            }
        }
    }
    string_from_range(&buf, 0, buf.len())
}

} // verus!
