//! The base-85 line encoding used for embedded binary payloads: four bytes
//! are packed big-endian into a 32-bit accumulator and written as five
//! symbols of an 85-character alphabet.

use vstd::arithmetic::div_mod::{
    lemma_div_denominator, lemma_fundamental_div_mod, lemma_fundamental_div_mod_converse,
    lemma_mod_bound, lemma_multiply_divide_lt, lemma_small_mod,
};
use vstd::prelude::*;
use vstd::string::StrSliceExecFns;
use vstd::string::StringSliceAdditionalSpecFns;

use crate::text_diff::{DiffParseError, DiffParseResult};
use crate::DiffFormat;

verus! {

/// The symbol standing for a digit value `0 <= d < 85`, in the fixed
/// alphabet order `0-9 A-Z a-z ! # $ % & ( ) * + - ; < = > ? @ ^ _ ` { | } ~`.
#[verifier::opaque]
pub open spec fn spec_enc85(d: int) -> u8 {
    if 0 <= d <= 9 {
        (48 + d) as u8  // '0'..='9'
    } else if 10 <= d <= 35 {
        (65 + d - 10) as u8  // 'A'..='Z'
    } else if 36 <= d <= 61 {
        (97 + d - 36) as u8  // 'a'..='z'
    } else if d == 62 {
        33u8  // '!'
    } else if d == 63 {
        35u8  // '#'
    } else if d == 64 {
        36u8  // '$'
    } else if d == 65 {
        37u8  // '%'
    } else if d == 66 {
        38u8  // '&'
    } else if d == 67 {
        40u8  // '('
    } else if d == 68 {
        41u8  // ')'
    } else if d == 69 {
        42u8  // '*'
    } else if d == 70 {
        43u8  // '+'
    } else if d == 71 {
        45u8  // '-'
    } else if d == 72 {
        59u8  // ';'
    } else if d == 73 {
        60u8  // '<'
    } else if d == 74 {
        61u8  // '='
    } else if d == 75 {
        62u8  // '>'
    } else if d == 76 {
        63u8  // '?'
    } else if d == 77 {
        64u8  // '@'
    } else if d == 78 {
        94u8  // '^'
    } else if d == 79 {
        95u8  // '_'
    } else if d == 80 {
        96u8  // '`'
    } else if d == 81 {
        123u8  // '{'
    } else if d == 82 {
        124u8  // '|'
    } else if d == 83 {
        125u8  // '}'
    } else {
        126u8  // '~'
    }
}

/// The digit value of an alphabet symbol, `None` outside the alphabet.
#[verifier::opaque]
pub open spec fn spec_dec85(b: u8) -> Option<int> {
    if 48 <= b <= 57 {
        Some((b - 48) as int)
    } else if 65 <= b <= 90 {
        Some((b - 65 + 10) as int)
    } else if 97 <= b <= 122 {
        Some((b - 97 + 36) as int)
    } else if b == 33 {
        Some(62int)
    } else if b == 35 {
        Some(63int)
    } else if b == 36 {
        Some(64int)
    } else if b == 37 {
        Some(65int)
    } else if b == 38 {
        Some(66int)
    } else if b == 40 {
        Some(67int)
    } else if b == 41 {
        Some(68int)
    } else if b == 42 {
        Some(69int)
    } else if b == 43 {
        Some(70int)
    } else if b == 45 {
        Some(71int)
    } else if b == 59 {
        Some(72int)
    } else if b == 60 {
        Some(73int)
    } else if b == 61 {
        Some(74int)
    } else if b == 62 {
        Some(75int)
    } else if b == 63 {
        Some(76int)
    } else if b == 64 {
        Some(77int)
    } else if b == 94 {
        Some(78int)
    } else if b == 95 {
        Some(79int)
    } else if b == 96 {
        Some(80int)
    } else if b == 123 {
        Some(81int)
    } else if b == 124 {
        Some(82int)
    } else if b == 125 {
        Some(83int)
    } else if b == 126 {
        Some(84int)
    } else {
        None
    }
}

/// The alphabet is decodable: decoding an encoded digit gives it back.
pub proof fn lemma_enc_dec(d: int)
    requires
        0 <= d < 85,
    ensures
        spec_dec85(spec_enc85(d)) == Some(d),
{
    reveal(spec_enc85);
    reveal(spec_dec85);
}

/// The byte at `i`, or zero past the end: the zero padding of the last
/// group.
pub open spec fn spec_boz(data: Seq<u8>, i: int) -> int {
    if 0 <= i < data.len() {
        data[i] as int
    } else {
        0
    }
}

/// The 32-bit accumulator of the group that starts at the head of `data`.
pub open spec fn spec_group_val(data: Seq<u8>) -> int {
    spec_boz(data, 0) * 16777216 + spec_boz(data, 1) * 65536 + spec_boz(data, 2) * 256 + spec_boz(
        data,
        3,
    )
}

/// The five alphabet symbols of one accumulator, most significant first.
pub open spec fn spec_group_digits(v: int) -> Seq<u8> {
    seq![
        spec_enc85((v / 52200625) % 85),
        spec_enc85((v / 614125) % 85),
        spec_enc85((v / 7225) % 85),
        spec_enc85((v / 85) % 85),
        spec_enc85(v % 85),
    ]
}

/// The whole encoding: five symbols for each group of up to four bytes.
pub open spec fn spec_encode85(data: Seq<u8>) -> Seq<u8>
    decreases data.len(),
{
    if data.len() == 0 {
        Seq::empty()
    } else {
        let step = if data.len() >= 4 {
            4int
        } else {
            data.len() as int
        };
        spec_group_digits(spec_group_val(data)) + spec_encode85(data.skip(step))
    }
}

/// Folds symbols into an accumulator: `acc * 85 + digit` for each one, and
/// `None` on the first symbol outside the alphabet.
pub open spec fn spec_acc85(chars: Seq<u8>, acc: int) -> Option<int>
    decreases chars.len(),
{
    if chars.len() == 0 {
        Some(acc)
    } else {
        match spec_dec85(chars[0]) {
            None => None,
            Some(d) => spec_acc85(chars.skip(1), acc * 85 + d),
        }
    }
}

/// Byte `j` (0-based, big-endian) of a 32-bit accumulator.
pub open spec fn spec_byte_of(v: int, j: int) -> u8 {
    if j == 0 {
        ((v / 16777216) % 256) as u8
    } else if j == 1 {
        ((v / 65536) % 256) as u8
    } else if j == 2 {
        ((v / 256) % 256) as u8
    } else {
        (v % 256) as u8
    }
}

/// The first `k` bytes of a 32-bit accumulator, big-endian.
pub open spec fn spec_group_bytes(v: int, k: int) -> Seq<u8> {
    Seq::new(k as nat, |j: int| spec_byte_of(v, j))
}

/// The whole decoding of `size` bytes from an encoded symbol stream: each
/// group of up to five symbols is folded into an accumulator, which fails
/// above 32 bits, and up to four bytes are taken from it.
pub open spec fn spec_decode85(string: Seq<u8>, size: int) -> Option<Seq<u8>>
    decreases size,
{
    if size <= 0 {
        Some(Seq::empty())
    } else {
        let g = if string.len() < 5 {
            string.len() as int
        } else {
            5int
        };
        match spec_acc85(string.take(g), 0) {
            None => None,
            Some(acc) => {
                if acc > 0xFFFF_FFFF {
                    None
                } else {
                    let k = if size < 4 {
                        size
                    } else {
                        4int
                    };
                    match spec_decode85(string.skip(g), size - k) {
                        None => None,
                        Some(rest) => Some(spec_group_bytes(acc, k) + rest),
                    }
                }
            },
        }
    }
}

/// The encoded form of a byte stream, with the original byte count.
pub struct Encoding {
    pub string: Vec<u8>,
    pub size: usize,
}

fn enc85_byte(d: u64) -> (r: u8)
    requires
        d < 85,
    ensures
        r == spec_enc85(d as int),
{
    proof {
        reveal(spec_enc85);
    }
    if d <= 9 {
        48 + d as u8
    } else if d <= 35 {
        65 + d as u8 - 10
    } else if d <= 61 {
        97 + d as u8 - 36
    } else if d == 62 {
        33
    } else if d == 63 {
        35
    } else if d == 64 {
        36
    } else if d == 65 {
        37
    } else if d == 66 {
        38
    } else if d == 67 {
        40
    } else if d == 68 {
        41
    } else if d == 69 {
        42
    } else if d == 70 {
        43
    } else if d == 71 {
        45
    } else if d == 72 {
        59
    } else if d == 73 {
        60
    } else if d == 74 {
        61
    } else if d == 75 {
        62
    } else if d == 76 {
        63
    } else if d == 77 {
        64
    } else if d == 78 {
        94
    } else if d == 79 {
        95
    } else if d == 80 {
        96
    } else if d == 81 {
        123
    } else if d == 82 {
        124
    } else if d == 83 {
        125
    } else {
        126
    }
}

fn dec85_byte(b: u8) -> (r: Option<u8>)
    ensures
        match r {
            Some(d) => spec_dec85(b) == Some(d as int) && d < 85,
            None => spec_dec85(b) is None,
        },
{
    proof {
        reveal(spec_dec85);
    }
    if 48 <= b && b <= 57 {
        Some(b - 48)
    } else if 65 <= b && b <= 90 {
        Some(b - 65 + 10)
    } else if 97 <= b && b <= 122 {
        Some(b - 97 + 36)
    } else if b == 33 {
        Some(62)
    } else if b == 35 {
        Some(63)
    } else if b == 36 {
        Some(64)
    } else if b == 37 {
        Some(65)
    } else if b == 38 {
        Some(66)
    } else if b == 40 {
        Some(67)
    } else if b == 41 {
        Some(68)
    } else if b == 42 {
        Some(69)
    } else if b == 43 {
        Some(70)
    } else if b == 45 {
        Some(71)
    } else if b == 59 {
        Some(72)
    } else if b == 60 {
        Some(73)
    } else if b == 61 {
        Some(74)
    } else if b == 62 {
        Some(75)
    } else if b == 63 {
        Some(76)
    } else if b == 64 {
        Some(77)
    } else if b == 94 {
        Some(78)
    } else if b == 95 {
        Some(79)
    } else if b == 96 {
        Some(80)
    } else if b == 123 {
        Some(81)
    } else if b == 124 {
        Some(82)
    } else if b == 125 {
        Some(83)
    } else if b == 126 {
        Some(84)
    } else {
        None
    }
}

/// Encodes a byte stream: groups of four bytes, zero-padded at the end, each
/// written as five alphabet symbols.
/// Appends the five symbols of one accumulator to the output.
fn push_group(string: &mut Vec<u8>, acc: u64)
    requires
        acc <= 0xFFFF_FFFF,
    ensures
        final(string)@ == old(string)@ + spec_group_digits(acc as int),
{
    proof {
        lemma_mod_bound(acc as int / 52200625, 85);
        lemma_mod_bound(acc as int / 614125, 85);
        lemma_mod_bound(acc as int / 7225, 85);
        lemma_mod_bound(acc as int / 85, 85);
        lemma_mod_bound(acc as int, 85);
    }
    let ghost before = string@;
    string.push(enc85_byte((acc / 52200625) % 85));
    string.push(enc85_byte((acc / 614125) % 85));
    string.push(enc85_byte((acc / 7225) % 85));
    string.push(enc85_byte((acc / 85) % 85));
    string.push(enc85_byte(acc % 85));
    proof {
        assert(string@ =~= before + spec_group_digits(acc as int));
    }
}

/// Packs and writes the one group that starts at `index`; returns how many
/// bytes it consumed.
fn encode_group(string: &mut Vec<u8>, data: &[u8], index: usize) -> (step: usize)
    requires
        index < data@.len(),
    ensures
        final(string)@ == old(string)@ + spec_group_digits(spec_group_val(data@.skip(index as int))),
        1 <= step,
        index + step <= data@.len(),
        step == if data@.len() - index >= 4 {
            4int
        } else {
            data@.len() - index
        },
{
    let ghost rest = data@.skip(index as int);
    let b0 = data[index] as u64;
    let b1 = if data.len() - index > 1 {
        data[index + 1] as u64
    } else {
        0
    };
    let b2 = if data.len() - index > 2 {
        data[index + 2] as u64
    } else {
        0
    };
    let b3 = if data.len() - index > 3 {
        data[index + 3] as u64
    } else {
        0
    };
    let acc: u64 = b0 * 16777216 + b1 * 65536 + b2 * 256 + b3;
    proof {
        assert(acc as int == spec_group_val(rest));
    }
    push_group(string, acc);
    if data.len() - index >= 4 {
        4
    } else {
        data.len() - index
    }
}

/// Encodes a byte stream: groups of four bytes, zero-padded at the end, each
/// written as five alphabet symbols.
pub fn encode(data: &[u8]) -> (r: Encoding)
    ensures
        r.string@ == spec_encode85(data@),
        r.size == data@.len(),
{
    let mut string: Vec<u8> = Vec::new();
    let mut index: usize = 0;
    proof {
        assert(data@.skip(0) =~= data@);
    }
    while index < data.len()
        invariant
            index <= data@.len(),
            spec_encode85(data@) == string@ + spec_encode85(data@.skip(index as int)),
        decreases data@.len() - index,
    {
        let ghost rest = data@.skip(index as int);
        let ghost before = string@;
        let step = encode_group(&mut string, data, index);
        index = index + step;
        proof {
            assert(rest.skip(step as int) =~= data@.skip(index as int));
            assert(spec_encode85(rest) == spec_group_digits(spec_group_val(rest)) + spec_encode85(
                data@.skip(index as int),
            ));
            assert(string@ + spec_encode85(data@.skip(index as int)) =~= spec_encode85(data@));
        }
    }
    proof {
        assert(spec_encode85(data@.skip(index as int)) =~= Seq::<u8>::empty());
        assert(spec_encode85(data@) =~= string@);
    }
    Encoding { string, size: data.len() }
}

#[verifier::loop_isolation(false)]
#[verifier::rlimit(100)]
pub fn decode(encoding: &Encoding) -> (r: DiffParseResult<Vec<u8>>)
    ensures
        match r {
            Ok(v) => spec_decode85(encoding.string@, encoding.size as int) == Some(v@),
            Err(e) => spec_decode85(encoding.string@, encoding.size as int) is None && (e matches
                DiffParseError::Base85Error(_)),
        },
{
    let size = encoding.size;
    let string_len = encoding.string.len();
    let mut out: Vec<u8> = Vec::new();
    let mut d_index: usize = 0;
    let mut s_index: usize = 0;
    proof {
        assert(encoding.string@.skip(0) =~= encoding.string@);
    }
    while d_index < size
        invariant
            d_index <= size,
            s_index <= string_len,
            string_len == encoding.string@.len(),
            spec_decode85(encoding.string@, size as int) == (match spec_decode85(
                encoding.string@.skip(s_index as int),
                size - d_index,
            ) {
                None => None::<Seq<u8>>,
                Some(rest) => Some(out@ + rest),
            }),
        decreases size - d_index,
    {
        let ghost suffix = encoding.string@.skip(s_index as int);
        let s0 = s_index;
        let g = if string_len - s0 < 5 {
            string_len - s0
        } else {
            5
        };
        let ghost group = suffix.take(g as int);
        let mut acc: u64 = 0;
        let mut j: usize = 0;
        proof {
            assert(group.skip(0) =~= group);
        }
        while j < g
            invariant
                j <= g,
                g <= 5,
                s0 + g <= string_len,
                s_index == s0,
                string_len == encoding.string@.len(),
                group == encoding.string@.skip(s0 as int).take(g as int),
                acc <= 4437053124,
                j == 0 ==> acc == 0,
                j == 1 ==> acc <= 84,
                j == 2 ==> acc <= 7224,
                j == 3 ==> acc <= 614124,
                j == 4 ==> acc <= 52200624,
                spec_acc85(group, 0) == spec_acc85(group.skip(j as int), acc as int),
            decreases g - j,
        {
            let ch = encoding.string[s0 + j];
            proof {
                assert(group.skip(j as int)[0] == encoding.string@[s0 + j]);
            }
            match dec85_byte(ch) {
                Some(d) => {
                    proof {
                        assert(group.skip(j as int).skip(1) =~= group.skip(j as int + 1));
                    }
                    acc = acc * 85 + d as u64;
                },
                None => {
                    proof {
                        assert(spec_acc85(group.skip(j as int), acc as int) is None);
                        assert(spec_acc85(group, 0) is None);
                        assert(spec_decode85(suffix, size - d_index) is None);
                    }
                    return Err(
                        DiffParseError::Base85Error("Illegal git base 85 character".to_owned()),
                    );
                },
            }
            j = j + 1;
        }
        proof {
            assert(group.skip(g as int) =~= Seq::<u8>::empty());
            assert(spec_acc85(group, 0) == Some(acc as int));
        }
        if acc > 0xFFFF_FFFF {
            proof {
                assert(spec_decode85(suffix, size - d_index) is None);
            }
            return Err(DiffParseError::Base85Error("base85 accumulator overflow".to_owned()));
        }
        let ghost d0 = d_index as int;
        let ghost out0 = out@;
        let k = if size - d_index < 4 {
            size - d_index
        } else {
            4
        };
        if d_index < size {
            out.push(((acc / 16777216) % 256) as u8);
            d_index = d_index + 1;
        }
        if d_index < size && 1 < k {
            out.push(((acc / 65536) % 256) as u8);
            d_index = d_index + 1;
        }
        if d_index < size && 2 < k {
            out.push(((acc / 256) % 256) as u8);
            d_index = d_index + 1;
        }
        if d_index < size && 3 < k {
            out.push((acc % 256) as u8);
            d_index = d_index + 1;
        }
        s_index = s0 + g;
        proof {
            assert(d_index == d0 + k);
            assert(out@ =~= out0 + spec_group_bytes(acc as int, k as int));
            assert(suffix.skip(g as int) =~= encoding.string@.skip(s_index as int));
        }
    }
    proof {
        assert(spec_decode85(encoding.string@.skip(s_index as int), 0) == Some(Seq::<u8>::empty()));
        assert(out@ + Seq::<u8>::empty() =~= out@);
    }
    Ok(out)
}

/// The size letter of a payload line: `A-Z` stand for 0 to 25 and `a-z` for
/// 26 to 51 decoded bytes.
pub open spec fn spec_decode_size(ch: u8) -> Option<int> {
    if 65 <= ch <= 90 {
        Some((ch - 65) as int)
    } else if 97 <= ch <= 122 {
        Some((ch - 97 + 26) as int)
    } else {
        None
    }
}

pub fn decode_size(ch: u8) -> (r: DiffParseResult<usize>)
    ensures
        match r {
            Ok(sz) => spec_decode_size(ch) == Some(sz as int),
            Err(e) => spec_decode_size(ch) is None && (e matches DiffParseError::UnexpectedInput(
                DiffFormat::GitBinary,
                _,
            )),
        },
{
    if 65 <= ch && ch <= 90 {
        Ok((ch - 65) as usize)
    } else if 97 <= ch && ch <= 122 {
        Ok((ch - 97 + 26) as usize)
    } else {
        Err(
            DiffParseError::UnexpectedInput(
                DiffFormat::GitBinary,
                "expected char in range [azAZ]".to_owned(),
            ),
        )
    }
}

/// White space as trimmed from the tail of a payload line.
pub open spec fn spec_is_ws_byte(b: u8) -> bool {
    b == 32 || b == 9 || b == 10 || b == 13 || b == 11 || b == 12
}

/// A byte stream without its trailing white space.
pub open spec fn spec_trim_end(s: Seq<u8>) -> Seq<u8>
    decreases s.len(),
{
    if s.len() > 0 && spec_is_ws_byte(s.last()) {
        spec_trim_end(s.drop_last())
    } else {
        s
    }
}

/// The decoding of one payload line: trailing white space is dropped, the
/// first byte gives the decoded size, the rest is the base-85 payload.
pub open spec fn spec_decode_line(s: Seq<u8>) -> Option<Seq<u8>> {
    let t = spec_trim_end(s);
    if t.len() == 0 {
        None
    } else {
        match spec_decode_size(t[0]) {
            None => None,
            Some(sz) => spec_decode85(t.skip(1), sz),
        }
    }
}

fn is_ws_byte(b: u8) -> (r: bool)
    ensures
        r == spec_is_ws_byte(b),
{
    b == 32 || b == 9 || b == 10 || b == 13 || b == 11 || b == 12
}

/// Decodes one payload line: size letter first, then exactly that many
/// bytes of base-85 content.
#[verifier::loop_isolation(false)]
pub fn decode_line(line: &str) -> (r: DiffParseResult<Vec<u8>>)
    ensures
        match r {
            Ok(v) => spec_decode_line(line.spec_bytes()) == Some(v@),
            Err(e) => spec_decode_line(line.spec_bytes()) is None && ((e matches
                DiffParseError::UnexpectedInput(DiffFormat::GitBinary, _)) || (e matches
                DiffParseError::Base85Error(_))),
        },
{
    let mut bytes = line.as_bytes_vec();
    while bytes.len() > 0 && is_ws_byte(bytes[bytes.len() - 1])
        invariant
            spec_trim_end(line.spec_bytes()) == spec_trim_end(bytes@),
        decreases bytes@.len(),
    {
        let ghost before = bytes@;
        bytes.pop();
        proof {
            assert(bytes@ =~= before.drop_last());
        }
    }
    proof {
        assert(spec_trim_end(bytes@) == bytes@);
    }
    if bytes.len() == 0 {
        return Err(
            DiffParseError::UnexpectedInput(DiffFormat::GitBinary, "empty payload line".to_owned()),
        );
    }
    let size = match decode_size(bytes[0]) {
        Ok(sz) => sz,
        Err(e) => {
            return Err(e);
        },
    };
    let mut payload = bytes;
    let first = payload.remove(0);
    proof {
        assert(payload@ =~= spec_trim_end(line.spec_bytes()).skip(1));
    }
    let encoding = Encoding { string: payload, size };
    decode(&encoding)
}

/// The byte streams of a sequence of lines.
pub open spec fn spec_lines_bytes(ls: Seq<Seq<char>>) -> Seq<Seq<u8>> {
    Seq::new(ls.len(), |i: int| vstd::utf8::encode_utf8(ls[i]))
}

/// The concatenated decoding of a sequence of payload lines.
pub open spec fn spec_decode_lines(ls: Seq<Seq<u8>>) -> Option<Seq<u8>>
    decreases ls.len(),
{
    if ls.len() == 0 {
        Some(Seq::empty())
    } else {
        match spec_decode_line(ls[0]) {
            None => None,
            Some(v) => match spec_decode_lines(ls.skip(1)) {
                None => None,
                Some(rest) => Some(v + rest),
            },
        }
    }
}

/// Decodes a sequence of payload lines into one byte stream.
#[verifier::loop_isolation(false)]
pub fn decode_lines(lines: &[String]) -> (r: DiffParseResult<Vec<u8>>)
    ensures
        match r {
            Ok(v) => spec_decode_lines(spec_lines_bytes(lines.deep_view())) == Some(v@),
            Err(e) => spec_decode_lines(spec_lines_bytes(lines.deep_view())) is None && ((e matches
                DiffParseError::UnexpectedInput(DiffFormat::GitBinary, _)) || (e matches
                DiffParseError::Base85Error(_))),
        },
{
    let ghost all = spec_lines_bytes(lines.deep_view());
    let mut data: Vec<u8> = Vec::new();
    let mut i: usize = 0;
    proof {
        assert(all.skip(0) =~= all);
        if spec_decode_lines(all) is Some {
            assert(data@ + spec_decode_lines(all)->Some_0 =~= spec_decode_lines(all)->Some_0);
        }
    }
    while i < lines.len()
        invariant
            i <= lines@.len(),
            all == spec_lines_bytes(lines.deep_view()),
            spec_decode_lines(all) == (match spec_decode_lines(
                spec_lines_bytes(lines.deep_view()).skip(i as int),
            ) {
                None => None::<Seq<u8>>,
                Some(rest) => Some(data@ + rest),
            }),
        decreases lines@.len() - i,
    {
        let ghost sub = all.skip(i as int);
        let line = &lines[i];
        proof {
            assert(sub[0] == vstd::utf8::encode_utf8(lines.deep_view()[i as int]));
            assert(lines.deep_view()[i as int] == lines@[i as int]@);
        }
        match decode_line(line.as_str()) {
            Ok(piece) => {
                let ghost before = data@;
                let ghost pv = piece@;
                let mut p = piece;
                data.append(&mut p);
                proof {
                    assert(sub.skip(1) =~= all.skip(i as int + 1));
                    assert(data@ == before + pv);
                    if spec_decode_lines(all.skip(i as int + 1)) is Some {
                        let rest = spec_decode_lines(all.skip(i as int + 1))->Some_0;
                        assert(before + (pv + rest) =~= (before + pv) + rest);
                    }
                }
            },
            Err(e) => {
                proof {
                    assert(spec_decode_lines(sub) is None);
                }
                return Err(e);
            },
        }
        i = i + 1;
    }
    proof {
        assert(all.skip(i as int) =~= Seq::<Seq<u8>>::empty());
        assert(data@ + Seq::<u8>::empty() =~= data@);
    }
    Ok(data)
}

// ---- the round-trip law: decoding an encoding gives the bytes back ----

/// The five digits of a 32-bit accumulator fold back into it.
#[verifier::rlimit(100)]
proof fn lemma_digits_fold(v: int)
    requires
        0 <= v < 4437053125,
    ensures
        spec_acc85(spec_group_digits(v), 0) == Some(v),
{
    reveal_with_fuel(spec_acc85, 7);
    let q1 = v / 85;
    let q2 = v / 7225;
    let q3 = v / 614125;
    let q4 = v / 52200625;
    lemma_div_denominator(v, 85, 85);
    assert(q1 / 85 == q2);
    lemma_div_denominator(v, 7225, 85);
    assert(q2 / 85 == q3);
    lemma_div_denominator(v, 614125, 85);
    assert(q3 / 85 == q4);
    lemma_multiply_divide_lt(v, 52200625, 85);
    assert(q4 < 85);
    lemma_fundamental_div_mod(v, 85);
    lemma_fundamental_div_mod(q1, 85);
    lemma_fundamental_div_mod(q2, 85);
    lemma_fundamental_div_mod(q3, 85);
    lemma_small_mod(q4 as nat, 85);
    lemma_mod_bound(v, 85);
    lemma_mod_bound(q1, 85);
    lemma_mod_bound(q2, 85);
    lemma_mod_bound(q3, 85);
    let d0 = q4 % 85;
    let d1 = q3 % 85;
    let d2 = q2 % 85;
    let d3 = q1 % 85;
    let d4 = v % 85;
    lemma_enc_dec(d0);
    lemma_enc_dec(d1);
    lemma_enc_dec(d2);
    lemma_enc_dec(d3);
    lemma_enc_dec(d4);
    let gd = spec_group_digits(v);
    assert(gd.skip(1) =~= seq![
        spec_enc85(d1),
        spec_enc85(d2),
        spec_enc85(d3),
        spec_enc85(d4),
    ]);
    assert(gd.skip(1).skip(1) =~= seq![spec_enc85(d2), spec_enc85(d3), spec_enc85(d4)]);
    assert(gd.skip(1).skip(1).skip(1) =~= seq![spec_enc85(d3), spec_enc85(d4)]);
    assert(gd.skip(1).skip(1).skip(1).skip(1) =~= seq![spec_enc85(d4)]);
    assert(gd.skip(1).skip(1).skip(1).skip(1).skip(1) =~= Seq::<u8>::empty());
    assert(d0 * 85 + d1 == q3);
    assert(q3 * 85 + d2 == q2);
    assert(q2 * 85 + d3 == q1);
    assert(q1 * 85 + d4 == v);
    assert(spec_acc85(gd, 0) == Some(v));
}

/// The big-endian bytes of a group accumulator are the group's own bytes.
proof fn lemma_group_bytes_of_val(b0: int, b1: int, b2: int, b3: int)
    requires
        0 <= b0 < 256,
        0 <= b1 < 256,
        0 <= b2 < 256,
        0 <= b3 < 256,
    ensures
        ({
            let v = b0 * 16777216 + b1 * 65536 + b2 * 256 + b3;
            &&& (v / 16777216) % 256 == b0
            &&& (v / 65536) % 256 == b1
            &&& (v / 256) % 256 == b2
            &&& v % 256 == b3
        }),
{
    let v = b0 * 16777216 + b1 * 65536 + b2 * 256 + b3;
    lemma_fundamental_div_mod_converse(v, 16777216, b0, b1 * 65536 + b2 * 256 + b3);
    lemma_small_mod(b0 as nat, 256);
    lemma_fundamental_div_mod_converse(v, 65536, b0 * 256 + b1, b2 * 256 + b3);
    lemma_fundamental_div_mod_converse(b0 * 256 + b1, 256, b0, b1);
    lemma_fundamental_div_mod_converse(v, 256, b0 * 65536 + b1 * 256 + b2, b3);
    lemma_fundamental_div_mod_converse(b0 * 65536 + b1 * 256 + b2, 256, b0 * 256 + b1, b2);
}

/// Decoding an encoding yields exactly the original byte stream.
pub proof fn lemma_base85_round_trip(data: Seq<u8>)
    ensures
        spec_decode85(spec_encode85(data), data.len() as int) == Some(data),
    decreases data.len(),
{
    if data.len() == 0 {
        assert(spec_decode85(spec_encode85(data), 0) == Some(Seq::<u8>::empty()));
        assert(data =~= Seq::<u8>::empty());
    } else {
        let step = if data.len() >= 4 {
            4int
        } else {
            data.len() as int
        };
        let v = spec_group_val(data);
        let gd = spec_group_digits(v);
        let rest = data.skip(step);
        let enc = spec_encode85(data);
        assert(enc == gd + spec_encode85(rest));
        lemma_base85_round_trip(rest);
        assert(enc.len() >= 5);
        assert(enc.take(5) =~= gd);
        assert(enc.skip(5) =~= spec_encode85(rest));
        assert(0 <= v < 4437053125);
        lemma_digits_fold(v);
        lemma_group_bytes_of_val(
            spec_boz(data, 0),
            spec_boz(data, 1),
            spec_boz(data, 2),
            spec_boz(data, 3),
        );
        let k = if (data.len() as int) < 4 {
            data.len() as int
        } else {
            4int
        };
        assert(k == step);
        assert(spec_group_bytes(v, k) =~= data.take(k));
        assert(rest.len() == data.len() - k);
        assert(spec_decode85(enc, data.len() as int) == Some(data.take(k) + rest));
        assert(data.take(k) + rest =~= data);
    }
}

} // verus!
