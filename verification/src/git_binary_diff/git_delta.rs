//! The copy/insert delta replay engine: reconstructs a target byte buffer
//! from a source buffer and a delta opcode stream.

use vstd::prelude::*;

verus! {

/// Everything that can go wrong while replaying a delta stream.
#[derive(Debug)]
pub enum DeltaError {
    PatchError(String),
    EmptyBuffer,
    EmptySourceBuffer,
    EmptyTargetBuffer,
    InvalidDelta,
    InvalidSourceSize,
}

/// The fault classes a replay can end in, as the specification sees them.
pub enum DeltaFault {
    Invalid,
    SourceSize,
    Patch,
}

/// A size header: little-endian 7-bit groups, continuation bit `0x80`.
/// Returns the value and the index just past the header.
pub open spec fn spec_varint(d: Seq<u8>, i: int, multiplier: int, acc: int) -> Option<(int, int)>
    decreases d.len() - i,
{
    if i < 0 || i >= d.len() {
        None
    } else {
        let cmd = d[i] as int;
        let acc2 = acc + (cmd % 128) * multiplier;
        if cmd >= 128 {
            spec_varint(d, i + 1, multiplier * 128, acc2)
        } else {
            Some((acc2, i + 1))
        }
    }
}

/// One optional little-endian byte of a copy opcode: read when `flag` holds,
/// scaled by its position's multiplier.
pub open spec fn spec_opt_byte(d: Seq<u8>, j: int, flag: bool, multiplier: int) -> Option<
    (int, int),
>// (contribution of this byte, next index)
 {
    if !flag {
        Some((0, j))
    } else if 0 <= j < d.len() {
        Some((d[j] * multiplier, j + 1))
    } else {
        None
    }
}

/// The multiplier of operand stage `k`: stages 0 to 3 are the four
/// little-endian offset bytes, stages 4 to 6 the three size bytes.
pub open spec fn spec_stage_multiplier(k: int) -> int {
    if k == 0 || k == 4 {
        1
    } else if k == 1 || k == 5 {
        256
    } else if k == 2 || k == 6 {
        65536
    } else {
        16777216
    }
}

/// The bit of `cmd` that selects operand stage `k`.
pub open spec fn spec_stage_flag(cmd: int, k: int) -> bool {
    if k == 0 {
        cmd % 2 == 1
    } else if k == 1 {
        (cmd / 2) % 2 == 1
    } else if k == 2 {
        (cmd / 4) % 2 == 1
    } else if k == 3 {
        (cmd / 8) % 2 == 1
    } else if k == 4 {
        (cmd / 16) % 2 == 1
    } else if k == 5 {
        (cmd / 32) % 2 == 1
    } else {
        (cmd / 64) % 2 == 1
    }
}

/// Reads the operand stages `k` to 6 of a copy opcode; a size of zero at
/// the end stands for `0x10000`.
pub open spec fn spec_copy_stage(
    d: Seq<u8>,
    cmd: int,
    k: int,
    j: int,
    off: int,
    size: int,
) -> Option<(int, int, int)>
    decreases 7 - k,
{
    if k >= 7 {
        Some(
            (
                off,
                if size == 0 {
                    65536int
                } else {
                    size
                },
                j,
            ),
        )
    } else {
        match spec_opt_byte(d, j, spec_stage_flag(cmd, k), spec_stage_multiplier(k)) {
            None => None,
            Some((v, j2)) => {
                if k <= 3 {
                    spec_copy_stage(d, cmd, k + 1, j2, off + v, size)
                } else {
                    spec_copy_stage(d, cmd, k + 1, j2, off, size + v)
                }
            },
        }
    }
}

/// The copy opcode's offset and size operands: bits 0 to 3 of `cmd` select
/// the four offset bytes, bits 4 to 6 the three size bytes; a size of zero
/// stands for `0x10000`.
pub open spec fn spec_copy_op(d: Seq<u8>, i: int, cmd: int) -> Option<(int, int, int)> {
    spec_copy_stage(d, cmd, 0, i, 0, 0)
}

/// The opcode loop: copies from the source or inserts delta bytes until the
/// stream ends or an insert no longer fits the expected size (a stop).
/// Returns the output built so far and the index the loop stopped at.
pub open spec fn spec_delta_ops(
    source: Seq<u8>,
    d: Seq<u8>,
    i: int,
    expected: int,
    out: Seq<u8>,
) -> Option<(Seq<u8>, int)>
    decreases d.len() - i,
{
    if i < 0 {
        None
    } else if i >= d.len() {
        Some((out, i))
    } else {
        let cmd = d[i] as int;
        if cmd >= 128 {
            match spec_copy_op(d, i + 1, cmd) {
                None => None,
                Some((cp_offset, cp_size, next)) => {
                    if cp_offset + cp_size <= source.len() && i < next <= d.len() {
                        spec_delta_ops(
                            source,
                            d,
                            next,
                            expected,
                            out + source.subrange(cp_offset, cp_offset + cp_size),
                        )
                    } else {
                        None
                    }
                },
            }
        } else if cmd != 0 {
            if cmd > expected - out.len() {
                Some((out, i))
            } else if i + 1 + cmd > d.len() {
                None
            } else {
                spec_delta_ops(source, d, i + 1 + cmd, expected, out + d.subrange(i + 1, i + 1
                    + cmd))
            }
        } else {
            None
        }
    }
}

/// The whole replay: both size headers, the opcode loop, and the final
/// checks that the delta was consumed and the expected size reached.
pub open spec fn spec_patch_delta(source: Seq<u8>, d: Seq<u8>) -> Result<Seq<u8>, DeltaFault> {
    if d.len() < 4 {
        Err(DeltaFault::Invalid)
    } else {
        match spec_varint(d, 0, 1, 0) {
            None => Err(DeltaFault::Invalid),
            Some((s_size, i1)) => {
                if s_size > usize::MAX {
                    Err(DeltaFault::Invalid)
                } else if s_size != source.len() {
                    Err(DeltaFault::SourceSize)
                } else {
                    match spec_varint(d, i1, 1, 0) {
                        None => Err(DeltaFault::Invalid),
                        Some((expected, i2)) => {
                            if expected > usize::MAX {
                                Err(DeltaFault::Invalid)
                            } else {
                                match spec_delta_ops(source, d, i2, expected, Seq::empty()) {
                                    None => Err(DeltaFault::Patch),
                                    Some((out, fi)) => {
                                        if fi < d.len() || out.len() != expected {
                                            Err(DeltaFault::Patch)
                                        } else {
                                            Ok(out)
                                        }
                                    },
                                }
                            }
                        },
                    }
                }
            },
        }
    }
}

/// A header that parses ends within the stream, past where it began.
pub proof fn lemma_varint_bounds(d: Seq<u8>, i: int, m: int, acc: int)
    requires
        spec_varint(d, i, m, acc) is Some,
    ensures
        i < spec_varint(d, i, m, acc)->Some_0.1 <= d.len(),
    decreases d.len() - i,
{
    if !(i < 0 || i >= d.len()) {
        let cmd = d[i] as int;
        if cmd >= 128 {
            lemma_varint_bounds(d, i + 1, m * 128, acc + (cmd % 128) * m);
        }
    }
}

/// Reads one size header from the head of `delta`: the value and how many
/// bytes it used.  Refuses a header of more than ten bytes: no such header
/// denotes a size that fits in memory.
#[verifier::loop_isolation(false)]
pub fn get_delta_hdr_size(delta: &[u8]) -> (r: Result<(usize, usize), DeltaError>)
    ensures
        match r {
            Ok((size, used)) => spec_varint(delta@, 0, 1, 0) == Some((size as int, used as int)),
            Err(e) => (e is InvalidDelta) && match spec_varint(delta@, 0, 1, 0) {
                None => true,
                Some((v, u)) => v > usize::MAX || u > 10,
            },
        },
{
    let mut size: u128 = 0;
    let mut multiplier: u128 = 1;
    let mut index: usize = 0;
    loop
        invariant
            index <= delta@.len(),
            index <= 9,
            multiplier == spec_pow128(index as int),
            multiplier <= 0x100000000000000000000u128,
            size < multiplier,
            spec_varint(delta@, 0, 1, 0) == spec_varint(
                delta@,
                index as int,
                multiplier as int,
                size as int,
            ),
        decreases delta@.len() - index,
    {
        if index >= delta.len() {
            return Err(DeltaError::InvalidDelta);
        }
        let cmd = delta[index];
        index = index + 1;
        proof {
            vstd::arithmetic::mul::lemma_mul_upper_bound(
                cmd as int % 128,
                127,
                multiplier as int,
                0x100000000000000000000,
            );
            vstd::arithmetic::mul::lemma_mul_inequality(cmd as int % 128, 127, multiplier as int);
        }
        size = size + (cmd as u128 % 128) * multiplier;
        if cmd < 128 {
            if size > usize::MAX as u128 {
                return Err(DeltaError::InvalidDelta);
            }
            return Ok((size as usize, index));
        }
        if index >= 10 {
            proof {
                if spec_varint(delta@, index as int, multiplier as int * 128, size as int)
                    is Some {
                    lemma_varint_bounds(delta@, index as int, multiplier as int * 128, size as int);
                }
            }
            return Err(DeltaError::InvalidDelta);
        }
        proof {
            assert(spec_pow128(index as int) == 128 * spec_pow128(index as int - 1));
            lemma_pow128_val(index as int);
        }
        multiplier = multiplier * 128;
    }
}

/// `128^j`, the multiplier of the `j`-th header byte.
pub open spec fn spec_pow128(j: int) -> int
    decreases j,
{
    if j <= 0 {
        1
    } else {
        128 * spec_pow128(j - 1)
    }
}

proof fn lemma_pow128_val(j: int)
    requires
        0 <= j <= 10,
    ensures
        spec_pow128(j) <= 0x100000000000000000000,
{
    assert(spec_pow128(0) == 1);
    assert(spec_pow128(1) == 128);
    assert(spec_pow128(2) == 0x4000);
    assert(spec_pow128(3) == 0x200000);
    assert(spec_pow128(4) == 0x10000000);
    assert(spec_pow128(5) == 0x800000000);
    assert(spec_pow128(6) == 0x40000000000);
    assert(spec_pow128(7) == 0x2000000000000);
    assert(spec_pow128(8) == 0x100000000000000);
    assert(spec_pow128(9) == 0x8000000000000000);
    assert(spec_pow128(10) == 0x400000000000000000);
}

/// Appends `src[from..to]` to `out`.
fn extend_from(out: &mut Vec<u8>, src: &[u8], from: usize, to: usize)
    requires
        from <= to <= src@.len(),
    ensures
        final(out)@ == old(out)@ + src@.subrange(from as int, to as int),
{
    let ghost base = out@;
    let mut k = from;
    while k < to
        invariant
            from <= k <= to <= src@.len(),
            out@ =~= base + src@.subrange(from as int, k as int),
        decreases to - k,
    {
        out.push(src[k]);
        k = k + 1;
        proof {
            assert(out@ =~= base + src@.subrange(from as int, k as int));
        }
    }
    proof {
        assert(out@ =~= base + src@.subrange(from as int, to as int));
    }
}

/// Reads one optional operand byte of a copy opcode.
fn read_opt_byte(delta: &[u8], j: usize, flag: bool, multiplier: u64) -> (r: Option<(u64, usize)>)
    requires
        j <= delta@.len(),
        multiplier <= 16777216,
    ensures
        match r {
            Some((byte_val, next)) => {
                &&& spec_opt_byte(delta@, j as int, flag, multiplier as int) == Some(
                    (byte_val as int, next as int),
                )
                &&& j <= next <= delta@.len()
                &&& byte_val <= 255 * multiplier
            },
            None => spec_opt_byte(delta@, j as int, flag, multiplier as int) is None,
        },
{
    if !flag {
        Some((0, j))
    } else if j < delta.len() {
        let b = delta[j];
        proof {
            vstd::arithmetic::mul::lemma_mul_inequality(b as int, 255, multiplier as int);
            vstd::arithmetic::mul::lemma_mul_upper_bound(b as int, 255, multiplier as int, 16777216);
        }
        Some((b as u64 * multiplier, j + 1))
    } else {
        None
    }
}

/// Reads the operand bytes of a copy opcode that starts at `start`.
fn read_copy_op(delta: &[u8], start: usize, cmd: u8) -> (r: Option<(u64, u64, usize)>)
    requires
        start <= delta@.len(),
    ensures
        match r {
            Some((off, size, next)) => {
                &&& spec_copy_op(delta@, start as int, cmd as int) == Some(
                    (off as int, size as int, next as int),
                )
                &&& start <= next <= delta@.len()
                &&& 1 <= size
            },
            None => spec_copy_op(delta@, start as int, cmd as int) is None,
        },
{
    let ghost d = delta@;
    let ghost c = cmd as int;
    let mut j: usize = start;
    let mut off: u64 = 0;
    let mut size: u64 = 0;
    let mut k: u8 = 0;
    while k < 7
        invariant
            start <= j <= delta@.len(),
            d == delta@,
            c == cmd as int,
            k <= 7,
            k == 0 ==> off == 0,
            k == 1 ==> off <= 255,
            k == 2 ==> off <= 65535,
            k == 3 ==> off <= 16777215,
            off <= 4294967295,
            k <= 4 ==> size == 0,
            k == 5 ==> size <= 255,
            k == 6 ==> size <= 65535,
            size <= 16777215,
            spec_copy_op(d, start as int, c) == spec_copy_stage(
                d,
                c,
                k as int,
                j as int,
                off as int,
                size as int,
            ),
        decreases 7 - k,
    {
        let flag = if k == 0 {
            cmd % 2 == 1
        } else if k == 1 {
            (cmd / 2) % 2 == 1
        } else if k == 2 {
            (cmd / 4) % 2 == 1
        } else if k == 3 {
            (cmd / 8) % 2 == 1
        } else if k == 4 {
            (cmd / 16) % 2 == 1
        } else if k == 5 {
            (cmd / 32) % 2 == 1
        } else {
            (cmd / 64) % 2 == 1
        };
        let multiplier: u64 = if k == 0 || k == 4 {
            1
        } else if k == 1 || k == 5 {
            256
        } else if k == 2 || k == 6 {
            65536
        } else {
            16777216
        };
        proof {
            assert(flag == spec_stage_flag(c, k as int));
            assert(multiplier as int == spec_stage_multiplier(k as int));
        }
        match read_opt_byte(delta, j, flag, multiplier) {
            Some((v, j2)) => {
                if k <= 3 {
                    off = off + v;
                } else {
                    size = size + v;
                }
                j = j2;
            },
            None => {
                proof {
                    assert(spec_copy_stage(d, c, k as int, j as int, off as int, size as int)
                        is None);
                }
                return None;
            },
        }
        k = k + 1;
    }
    let mut cp_size = size;
    if cp_size == 0 {
        cp_size = 65536;
    }
    Some((off, cp_size, j))
}

/// Replays a delta stream against a source buffer: checks the source size
/// header, then performs each copy and insert opcode, and finally checks
/// that the delta was fully consumed and the expected size reached.
#[verifier::loop_isolation(false)]
#[verifier::rlimit(100)]
pub fn patch_delta(source: &[u8], delta: &[u8]) -> (r: Result<Vec<u8>, DeltaError>)
    ensures
        match r {
            Ok(v) => spec_patch_delta(source@, delta@) == Ok::<Seq<u8>, DeltaFault>(v@),
            Err(DeltaError::InvalidDelta) => spec_patch_delta(source@, delta@) == Err::<
                Seq<u8>,
                DeltaFault,
            >(DeltaFault::Invalid) || spec_varint_too_long(delta@) || spec_second_varint_too_long(
                source@,
                delta@,
            ),
            Err(DeltaError::InvalidSourceSize) => spec_patch_delta(source@, delta@) == Err::<
                Seq<u8>,
                DeltaFault,
            >(DeltaFault::SourceSize),
            Err(DeltaError::PatchError(_)) => spec_patch_delta(source@, delta@) == Err::<
                Seq<u8>,
                DeltaFault,
            >(DeltaFault::Patch),
            Err(_) => false,
        },
{
    if delta.len() < 4 {
        return Err(DeltaError::InvalidDelta);
    }
    // the source size header must match the source buffer
    let (s_size, used1) = match get_delta_hdr_size(delta) {
        Ok(p) => p,
        Err(e) => {
            return Err(DeltaError::InvalidDelta);
        },
    };
    if s_size != source.len() {
        return Err(DeltaError::InvalidSourceSize);
    }
    proof {
        lemma_varint_bounds(delta@, 0, 1, 0);
    }
    // then the expected result size
    let rest1 = &delta[used1..delta.len()];
    proof {
        lemma_varint_shift(delta@, used1 as int);
        assert(rest1@ =~= delta@.subrange(used1 as int, delta@.len() as int));
    }
    let (expected, used2) = match get_delta_hdr_size(rest1) {
        Ok(p) => p,
        Err(e) => {
            return Err(DeltaError::InvalidDelta);
        },
    };
    proof {
        lemma_varint_bounds(rest1@, 0, 1, 0);
        assert(spec_varint(delta@, used1 as int, 1, 0) == Some(
            (expected as int, used1 + used2 as int),
        ));
    }
    let mut index: usize = used1 + used2;
    let ghost i2 = index as int;
    let mut output: Vec<u8> = Vec::new();
    let mut stopped: bool = false;
    proof {
        assert(output@ =~= Seq::<u8>::empty());
    }
    while index < delta.len() && !stopped
        invariant
            i2 <= index <= delta@.len(),
            spec_delta_ops(source@, delta@, i2, expected as int, Seq::empty()) == (if stopped {
                Some((output@, index as int))
            } else {
                spec_delta_ops(source@, delta@, index as int, expected as int, output@)
            }),
        decreases delta@.len() - index + (if stopped {
            0int
        } else {
            1int
        }),
    {
        let ghost st_index = index as int;
        let ghost st_out = output@;
        let cmd = delta[index];
        let op_start = index;
        index = index + 1;
        if cmd >= 128 {
            // a copy opcode: read the selected offset and size operands
            match read_copy_op(delta, index, cmd) {
                Some((cp_offset, cp_size, next)) => {
                    if cp_offset > source.len() as u64 || cp_size > source.len() as u64
                        - cp_offset {
                        return Err(
                            DeltaError::PatchError("delta copy outside the source".to_owned()),
                        );
                    }
                    extend_from(
                        &mut output,
                        source,
                        cp_offset as usize,
                        (cp_offset + cp_size) as usize,
                    );
                    index = next;
                },
                None => {
                    return Err(DeltaError::PatchError("delta copy opcode cut short".to_owned()));
                },
            }
        } else if cmd != 0 {
            // an insert opcode: the next `cmd` delta bytes, when they fit
            let n = cmd as usize;
            if output.len() > expected || n > expected - output.len() {
                index = op_start;
                stopped = true;
            } else if n > delta.len() - index {
                return Err(DeltaError::PatchError("delta insert cut short".to_owned()));
            } else {
                extend_from(&mut output, delta, index, index + n);
                index = index + n;
            }
        } else {
            // cmd == 0 is reserved
            return Err(DeltaError::PatchError("unexpected delta opcode 0".to_owned()));
        }
    }
    if index < delta.len() || output.len() != expected {
        return Err(DeltaError::PatchError("delta replay has gone wild".to_owned()));
    }
    Ok(output)
}

/// The second size header, read past the first, is over ten bytes long.
pub open spec fn spec_second_varint_too_long(source: Seq<u8>, d: Seq<u8>) -> bool {
    match spec_varint(d, 0, 1, 0) {
        None => false,
        Some((v, u)) => match spec_varint(d, u, 1, 0) {
            None => false,
            Some((v2, u2)) => u2 - u > 10,
        },
    }
}

/// A size header of more than ten bytes: no such header denotes a size that
/// fits in memory.
pub open spec fn spec_varint_too_long(d: Seq<u8>) -> bool {
    match spec_varint(d, 0, 1, 0) {
        None => false,
        Some((v, u)) => u > 10,
    }
}

/// A header read in the middle of the stream equals one read from the
/// stream with its head cut off.
proof fn lemma_varint_shift(d: Seq<u8>, at: int)
    requires
        0 <= at <= d.len(),
    ensures
        forall|m: int, acc: int, j: int|
            0 <= j ==> #[trigger] spec_varint(d.subrange(at, d.len() as int), j, m, acc)
                == spec_varint_offset(d, at, j, m, acc),
{
    assert forall|m: int, acc: int, j: int| 0 <= j implies #[trigger] spec_varint(
        d.subrange(at, d.len() as int),
        j,
        m,
        acc,
    ) == spec_varint_offset(d, at, j, m, acc) by {
        lemma_varint_shift_one(d, at, j, m, acc);
    }
}

/// The header of the suffix, phrased over the whole stream: used to carry a
/// header fact from a sliced stream back to the unsliced one.
pub open spec fn spec_varint_offset(d: Seq<u8>, at: int, j: int, m: int, acc: int) -> Option<
    (int, int),
> {
    match spec_varint(d, at + j, m, acc) {
        None => None,
        Some((v, u)) => Some((v, u - at)),
    }
}

proof fn lemma_varint_shift_one(d: Seq<u8>, at: int, j: int, m: int, acc: int)
    requires
        0 <= at <= d.len(),
        0 <= j,
    ensures
        spec_varint(d.subrange(at, d.len() as int), j, m, acc) == spec_varint_offset(
            d,
            at,
            j,
            m,
            acc,
        ),
    decreases d.len() - at - j,
{
    let s = d.subrange(at, d.len() as int);
    if j >= s.len() {
    } else {
        assert(s[j] == d[at + j]);
        if s[j] >= 128 {
            lemma_varint_shift_one(d, at, j + 1, m * 128, acc + (s[j] as int % 128) * m);
        }
    }
}

} // verus!
