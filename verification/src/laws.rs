//! Laws the application engine and the delta codec obey, stated over the
//! specification functions the executable contracts use.

use vstd::prelude::*;

use crate::change::{
    spec_apply_changes_from, spec_apply_changes_lines, spec_emit, spec_fuzzy, spec_initial_state,
    ApplyState, ChangeView,
};
use crate::git_binary_diff::git_delta::{spec_patch_delta, spec_varint, DeltaFault};
use crate::lines::{spec_concat_lines, spec_contains_at};

verus! {

/// Concatenation distributes over appending line sequences.
pub proof fn lemma_concat_app(x: Seq<Seq<char>>, y: Seq<Seq<char>>)
    ensures
        spec_concat_lines(x + y) == spec_concat_lines(x) + spec_concat_lines(y),
    decreases x.len(),
{
    if x.len() == 0 {
        assert(x + y =~= y);
        assert(spec_concat_lines(x) =~= Seq::<char>::empty());
        assert(spec_concat_lines(x) + spec_concat_lines(y) =~= spec_concat_lines(y));
    } else {
        assert((x + y)[0] == x[0]);
        assert((x + y).len() > 0);
        assert((x + y).skip(1) =~= x.skip(1) + y);
        lemma_concat_app(x.skip(1), y);
        assert(spec_concat_lines(x + y) == (x + y)[0] + spec_concat_lines((x + y).skip(1)));
        assert(spec_concat_lines(x) == x[0] + spec_concat_lines(x.skip(1)));
        assert(x[0] + (spec_concat_lines(x.skip(1)) + spec_concat_lines(y)) =~= (x[0]
            + spec_concat_lines(x.skip(1))) + spec_concat_lines(y));
    }
}

/// Emitting two adjacent ranges emits their union.
pub proof fn lemma_emit_join(lines: Seq<Seq<char>>, a: int, b: int, c: int)
    requires
        0 <= a <= b <= c <= lines.len(),
    ensures
        spec_emit(lines, a, b) + spec_emit(lines, b, c) == spec_emit(lines, a, c),
{
    assert(lines.subrange(a, b) + lines.subrange(b, c) =~= lines.subrange(a, c));
    lemma_concat_app(lines.subrange(a, b), lines.subrange(b, c));
}

// ---- exact application: every ante block stands where it claims ----

/// From change `k` on, each ante block stands verbatim at its own start
/// index, the blocks are in order, and the first lies at or past `idx`.
pub open spec fn spec_exact_ok(cvs: Seq<ChangeView>, lines: Seq<Seq<char>>, k: int, idx: int)
    -> bool
    decreases cvs.len() - k,
{
    if k < 0 || k >= cvs.len() {
        true
    } else {
        let a = cvs[k].ante;
        &&& idx <= a.start
        &&& spec_contains_at(lines, a.lines, a.start)
        &&& spec_exact_ok(cvs, lines, k + 1, a.start + a.lines.len())
    }
}

/// The rewritten line sequence an exact application produces: the target's
/// lines with each ante block replaced by its change's post block.
pub open spec fn spec_splice_lines(
    cvs: Seq<ChangeView>,
    lines: Seq<Seq<char>>,
    k: int,
    idx: int,
) -> Seq<Seq<char>>
    decreases cvs.len() - k,
{
    if k < 0 || k >= cvs.len() {
        lines.subrange(idx, lines.len() as int)
    } else {
        let a = cvs[k].ante;
        lines.subrange(idx, a.start) + cvs[k].post.lines + spec_splice_lines(
            cvs,
            lines,
            k + 1,
            a.start + a.lines.len(),
        )
    }
}

proof fn lemma_apply_exact_from(
    cvs: Seq<ChangeView>,
    lines: Seq<Seq<char>>,
    k: int,
    st: ApplyState,
)
    requires
        0 <= k <= cvs.len(),
        st.stopped == false,
        st.offset == 0,
        0 <= st.lines_index <= lines.len(),
        spec_exact_ok(cvs, lines, k, st.lines_index),
    ensures
        ({
            let r = spec_apply_changes_from(cvs, lines, st, k);
            &&& r.out + spec_emit(lines, r.lines_index, lines.len() as int) == st.out + spec_concat_lines(
                spec_splice_lines(cvs, lines, k, st.lines_index),
            )
            &&& r.successes == st.successes + (cvs.len() - k)
            &&& r.merges == st.merges
            &&& r.already_applied == st.already_applied
            &&& r.already_merged == st.already_merged
            &&& r.failures == st.failures
            &&& r.stopped == false
            &&& 0 <= r.lines_index <= lines.len()
        }),
    decreases cvs.len() - k,
{
    if k >= cvs.len() {
        assert(spec_splice_lines(cvs, lines, k, st.lines_index) == lines.subrange(
            st.lines_index,
            lines.len() as int,
        ));
    } else {
        let a = cvs[k].ante;
        let p = cvs[k].post;
        let na = a.lines.len() as int;
        let np = p.lines.len() as int;
        let pos = a.start;
        assert(spec_contains_at(lines, a.lines, pos));
        assert(pos + na <= lines.len());
        let st1 = spec_apply_step(cvs, lines, st, k);
        assert(st1 == ApplyState {
            out: st.out + spec_emit(lines, st.lines_index, pos) + spec_emit(p.lines, 0, np),
            lines_index: pos + na,
            successes: st.successes + 1,
            ..st
        });
        lemma_apply_exact_from(cvs, lines, k + 1, st1);
        let r = spec_apply_changes_from(cvs, lines, st, k);
        assert(r == spec_apply_changes_from(cvs, lines, st1, k + 1));
        // out composition: the gap, the post block, then the rest
        assert(p.lines.subrange(0, np) =~= p.lines);
        assert(spec_emit(p.lines, 0, np) == spec_concat_lines(p.lines));
        let rest = spec_splice_lines(cvs, lines, k + 1, pos + na);
        assert(spec_splice_lines(cvs, lines, k, st.lines_index) == lines.subrange(
            st.lines_index,
            pos,
        ) + p.lines + rest);
        lemma_concat_app(lines.subrange(st.lines_index, pos) + p.lines, rest);
        lemma_concat_app(lines.subrange(st.lines_index, pos), p.lines);
        assert((lines.subrange(st.lines_index, pos) + p.lines) + rest =~= spec_splice_lines(
            cvs,
            lines,
            k,
            st.lines_index,
        ));
        assert(r.out + spec_emit(lines, r.lines_index, lines.len() as int) =~= st.out
            + spec_concat_lines(spec_splice_lines(cvs, lines, k, st.lines_index)));
    }
}

/// The step the fold takes, named so the lemmas can speak of it.
pub open spec fn spec_apply_step(
    cvs: Seq<ChangeView>,
    lines: Seq<Seq<char>>,
    st: ApplyState,
    k: int,
) -> ApplyState {
    crate::change::spec_apply_step(cvs[k], lines, st, cvs.len() - k)
}

/// Applying changes whose ante blocks all stand verbatim at their start
/// indices succeeds exactly: every change counts one success, no other
/// counter moves, and the output is the target with each ante block
/// replaced by its post block.
pub proof fn lemma_apply_changes_exact(cvs: Seq<ChangeView>, lines: Seq<Seq<char>>)
    requires
        spec_exact_ok(cvs, lines, 0, 0),
    ensures
        ({
            let m = spec_apply_changes_lines(cvs, lines);
            &&& m.successes == cvs.len()
            &&& m.merges == 0
            &&& m.already_applied == 0
            &&& m.already_merged == 0
            &&& m.failures == 0
            &&& m.out == spec_concat_lines(spec_splice_lines(cvs, lines, 0, 0))
        }),
{
    lemma_apply_exact_from(cvs, lines, 0, spec_initial_state());
    let r = spec_apply_changes_from(cvs, lines, spec_initial_state(), 0);
    assert(Seq::<char>::empty() + spec_concat_lines(spec_splice_lines(cvs, lines, 0, 0))
        =~= spec_concat_lines(spec_splice_lines(cvs, lines, 0, 0)));
}

// ---- already-applied application: every post block already in place ----

/// From change `k` on, with the engine's cursor at `idx` and its offset at
/// `off`: the ante block no longer stands at its shifted place and cannot
/// be found fuzzily, while the post block already stands at its shifted
/// place, at or past the cursor.
pub open spec fn spec_already_ok(
    cvs: Seq<ChangeView>,
    lines: Seq<Seq<char>>,
    k: int,
    idx: int,
    off: int,
) -> bool
    decreases cvs.len() - k,
{
    if k < 0 || k >= cvs.len() {
        true
    } else {
        let a = cvs[k].ante;
        let p = cvs[k].post;
        let pos = p.start + off;
        &&& !(0 <= a.start + off && spec_contains_at(lines, a.lines, a.start + off) && idx
            <= a.start + off)
        &&& spec_fuzzy(
            lines,
            a.lines,
            idx,
            cvs[k].head_len,
            cvs[k].tail_len,
            p.lines.len() as int,
        ) is None
        &&& 0 <= pos
        &&& idx <= pos
        &&& spec_contains_at(lines, p.lines, pos)
        &&& spec_already_ok(
            cvs,
            lines,
            k + 1,
            pos + p.lines.len(),
            off + p.lines.len() - a.lines.len(),
        )
    }
}

proof fn lemma_apply_already_from(
    cvs: Seq<ChangeView>,
    lines: Seq<Seq<char>>,
    k: int,
    st: ApplyState,
)
    requires
        0 <= k <= cvs.len(),
        st.stopped == false,
        0 <= st.lines_index <= lines.len(),
        spec_already_ok(cvs, lines, k, st.lines_index, st.offset),
    ensures
        ({
            let r = spec_apply_changes_from(cvs, lines, st, k);
            &&& r.out + spec_emit(lines, r.lines_index, lines.len() as int) == st.out + spec_emit(
                lines,
                st.lines_index,
                lines.len() as int,
            )
            &&& r.already_applied == st.already_applied + (cvs.len() - k)
            &&& r.successes == st.successes
            &&& r.merges == st.merges
            &&& r.already_merged == st.already_merged
            &&& r.failures == st.failures
            &&& r.stopped == false
            &&& 0 <= r.lines_index <= lines.len()
        }),
    decreases cvs.len() - k,
{
    if k >= cvs.len() {
    } else {
        let a = cvs[k].ante;
        let p = cvs[k].post;
        let na = a.lines.len() as int;
        let np = p.lines.len() as int;
        let pos = p.start + st.offset;
        assert(pos + np <= lines.len());
        let st1 = spec_apply_step(cvs, lines, st, k);
        assert(st1 == ApplyState {
            out: st.out + spec_emit(lines, st.lines_index, pos + np),
            lines_index: pos + np,
            offset: st.offset + np - na,
            already_applied: st.already_applied + 1,
            ..st
        });
        lemma_apply_already_from(cvs, lines, k + 1, st1);
        let r = spec_apply_changes_from(cvs, lines, st, k);
        assert(r == spec_apply_changes_from(cvs, lines, st1, k + 1));
        lemma_emit_join(lines, st.lines_index, pos + np, lines.len() as int);
        assert(r.out + spec_emit(lines, r.lines_index, lines.len() as int) =~= st.out + spec_emit(
            lines,
            st.lines_index,
            lines.len() as int,
        ));
    }
}

/// Applying changes to a target where each post block already stands at
/// its shifted place leaves the target untouched: every change counts one
/// already-applied, no other counter moves, and the output equals the
/// input.
pub proof fn lemma_apply_changes_already_applied(cvs: Seq<ChangeView>, lines: Seq<Seq<char>>)
    requires
        spec_already_ok(cvs, lines, 0, 0, 0),
    ensures
        ({
            let m = spec_apply_changes_lines(cvs, lines);
            &&& m.already_applied == cvs.len()
            &&& m.successes == 0
            &&& m.merges == 0
            &&& m.already_merged == 0
            &&& m.failures == 0
            &&& m.out == spec_concat_lines(lines)
        }),
{
    lemma_apply_already_from(cvs, lines, 0, spec_initial_state());
    let r = spec_apply_changes_from(cvs, lines, spec_initial_state(), 0);
    assert(lines.subrange(0, lines.len() as int) =~= lines);
    assert(Seq::<char>::empty() + spec_emit(lines, 0, lines.len() as int) =~= spec_emit(
        lines,
        0,
        lines.len() as int,
    ));
}

// ---- delta replay: a delta built for a target reconstructs it ----

/// A size header as a producer emits it: little-endian 7-bit groups with
/// continuation bit `0x80`.
pub open spec fn spec_varint_encode(n: int) -> Seq<u8>
    decreases n,
{
    if n < 128 {
        seq![(if n >= 0 {
            n
        } else {
            0
        }) as u8]
    } else {
        seq![(128 + n % 128) as u8] + spec_varint_encode(n / 128)
    }
}

/// A target split into insert opcodes of up to 127 bytes each.
pub open spec fn spec_insert_chunks(t: Seq<u8>) -> Seq<u8>
    decreases t.len(),
{
    if t.len() == 0 {
        Seq::empty()
    } else {
        let c = if t.len() < 127 {
            t.len() as int
        } else {
            127int
        };
        seq![c as u8] + t.take(c) + spec_insert_chunks(t.skip(c))
    }
}

/// A header standing in a stream decodes to the number it encodes.
proof fn lemma_varint_decodes(d: Seq<u8>, i: int, n: int, m: int, acc: int)
    requires
        0 <= i,
        0 <= n,
        1 <= m,
        0 <= acc,
        i + spec_varint_encode(n).len() <= d.len(),
        d.subrange(i, i + spec_varint_encode(n).len() as int) == spec_varint_encode(n),
    ensures
        spec_varint(d, i, m, acc) == Some(
            (acc + n * m, i + spec_varint_encode(n).len() as int),
        ),
    decreases n,
{
    let enc = spec_varint_encode(n);
    assert(d[i] == enc[0]);
    if n < 128 {
        assert(d[i] as int == n);
        assert(d[i] as int % 128 == n);
        assert(spec_varint(d, i, m, acc) == Some((acc + n * m, i + 1)));
    } else {
        assert(d[i] as int == 128 + n % 128);
        assert(d[i] as int % 128 == n % 128) by {
            vstd::arithmetic::div_mod::lemma_mod_bound(n, 128);
        }
        let rest = spec_varint_encode(n / 128);
        assert(enc.skip(1) =~= rest);
        assert(d.subrange(i + 1, i + 1 + rest.len() as int) =~= rest) by {
            assert forall|j: int| 0 <= j < rest.len() implies #[trigger] d[i + 1 + j] == rest[j]
            by {
                assert(d[i + (1 + j)] == enc[1 + j]);
                assert(enc[1 + j] == rest[j]);
            }
        }
        lemma_varint_decodes(d, i + 1, n / 128, m * 128, acc + (n % 128) * m);
        // the folded value is the encoded number
        assert(acc + (n % 128) * m + (n / 128) * (m * 128) == acc + n * m) by {
            vstd::arithmetic::div_mod::lemma_fundamental_div_mod(n, 128);
            assert(n == 128 * (n / 128) + n % 128);
            vstd::arithmetic::mul::lemma_mul_is_distributive_add_other_way(
                m,
                128 * (n / 128),
                n % 128,
            );
            assert((128 * (n / 128) + n % 128) * m == (128 * (n / 128)) * m + (n % 128) * m);
            vstd::arithmetic::mul::lemma_mul_is_associative(n / 128, 128, m);
            vstd::arithmetic::mul::lemma_mul_is_commutative(n / 128, 128);
            vstd::arithmetic::mul::lemma_mul_is_commutative(n, m);
            assert((n / 128) * (128 * m) == ((n / 128) * 128) * m);
            vstd::arithmetic::mul::lemma_mul_is_commutative(128, m);
        }
        assert(spec_varint(d, i, m, acc) == spec_varint(d, i + 1, m * 128, acc + (n % 128) * m));
    }
}

/// The opcode loop consumes a run of insert opcodes and appends exactly
/// the bytes they carry.
proof fn lemma_inserts_replay(
    source: Seq<u8>,
    d: Seq<u8>,
    i: int,
    expected: int,
    out: Seq<u8>,
    t: Seq<u8>,
)
    requires
        0 <= i,
        d.len() == i + spec_insert_chunks(t).len(),
        d.subrange(i, d.len() as int) == spec_insert_chunks(t),
        out.len() + t.len() == expected,
    ensures
        crate::git_binary_diff::git_delta::spec_delta_ops(source, d, i, expected, out) == Some(
            (out + t, d.len() as int),
        ),
    decreases t.len(),
{
    if t.len() == 0 {
        assert(i >= d.len());
        assert(out + t =~= out);
    } else {
        let c = if t.len() < 127 {
            t.len() as int
        } else {
            127int
        };
        let chunk = seq![c as u8] + t.take(c) + spec_insert_chunks(t.skip(c));
        assert(d[i] == chunk[0]);
        assert(d[i] as int == c);
        assert(1 <= c < 128);
        assert(d[i] as int <= expected - out.len());
        assert(i + 1 + c <= d.len());
        assert forall|j: int| 0 <= j < c implies d.subrange(i + 1, i + 1 + c)[j] == t.take(c)[j]
        by {
            assert(d.subrange(i + 1, i + 1 + c)[j] == d[i + 1 + j]);
            assert(d[i + (1 + j)] == chunk[1 + j]);
            assert(chunk[1 + j] == ((seq![c as u8] + t.take(c)) + spec_insert_chunks(
                t.skip(c),
            ))[1 + j]);
            assert(chunk[1 + j] == (seq![c as u8] + t.take(c))[1 + j]);
            assert(i + 1 + j == i + (1 + j));
        }
        assert(d.subrange(i + 1, i + 1 + c) =~= t.take(c));
        assert forall|j: int| 0 <= j < spec_insert_chunks(t.skip(c)).len() implies d.subrange(
            i + 1 + c,
            d.len() as int,
        )[j] == spec_insert_chunks(t.skip(c))[j] by {
            assert(d.subrange(i + 1 + c, d.len() as int)[j] == d[i + 1 + c + j]);
            assert(d[i + ((1 + c) + j)] == chunk[(1 + c) + j]);
            assert(chunk[(1 + c) + j] == spec_insert_chunks(t.skip(c))[j]);
            assert(i + 1 + c + j == i + ((1 + c) + j));
        }
        assert(d.subrange(i + 1 + c, d.len() as int) =~= spec_insert_chunks(t.skip(c)));
        lemma_inserts_replay(source, d, i + 1 + c, expected, out + t.take(c), t.skip(c));
        assert((out + t.take(c)) + t.skip(c) =~= out + t);
    }
}

/// A delta built for a target out of insert opcodes alone, its two size
/// headers in front, replays to exactly that target: the pair a producer
/// emits for a target reconstructs it.
pub proof fn lemma_insert_delta_replays(source: Seq<u8>, target: Seq<u8>)
    requires
        2 <= target.len() <= usize::MAX,
        source.len() <= usize::MAX,
    ensures
        ({
            let d = spec_varint_encode(source.len() as int) + spec_varint_encode(
                target.len() as int,
            ) + spec_insert_chunks(target);
            spec_patch_delta(source, d) == Ok::<Seq<u8>, DeltaFault>(target)
        }),
{
    let e1 = spec_varint_encode(source.len() as int);
    let e2 = spec_varint_encode(target.len() as int);
    let chunks = spec_insert_chunks(target);
    let d = e1 + e2 + chunks;
    lemma_varint_encode_len(source.len() as int);
    lemma_varint_encode_len(target.len() as int);
    lemma_insert_chunks_len(target);
    assert(d.len() >= 4);
    assert(d.subrange(0, e1.len() as int) =~= e1) by {
        assert forall|j: int| 0 <= j < e1.len() implies #[trigger] d[j] == e1[j] by {
            assert(d[j] == ((e1 + e2) + chunks)[j]);
        }
    }
    lemma_varint_decodes(d, 0, source.len() as int, 1, 0);
    assert(spec_varint(d, 0, 1, 0) == Some((source.len() as int, e1.len() as int)));
    assert(d.subrange(e1.len() as int, e1.len() + e2.len() as int) =~= e2) by {
        assert forall|j: int| 0 <= j < e2.len() implies #[trigger] d[e1.len() + j] == e2[j] by {
            assert(d[e1.len() + j] == ((e1 + e2) + chunks)[e1.len() + j]);
            assert((e1 + e2)[e1.len() + j] == e2[j]);
        }
    }
    lemma_varint_decodes(d, e1.len() as int, target.len() as int, 1, 0);
    let i2 = e1.len() + e2.len() as int;
    assert(spec_varint(d, e1.len() as int, 1, 0) == Some((target.len() as int, i2)));
    assert(d.subrange(i2, d.len() as int) =~= chunks) by {
        assert forall|j: int| 0 <= j < chunks.len() implies #[trigger] d[i2 + j] == chunks[j] by {
            assert(d[i2 + j] == ((e1 + e2) + chunks)[i2 + j]);
        }
    }
    lemma_inserts_replay(source, d, i2, target.len() as int, Seq::empty(), target);
    assert(Seq::<u8>::empty() + target =~= target);
}

/// A header's encoding holds at least one byte.
proof fn lemma_varint_encode_len(n: int)
    ensures
        spec_varint_encode(n).len() >= 1,
{
}

/// A target of two or more bytes yields at least three opcode bytes.
proof fn lemma_insert_chunks_len(t: Seq<u8>)
    requires
        t.len() >= 2,
    ensures
        spec_insert_chunks(t).len() >= 3,
{
}

// ---- the round trip: applying changes and then their reverses ----

/// The changes with their sides swapped: what applying in reverse runs.
pub open spec fn spec_rev_changes(cvs: Seq<ChangeView>) -> Seq<ChangeView> {
    Seq::new(
        cvs.len(),
        |k: int|
            ChangeView {
                ante: cvs[k].post,
                post: cvs[k].ante,
                head_len: cvs[k].head_len,
                tail_len: cvs[k].tail_len,
            },
    )
}

/// From change `k` on, each post start index names the place its block
/// takes in the rewritten sequence: the ante start moved by the size
/// change `delta` of all earlier changes.
pub open spec fn spec_post_aligned(cvs: Seq<ChangeView>, k: int, delta: int) -> bool
    decreases cvs.len() - k,
{
    if k < 0 || k >= cvs.len() {
        true
    } else {
        &&& cvs[k].post.start == cvs[k].ante.start + delta
        &&& spec_post_aligned(
            cvs,
            k + 1,
            delta + cvs[k].post.lines.len() - cvs[k].ante.lines.len(),
        )
    }
}

proof fn lemma_rev_exact_from(
    cvs: Seq<ChangeView>,
    lines: Seq<Seq<char>>,
    u: Seq<Seq<char>>,
    k: int,
    idx: int,
    delta: int,
    upos: int,
)
    requires
        0 <= k <= cvs.len(),
        0 <= idx <= lines.len(),
        spec_exact_ok(cvs, lines, k, idx),
        spec_post_aligned(cvs, k, delta),
        upos == idx + delta,
        0 <= upos <= u.len(),
        u.subrange(upos, u.len() as int) == spec_splice_lines(cvs, lines, k, idx),
    ensures
        spec_exact_ok(spec_rev_changes(cvs), u, k, upos),
        spec_splice_lines(spec_rev_changes(cvs), u, k, upos) == lines.subrange(
            idx,
            lines.len() as int,
        ),
    decreases cvs.len() - k,
{
    let rev = spec_rev_changes(cvs);
    let tail_u = u.subrange(upos, u.len() as int);
    if k >= cvs.len() {
        assert(spec_splice_lines(rev, u, k, upos) == tail_u);
    } else {
        let a = cvs[k].ante;
        let p = cvs[k].post;
        let na = a.lines.len() as int;
        let np = p.lines.len() as int;
        let pos = a.start;
        let gap = lines.subrange(idx, pos);
        let rest = spec_splice_lines(cvs, lines, k + 1, pos + na);
        assert(tail_u == gap + p.lines + rest);
        // where the post block stands within u
        assert(p.start == pos + delta);
        assert(upos + (pos - idx) == p.start);
        assert(gap.len() == pos - idx);
        // the pieces of the suffix, read back as subranges of u
        assert forall|j: int| 0 <= j < tail_u.len() implies #[trigger] u[upos + j] == tail_u[j]
        by {}
        assert(u.len() == upos + tail_u.len());
        assert(u.subrange(upos, p.start) =~= gap) by {
            assert forall|j: int| 0 <= j < pos - idx implies #[trigger] u[upos + j] == gap[j] by {
                assert(tail_u[j] == gap[j]);
            }
        }
        assert(tail_u.len() == ((gap + p.lines) + rest).len());
        assert(tail_u.len() == (pos - idx) + np + rest.len());
        assert(u.len() == p.start + np + rest.len());
        assert forall|j: int| 0 <= j < np implies #[trigger] u[p.start + j] == p.lines[j] by {
            assert(((gap + p.lines) + rest)[(pos - idx) + j] == (gap + p.lines)[(pos - idx) + j]);
            assert((gap + p.lines)[(pos - idx) + j] == p.lines[j]);
            assert(tail_u[(pos - idx) + j] == p.lines[j]);
            assert(u[upos + ((pos - idx) + j)] == tail_u[(pos - idx) + j]);
            assert(p.start + j == upos + ((pos - idx) + j));
        }
        assert(0 <= p.start);
        assert(p.start + np <= u.len());
        assert(u.subrange(p.start, p.start + np).len() == np);
        assert forall|i: int| 0 <= i < np implies u.subrange(p.start, p.start + np)[i]
            == p.lines[i] by {
            assert(u.subrange(p.start, p.start + np)[i] == u[p.start + i]);
        }
        assert(u.subrange(p.start, p.start + np) =~= p.lines);
        assert forall|j: int| 0 <= j < rest.len() implies #[trigger] u[p.start + np + j] == rest[j]
        by {
            assert(((gap + p.lines) + rest)[(pos - idx) + np + j] == rest[j]);
            assert(tail_u[(pos - idx) + np + j] == rest[j]);
            assert(u[upos + ((pos - idx) + np + j)] == tail_u[(pos - idx) + np + j]);
            assert(p.start + np + j == upos + ((pos - idx) + np + j));
        }
        assert forall|i: int| 0 <= i < rest.len() implies u.subrange(
            p.start + np,
            u.len() as int,
        )[i] == rest[i] by {
            assert(u.subrange(p.start + np, u.len() as int)[i] == u[p.start + np + i]);
        }
        assert(u.subrange(p.start + np, u.len() as int) =~= rest);
        // the reversed change's ante block stands verbatim at its start
        assert(spec_contains_at(u, p.lines, p.start));
        lemma_rev_exact_from(
            cvs,
            lines,
            u,
            k + 1,
            pos + na,
            delta + np - na,
            p.start + np,
        );
        assert(rev[k].ante == p);
        assert(rev[k].post == a);
        assert(upos <= p.start);
        assert(spec_exact_ok(rev, u, k, upos));
        // the splice of the reversed changes restores the original suffix
        assert(spec_splice_lines(rev, u, k, upos) == u.subrange(upos, p.start) + a.lines
            + spec_splice_lines(rev, u, k + 1, p.start + np));
        assert(a.lines =~= lines.subrange(pos, pos + na));
        assert(gap + lines.subrange(pos, pos + na) + lines.subrange(pos + na, lines.len() as int)
            =~= lines.subrange(idx, lines.len() as int));
    }
}

/// Applying changes exactly and then applying their reverses to the result
/// restores the original line sequence, with every reverse change counting
/// one success.  The post start indices must name the places the post
/// blocks take in the rewritten sequence, as a patch produced from the two
/// texts has them.
pub proof fn lemma_apply_changes_round_trip(cvs: Seq<ChangeView>, lines: Seq<Seq<char>>)
    requires
        spec_exact_ok(cvs, lines, 0, 0),
        spec_post_aligned(cvs, 0, 0),
    ensures
        ({
            let u = spec_splice_lines(cvs, lines, 0, 0);
            let m = spec_apply_changes_lines(spec_rev_changes(cvs), u);
            &&& m.successes == cvs.len()
            &&& m.merges == 0
            &&& m.already_applied == 0
            &&& m.already_merged == 0
            &&& m.failures == 0
            &&& m.out == spec_concat_lines(lines)
        }),
{
    let u = spec_splice_lines(cvs, lines, 0, 0);
    let rev = spec_rev_changes(cvs);
    assert(u.subrange(0, u.len() as int) =~= u);
    lemma_rev_exact_from(cvs, lines, u, 0, 0, 0, 0);
    lemma_apply_changes_exact(rev, u);
    assert(spec_splice_lines(rev, u, 0, 0) == lines.subrange(0, lines.len() as int));
    assert(lines.subrange(0, lines.len() as int) =~= lines);
}

} // verus!
