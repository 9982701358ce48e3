//! The hunk application engine: rewrites a target text by matching each
//! change's ante block exactly or fuzzily, detecting already-applied and
//! already-merged states, and emitting conflict markers on failure.

use vstd::prelude::*;
use vstd::string::StringExecFns;

use crate::lines::{
    first_inequality_fm_head, first_inequality_fm_tail, spec_contains_at, spec_concat_lines,
    spec_lines_of, split_lines, Lines, LinesIfce,
};

verus! {

/// A block of lines standing at a 0-based index of some text.
#[derive(Debug, Clone)]
pub struct Snippet {
    pub start_index: usize,
    pub lines: Vec<String>,
}

pub struct SnippetView {
    pub start: int,
    pub lines: Seq<Seq<char>>,
}

impl View for Snippet {
    type V = SnippetView;

    open spec fn view(&self) -> SnippetView {
        SnippetView { start: self.start_index as int, lines: self.lines.deep_view() }
    }
}

/// How many leading and trailing lines the ante and post blocks of a change
/// share; those lines may be dropped while matching fuzzily.
#[derive(Debug, Clone, Copy)]
pub struct Context {
    pub head_len: usize,
    pub tail_len: usize,
}

impl Context {
    pub fn len(&self) -> (r: usize)
        requires
            self.head_len + self.tail_len <= usize::MAX,
        ensures
            r == self.head_len + self.tail_len,
    {
        self.head_len + self.tail_len
    }

    pub fn empty(&self) -> (r: bool)
        requires
            self.head_len + self.tail_len <= usize::MAX,
        ensures
            r == (self.head_len + self.tail_len == 0),
    {
        self.len() == 0
    }
}

/// One edit: the ante block expected in the target and the post block that
/// replaces it, with their shared context.
#[derive(Debug, Clone)]
pub struct Change {
    pub ante_snippet: Snippet,
    pub post_snippet: Snippet,
    pub context: Context,
}

pub struct ChangeView {
    pub ante: SnippetView,
    pub post: SnippetView,
    pub head_len: int,
    pub tail_len: int,
}

impl View for Change {
    type V = ChangeView;

    open spec fn view(&self) -> ChangeView {
        ChangeView {
            ante: self.ante_snippet@,
            post: self.post_snippet@,
            head_len: self.context.head_len as int,
            tail_len: self.context.tail_len as int,
        }
    }
}

impl DeepView for Change {
    type V = ChangeView;

    open spec fn deep_view(&self) -> ChangeView {
        self@
    }
}

/// The context a change carries is sound: it never exceeds either block.
pub open spec fn spec_context_sound(cv: ChangeView) -> bool {
    &&& 0 <= cv.head_len
    &&& 0 <= cv.tail_len
    &&& cv.head_len <= cv.ante.lines.len()
    &&& cv.head_len <= cv.post.lines.len()
    &&& cv.tail_len <= cv.ante.lines.len()
    &&& cv.tail_len <= cv.post.lines.len()
}

impl Change {
    /// Builds a change from its two snippets, measuring their shared context.
    pub fn new(ante_snippet: Snippet, post_snippet: Snippet) -> (r: Change)
        requires
            ante_snippet.lines.deep_view() != post_snippet.lines.deep_view(),
        ensures
            r@.ante == ante_snippet@,
            r@.post == post_snippet@,
            spec_context_sound(r@),
            ({
                let a = ante_snippet.lines.deep_view();
                let b = post_snippet.lines.deep_view();
                let m = if a.len() <= b.len() {
                    a.len() as int
                } else {
                    b.len() as int
                };
                let h = r@.head_len;
                let t = r@.tail_len;
                &&& 0 <= h <= m
                &&& (forall|j: int| 0 <= j < h ==> a[j] == b[j])
                &&& (h < m ==> a[h] != b[h])
                &&& 0 <= t <= m
                &&& (forall|j: int|
                    0 <= j < t ==> #[trigger] a[a.len() - 1 - j] == b[b.len() - 1 - j])
                &&& (t < m ==> a[a.len() - 1 - t] != b[b.len() - 1 - t])
            }),
    {
        let ante_sl = ante_snippet.lines.as_slice();
        let post_sl = post_snippet.lines.as_slice();
        proof {
            assert(ante_sl.deep_view() =~= ante_snippet.lines.deep_view());
            assert(post_sl.deep_view() =~= post_snippet.lines.deep_view());
        }
        let head = first_inequality_fm_head(ante_sl, post_sl);
        let tail = first_inequality_fm_tail(ante_sl, post_sl);
        let head_len = match head {
            Some(h) => h,
            None => {
                proof {
                    assert(ante_snippet.lines.deep_view() =~= post_snippet.lines.deep_view());
                }
                0
            },
        };
        let tail_len = match tail {
            Some(t) => t,
            None => {
                proof {
                    assert(ante_snippet.lines.deep_view() =~= post_snippet.lines.deep_view());
                }
                0
            },
        };
        Change { ante_snippet, post_snippet, context: Context { head_len, tail_len } }
    }
}

/// What applying a list of changes produced: the rewritten text and one
/// counter per outcome kind.
#[derive(Debug)]
pub struct Changed {
    pub string: String,
    pub successes: u64,
    pub merges: u64,
    pub already_applied: u64,
    pub already_merged: u64,
    pub failures: u64,
}

/// The engine's state between hunks, as the specification sees it.
#[verifier::ext_equal]
pub struct ApplyState {
    pub out: Seq<char>,
    pub lines_index: int,
    pub offset: int,
    pub successes: int,
    pub merges: int,
    pub already_applied: int,
    pub already_merged: int,
    pub failures: int,
    pub stopped: bool,
}

pub open spec fn spec_initial_state() -> ApplyState {
    ApplyState {
        out: Seq::empty(),
        lines_index: 0,
        offset: 0,
        successes: 0,
        merges: 0,
        already_applied: 0,
        already_merged: 0,
        failures: 0,
        stopped: false,
    }
}

/// Concatenation of the lines `[from, to)` of a line sequence; empty when the
/// bounds are not a valid range.
pub open spec fn spec_emit(lines: Seq<Seq<char>>, from: int, to: int) -> Seq<char> {
    if 0 <= from <= to <= lines.len() {
        spec_concat_lines(lines.subrange(from, to))
    } else {
        Seq::empty()
    }
}

/// The smallest index at or after `from` where `sub` stands in `hay`.
pub open spec fn spec_find_first(hay: Seq<Seq<char>>, sub: Seq<Seq<char>>, from: int) -> Option<
    int,
>
    decreases hay.len() + 1 - from,
{
    if from < 0 || from + sub.len() > hay.len() {
        None
    } else if spec_contains_at(hay, sub, from) {
        Some(from)
    } else {
        spec_find_first(hay, sub, from + 1)
    }
}

/// The first hit of the fuzzy search: head reduction is the outer loop, tail
/// reduction the inner one, and a reduction pair is skipped when it exceeds
/// the snippet or the replacement block (`cap`).
pub open spec fn spec_fuzzy_at(
    hay: Seq<Seq<char>>,
    snip: Seq<Seq<char>>,
    from: int,
    head_len: int,
    tail_len: int,
    cap: int,
    head: int,
    tail: int,
) -> Option<(int, int, int)>
    decreases head_len - head, tail_len - tail,
{
    if head < 0 || tail < 0 || head >= head_len {
        None
    } else if tail >= tail_len {
        spec_fuzzy_at(hay, snip, from, head_len, tail_len, cap, head + 1, 0)
    } else {
        let attempt = if head + tail <= snip.len() && head + tail <= cap {
            spec_find_first(hay, snip.subrange(head, snip.len() - tail), from)
        } else {
            None
        };
        match attempt {
            Some(f) => Some((f, head, tail)),
            None => spec_fuzzy_at(hay, snip, from, head_len, tail_len, cap, head, tail + 1),
        }
    }
}

/// The fuzzy search a snippet offers, from its first candidate pair on.
pub open spec fn spec_fuzzy(
    hay: Seq<Seq<char>>,
    snip: Seq<Seq<char>>,
    from: int,
    head_len: int,
    tail_len: int,
    cap: int,
) -> Option<(int, int, int)> {
    spec_fuzzy_at(hay, snip, from, head_len, tail_len, cap, 0, 0)
}

/// One hunk of the application engine, exactly as section semantics order the
/// attempts: exact, fuzzy ante, already applied, already merged, conflict.
pub open spec fn spec_apply_step(
    cv: ChangeView,
    lines: Seq<Seq<char>>,
    st: ApplyState,
    remaining: int,
) -> ApplyState {
    if st.stopped {
        st
    } else {
        let a = cv.ante;
        let p = cv.post;
        let na = a.lines.len() as int;
        let np = p.lines.len() as int;
        let exact_pos = a.start + st.offset;
        if 0 <= exact_pos && spec_contains_at(lines, a.lines, exact_pos) && st.lines_index
            <= exact_pos {
            ApplyState {
                out: st.out + spec_emit(lines, st.lines_index, exact_pos) + spec_emit(
                    p.lines,
                    0,
                    np,
                ),
                lines_index: exact_pos + na,
                successes: st.successes + 1,
                ..st
            }
        } else {
            match spec_fuzzy(lines, a.lines, st.lines_index, cv.head_len, cv.tail_len, np) {
                Some((f, h, t)) => ApplyState {
                    out: st.out + spec_emit(lines, st.lines_index, f) + spec_emit(
                        p.lines,
                        h,
                        np - t,
                    ),
                    lines_index: f + (na - h - t),
                    offset: f - a.start,
                    merges: st.merges + 1,
                    ..st
                },
                None => {
                    let post_pos = p.start + st.offset;
                    if 0 <= post_pos && spec_contains_at(lines, p.lines, post_pos)
                        && st.lines_index <= post_pos + np {
                        ApplyState {
                            out: st.out + spec_emit(lines, st.lines_index, post_pos + np),
                            lines_index: post_pos + np,
                            offset: st.offset + np - na,
                            already_applied: st.already_applied + 1,
                            ..st
                        }
                    } else {
                        match spec_fuzzy(
                            lines,
                            p.lines,
                            st.lines_index,
                            cv.head_len,
                            cv.tail_len,
                            na,
                        ) {
                            Some((f, h, t)) => ApplyState {
                                out: st.out + spec_emit(lines, st.lines_index, f + (np - h - t)),
                                lines_index: f + (np - h - t),
                                offset: f - h - p.start,
                                already_merged: st.already_merged + 1,
                                ..st
                            },
                            None => {
                                if st.lines_index < lines.len() {
                                    ApplyState {
                                        out: st.out + "<<<<<<<\n"@ + spec_emit(a.lines, 0, na)
                                            + "=======\n"@ + spec_emit(p.lines, 0, np)
                                            + ">>>>>>>\n"@,
                                        failures: st.failures + 1,
                                        ..st
                                    }
                                } else {
                                    ApplyState {
                                        failures: st.failures + remaining,
                                        stopped: true,
                                        ..st
                                    }
                                }
                            },
                        }
                    }
                },
            }
        }
    }
}

/// Folds the engine over the changes from index `k` on.
pub open spec fn spec_apply_changes_from(
    cvs: Seq<ChangeView>,
    lines: Seq<Seq<char>>,
    st: ApplyState,
    k: int,
) -> ApplyState
    decreases cvs.len() - k,
{
    if k < 0 || k >= cvs.len() {
        st
    } else {
        spec_apply_changes_from(
            cvs,
            lines,
            spec_apply_step(cvs[k], lines, st, cvs.len() - k),
            k + 1,
        )
    }
}

/// The complete run of the engine over a line sequence: fold the changes,
/// then flush the lines not yet consumed.
pub open spec fn spec_apply_changes_lines(cvs: Seq<ChangeView>, lines: Seq<Seq<char>>) -> ApplyState {
    let st = spec_apply_changes_from(cvs, lines, spec_initial_state(), 0);
    ApplyState { out: st.out + spec_emit(lines, st.lines_index, lines.len() as int), ..st }
}

/// The complete run of the engine over a text: segment it into lines, then
/// apply the changes.
pub open spec fn spec_apply_changes(cvs: Seq<ChangeView>, text: Seq<char>) -> ApplyState {
    spec_apply_changes_lines(cvs, spec_lines_of(text))
}

// ---- facts the engine's proofs need about the spec search functions ----

pub proof fn lemma_find_first_some(hay: Seq<Seq<char>>, sub: Seq<Seq<char>>, from: int)
    requires
        spec_find_first(hay, sub, from) is Some,
    ensures
        ({
            let f = spec_find_first(hay, sub, from)->Some_0;
            &&& from <= f
            &&& spec_contains_at(hay, sub, f)
        }),
    decreases hay.len() + 1 - from,
{
    if !(from < 0 || from + sub.len() > hay.len()) && !spec_contains_at(hay, sub, from) {
        lemma_find_first_some(hay, sub, from + 1);
    }
}

/// The characterization the executable search establishes pins the spec
/// search down.
pub proof fn lemma_find_first_agrees(
    hay: Seq<Seq<char>>,
    sub: Seq<Seq<char>>,
    from: int,
    r: Option<int>,
)
    requires
        from >= 0,
        match r {
            Some(i) => {
                &&& from <= i
                &&& spec_contains_at(hay, sub, i)
                &&& forall|j: int| from <= j < i ==> !spec_contains_at(hay, sub, j)
            },
            None => forall|j: int| from <= j ==> !spec_contains_at(hay, sub, j),
        },
    ensures
        spec_find_first(hay, sub, from) == r,
    decreases hay.len() + 1 - from,
{
    if from + sub.len() > hay.len() {
        assert(r is None) by {
            if r is Some {
                assert(spec_contains_at(hay, sub, r->Some_0));
            }
        }
    } else if spec_contains_at(hay, sub, from) {
        assert(r == Some(from));
    } else {
        lemma_find_first_agrees(hay, sub, from + 1, r);
    }
}

pub proof fn lemma_fuzzy_at_some(
    hay: Seq<Seq<char>>,
    snip: Seq<Seq<char>>,
    from: int,
    head_len: int,
    tail_len: int,
    cap: int,
    head: int,
    tail: int,
)
    requires
        from >= 0,
        spec_fuzzy_at(hay, snip, from, head_len, tail_len, cap, head, tail) is Some,
    ensures
        ({
            let (f, h, t) = spec_fuzzy_at(
                hay,
                snip,
                from,
                head_len,
                tail_len,
                cap,
                head,
                tail,
            )->Some_0;
            &&& 0 <= h < head_len
            &&& 0 <= t < tail_len
            &&& h + t <= snip.len()
            &&& h + t <= cap
            &&& from <= f
            &&& spec_contains_at(hay, snip.subrange(h, snip.len() - t), f)
        }),
    decreases head_len - head, tail_len - tail,
{
    if !(head < 0 || tail < 0 || head >= head_len) {
        if tail >= tail_len {
            lemma_fuzzy_at_some(hay, snip, from, head_len, tail_len, cap, head + 1, 0);
        } else {
            let attempt = if head + tail <= snip.len() && head + tail <= cap {
                spec_find_first(hay, snip.subrange(head, snip.len() - tail), from)
            } else {
                None
            };
            match attempt {
                Some(f) => {
                    lemma_find_first_some(hay, snip.subrange(head, snip.len() - tail), from);
                },
                None => {
                    lemma_fuzzy_at_some(hay, snip, from, head_len, tail_len, cap, head, tail + 1);
                },
            }
        }
    }
}

impl Snippet {
    /// Does the target hold this snippet's lines at its start index moved by
    /// `offset`?
    pub fn matches_lines(&self, lines: &Vec<String>, offset: i128) -> (r: bool)
        requires
            -0x20000000000000000 <= offset <= 0x20000000000000000,
        ensures
            r == {
                let pos = self@.start + offset;
                0 <= pos && spec_contains_at(lines.deep_view(), self@.lines, pos)
            },
    {
        let pos = self.start_index as i128 + offset;
        if pos < 0 || pos > lines.len() as i128 {
            return false;
        }
        let sub = self.lines.as_slice();
        proof {
            assert(sub.deep_view() =~= self.lines.deep_view());
        }
        lines.contains_sub_lines_at(sub, pos as usize)
    }

    /// Searches the target from `start_index` on for this snippet with its
    /// outer context progressively trimmed; the first hit wins.  A reduction
    /// pair that exceeds this snippet or `cap` is skipped.
    pub fn match_lines_fuzzy(
        &self,
        lines: &Vec<String>,
        start_index: usize,
        context: &Context,
        cap: usize,
    ) -> (r: Option<(usize, usize, usize)>)
        ensures
            ({
                let sf = spec_fuzzy(
                    lines.deep_view(),
                    self@.lines,
                    start_index as int,
                    context.head_len as int,
                    context.tail_len as int,
                    cap as int,
                );
                match r {
                    Some((f, h, t)) => sf == Some((f as int, h as int, t as int)),
                    None => sf is None,
                }
            }),
    {
        let ghost hay = lines.deep_view();
        let ghost snip = self@.lines;
        let ghost hl = context.head_len as int;
        let ghost tl = context.tail_len as int;
        let ghost capg = cap as int;
        let mut head: usize = 0;
        while head < context.head_len
            invariant
                0 <= head <= context.head_len,
                hay == lines.deep_view(),
                snip == self@.lines,
                snip.len() == self.lines@.len(),
                hl == context.head_len as int,
                tl == context.tail_len as int,
                capg == cap as int,
                spec_fuzzy(hay, snip, start_index as int, hl, tl, capg) == spec_fuzzy_at(
                    hay,
                    snip,
                    start_index as int,
                    hl,
                    tl,
                    capg,
                    head as int,
                    0,
                ),
            decreases context.head_len - head,
        {
            let mut tail: usize = 0;
            while tail < context.tail_len
                invariant
                    0 <= head < context.head_len,
                    0 <= tail <= context.tail_len,
                    hay == lines.deep_view(),
                    snip == self@.lines,
                    snip.len() == self.lines@.len(),
                    hl == context.head_len as int,
                    tl == context.tail_len as int,
                    capg == cap as int,
                    spec_fuzzy(hay, snip, start_index as int, hl, tl, capg) == spec_fuzzy_at(
                        hay,
                        snip,
                        start_index as int,
                        hl,
                        tl,
                        capg,
                        head as int,
                        tail as int,
                    ),
                decreases context.tail_len - tail,
            {
                if head as u128 + tail as u128 <= self.lines.len() as u128 && head as u128
                    + tail as u128 <= cap as u128 {
                    let to_index = self.lines.len() - tail;
                    let sub = &self.lines[head..to_index];
                    proof {
                        assert(sub.deep_view() =~= snip.subrange(
                            head as int,
                            snip.len() - tail as int,
                        ));
                    }
                    let found = lines.find_first_sub_lines(sub, start_index);
                    proof {
                        lemma_find_first_agrees(
                            hay,
                            snip.subrange(head as int, snip.len() - tail as int),
                            start_index as int,
                            match found {
                                Some(i) => Some(i as int),
                                None => None,
                            },
                        );
                    }
                    if let Some(f) = found {
                        proof {
                            assert(spec_find_first(
                                hay,
                                snip.subrange(head as int, snip.len() - tail as int),
                                start_index as int,
                            ) == Some(f as int));
                            assert(snip.len() == self.lines@.len());
                            assert(head as int + tail as int <= snip.len() && head as int
                                + tail as int <= capg);
                            assert(spec_fuzzy_at(
                                hay,
                                snip,
                                start_index as int,
                                hl,
                                tl,
                                capg,
                                head as int,
                                tail as int,
                            ) == Some((f as int, head as int, tail as int)));
                        }
                        return Some((f, head, tail));
                    }
                    proof {
                        assert(spec_fuzzy_at(
                            hay,
                            snip,
                            start_index as int,
                            hl,
                            tl,
                            capg,
                            head as int,
                            tail as int,
                        ) == spec_fuzzy_at(
                            hay,
                            snip,
                            start_index as int,
                            hl,
                            tl,
                            capg,
                            head as int,
                            tail as int + 1,
                        ));
                    }
                } else {
                    proof {
                        assert(head as int + tail as int > self.lines@.len() || head as int
                            + tail as int > capg);
                        assert(snip.len() == self.lines@.len());
                        assert(!(head as int + tail as int <= snip.len() && head as int
                            + tail as int <= capg));
                        assert(spec_fuzzy_at(
                            hay,
                            snip,
                            start_index as int,
                            hl,
                            tl,
                            capg,
                            head as int,
                            tail as int,
                        ) == spec_fuzzy_at(
                            hay,
                            snip,
                            start_index as int,
                            hl,
                            tl,
                            capg,
                            head as int,
                            tail as int + 1,
                        ));
                    }
                }
                tail = tail + 1;
            }
            proof {
                assert(spec_fuzzy_at(
                    hay,
                    snip,
                    start_index as int,
                    hl,
                    tl,
                    capg,
                    head as int,
                    tail as int,
                ) == spec_fuzzy_at(
                    hay,
                    snip,
                    start_index as int,
                    hl,
                    tl,
                    capg,
                    head as int + 1,
                    0,
                ));
            }
            head = head + 1;
        }
        proof {
            assert(spec_fuzzy_at(hay, snip, start_index as int, hl, tl, capg, head as int, 0)
                is None);
        }
        None
    }
}

/// Appends the lines `[from, to)` of `lines` to `out`.
fn append_lines_range(out: &mut String, lines: &Vec<String>, from: usize, to: usize)
    requires
        from <= to <= lines@.len(),
    ensures
        final(out)@ == old(out)@ + spec_emit(lines.deep_view(), from as int, to as int),
{
    let ghost base = out@;
    let ghost lv = lines.deep_view();
    let mut k = from;
    while k < to
        invariant
            from <= k <= to <= lines@.len(),
            lv == lines.deep_view(),
            base == old(out)@,
            out@ == base + spec_emit(lv, from as int, k as int),
        decreases to - k,
    {
        out.append(lines[k].as_str());
        proof {
            let prev = lv.subrange(from as int, k as int);
            let next = lv.subrange(from as int, k + 1 as int);
            assert(next =~= prev.push(lv[k as int]));
            lemma_concat_snoc(prev, lv[k as int]);
        }
        k = k + 1;
    }
}

/// Concatenation distributes over appending one more line.
pub proof fn lemma_concat_snoc(ls: Seq<Seq<char>>, x: Seq<char>)
    ensures
        spec_concat_lines(ls.push(x)) == spec_concat_lines(ls) + x,
    decreases ls.len(),
{
    let ps = ls.push(x);
    if ls.len() == 0 {
        assert(ps[0] == x);
        assert(ps.subrange(1, ps.len() as int) =~= Seq::<Seq<char>>::empty());
        assert(spec_concat_lines(ps.subrange(1, ps.len() as int)) =~= Seq::<char>::empty());
        assert(spec_concat_lines(ps) =~= x);
        assert(spec_concat_lines(ls) =~= Seq::<char>::empty());
        assert(spec_concat_lines(ls) + x =~= x);
    } else {
        assert(ps[0] == ls[0]);
        let tl = ls.subrange(1, ls.len() as int);
        assert(ps.subrange(1, ps.len() as int) =~= tl.push(x));
        lemma_concat_snoc(tl, x);
        assert(spec_concat_lines(ps) == ps[0] + spec_concat_lines(ps.subrange(
            1,
            ps.len() as int,
        )));
        assert(spec_concat_lines(ps) == ls[0] + (spec_concat_lines(tl) + x));
        assert(spec_concat_lines(ls) == ls[0] + spec_concat_lines(tl));
        assert(ls[0] + (spec_concat_lines(tl) + x) =~= (ls[0] + spec_concat_lines(tl)) + x);
    }
}

/// Applies the changes to `text` in order, trying for each one an exact
/// match, a fuzzy match, the already-applied state and the already-merged
/// state, and emitting a conflict block when none of those holds.
pub fn apply_changes(changes: &[Change], text: &str) -> (r: Changed)
    ensures
        ({
            let m = spec_apply_changes(changes.deep_view(), text@);
            &&& r.string@ == m.out
            &&& r.successes == m.successes
            &&& r.merges == m.merges
            &&& r.already_applied == m.already_applied
            &&& r.already_merged == m.already_merged
            &&& r.failures == m.failures
        }),
{
    let lines: Vec<String> = split_lines(text);
    apply_changes_to_lines(changes, &lines)
}

/// Applies the changes to an already segmented line sequence.
#[verifier::rlimit(100)]
pub fn apply_changes_to_lines(changes: &[Change], lines: &Vec<String>) -> (r: Changed)
    ensures
        ({
            let m = spec_apply_changes_lines(changes.deep_view(), lines.deep_view());
            &&& r.string@ == m.out
            &&& r.successes == m.successes
            &&& r.merges == m.merges
            &&& r.already_applied == m.already_applied
            &&& r.already_merged == m.already_merged
            &&& r.failures == m.failures
        }),
{
    let ghost lv = lines.deep_view();
    let ghost cvs = changes.deep_view();
    let nl = lines.len();
    let n = changes.len();
    let mut out = String::new();
    let mut successes: u64 = 0;
    let mut merges: u64 = 0;
    let mut already_applied: u64 = 0;
    let mut already_merged: u64 = 0;
    let mut failures: u64 = 0;
    let mut current_offset: i128 = 0;
    let mut lines_index: usize = 0;
    let mut stopped: bool = false;
    let mut k: usize = 0;
    while k < n
        invariant
            n == changes@.len(),
            cvs == changes.deep_view(),
            lv == lines.deep_view(),
            lv.len() == lines@.len(),
            nl == lines@.len(),
            0 <= k <= n,
            lines_index <= lines@.len(),
            -0x20000000000000000 <= current_offset <= 0x20000000000000000,
            successes + merges + already_applied + already_merged + failures <= n,
            !stopped ==> successes + merges + already_applied + already_merged + failures <= k,
            spec_apply_changes_from(
                cvs,
                lv,
                ApplyState {
                    out: out@,
                    lines_index: lines_index as int,
                    offset: current_offset as int,
                    successes: successes as int,
                    merges: merges as int,
                    already_applied: already_applied as int,
                    already_merged: already_merged as int,
                    failures: failures as int,
                    stopped: stopped,
                },
                k as int,
            ) == spec_apply_changes_from(cvs, lv, spec_initial_state(), 0),
        decreases n - k,
    {
        let ghost st_before = ApplyState {
            out: out@,
            lines_index: lines_index as int,
            offset: current_offset as int,
            successes: successes as int,
            merges: merges as int,
            already_applied: already_applied as int,
            already_merged: already_merged as int,
            failures: failures as int,
            stopped: stopped,
        };
        proof {
            assert(cvs[k as int] == changes@[k as int]@);
        }
        if !stopped {
            let change = &changes[k];
            let a = &change.ante_snippet;
            let p = &change.post_snippet;
            let na = a.lines.len();
            let np = p.lines.len();
            if a.matches_lines(lines, current_offset) && a.start_index as i128 + current_offset
                >= lines_index as i128 {
                // exact match: emit the gap, then the post block
                proof {
                    assert(a@.lines.len() == a.lines@.len());
                    assert(0 <= a@.start + current_offset);
                    assert(spec_contains_at(lv, a@.lines, a@.start + current_offset));
                    assert(a@.start + current_offset + a@.lines.len() <= lv.len());
                }
                let index = (a.start_index as i128 + current_offset) as usize;
                append_lines_range(&mut out, lines, lines_index, index);
                append_lines_range(&mut out, &p.lines, 0, np);
                lines_index = index + na;
                successes = successes + 1;
            } else {
                let fz = a.match_lines_fuzzy(lines, lines_index, &change.context, np);
                if let Some((f, h, t)) = fz {
                    // merge: emit the gap, then the reduced post block
                    proof {
                        lemma_fuzzy_at_some(
                            lv,
                            a@.lines,
                            lines_index as int,
                            change@.head_len,
                            change@.tail_len,
                            np as int,
                            0,
                            0,
                        );
                    }
                    append_lines_range(&mut out, lines, lines_index, f);
                    append_lines_range(&mut out, &p.lines, h, np - t);
                    lines_index = f + (na - h - t);
                    current_offset = f as i128 - a.start_index as i128;
                    merges = merges + 1;
                } else if p.matches_lines(lines, current_offset) && (p.start_index as i128
                    + current_offset) + np as i128 >= lines_index as i128 {
                    // already applied: emit the source verbatim through the
                    // end of the matched post block
                    let index = (p.start_index as i128 + current_offset) as usize;
                    append_lines_range(&mut out, lines, lines_index, index + np);
                    lines_index = index + np;
                    current_offset = current_offset + np as i128 - na as i128;
                    already_applied = already_applied + 1;
                } else {
                    let fzp = p.match_lines_fuzzy(lines, lines_index, &change.context, na);
                    if let Some((f, h, t)) = fzp {
                        // already merged: emit the source verbatim through the
                        // end of the matched reduced post block
                        proof {
                            lemma_fuzzy_at_some(
                                lv,
                                p@.lines,
                                lines_index as int,
                                change@.head_len,
                                change@.tail_len,
                                na as int,
                                0,
                                0,
                            );
                        }
                        append_lines_range(&mut out, lines, lines_index, f + (np - h - t));
                        lines_index = f + (np - h - t);
                        current_offset = f as i128 - h as i128 - p.start_index as i128;
                        already_merged = already_merged + 1;
                    } else if lines_index < lines.len() {
                        // conflict
                        out.append("<<<<<<<\n");
                        append_lines_range(&mut out, &a.lines, 0, na);
                        out.append("=======\n");
                        append_lines_range(&mut out, &p.lines, 0, np);
                        out.append(">>>>>>>\n");
                        failures = failures + 1;
                    } else {
                        // the source is exhausted: the remaining changes fail
                        failures = failures + (n - k) as u64;
                        stopped = true;
                    }
                }
            }
        }
        proof {
            let st_after = ApplyState {
                out: out@,
                lines_index: lines_index as int,
                offset: current_offset as int,
                successes: successes as int,
                merges: merges as int,
                already_applied: already_applied as int,
                already_merged: already_merged as int,
                failures: failures as int,
                stopped: stopped,
            };
            assert(st_after =~= spec_apply_step(cvs[k as int], lv, st_before, n - k));
        }
        k = k + 1;
    }
    append_lines_range(&mut out, lines, lines_index, lines.len());
    Changed {
        string: out,
        successes,
        merges,
        already_applied,
        already_merged,
        failures,
    }
}

/// How many leading lines two blocks share.
pub open spec fn spec_eq_head_count(a: Seq<Seq<char>>, b: Seq<Seq<char>>) -> int
    decreases a.len(),
{
    if a.len() == 0 || b.len() == 0 {
        0
    } else if a[0] == b[0] {
        1 + spec_eq_head_count(a.skip(1), b.skip(1))
    } else {
        0
    }
}

/// How many trailing lines two blocks share.
pub open spec fn spec_eq_tail_count(a: Seq<Seq<char>>, b: Seq<Seq<char>>) -> int
    decreases a.len(),
{
    if a.len() == 0 || b.len() == 0 {
        0
    } else if a.last() == b.last() {
        1 + spec_eq_tail_count(a.drop_last(), b.drop_last())
    } else {
        0
    }
}

/// The change an application engine runs for a pair of blocks: the shared
/// context is measured, and left empty for a change whose sides are equal.
pub open spec fn spec_change(
    ante_start: int,
    a: Seq<Seq<char>>,
    post_start: int,
    b: Seq<Seq<char>>,
) -> ChangeView {
    let h = if a == b {
        0
    } else {
        spec_eq_head_count(a, b)
    };
    let t = if a == b {
        0
    } else {
        spec_eq_tail_count(a, b)
    };
    ChangeView {
        ante: SnippetView { start: ante_start, lines: a },
        post: SnippetView { start: post_start, lines: b },
        head_len: h,
        tail_len: t,
    }
}

/// Counts the shared leading lines of two line vectors.
#[verifier::loop_isolation(false)]
pub fn eq_head_count(a: &Vec<String>, b: &Vec<String>) -> (r: usize)
    ensures
        r as int == spec_eq_head_count(a.deep_view(), b.deep_view()),
{
    let ghost av = a.deep_view();
    let ghost bv = b.deep_view();
    let m = if a.len() <= b.len() {
        a.len()
    } else {
        b.len()
    };
    let mut i: usize = 0;
    proof {
        assert(av.skip(0) =~= av);
        assert(bv.skip(0) =~= bv);
    }
    while i < m
        invariant
            i <= m,
            spec_eq_head_count(av, bv) == i + spec_eq_head_count(
                av.skip(i as int),
                bv.skip(i as int),
            ),
        decreases m - i,
    {
        if !crate::lines::lines_eq(&a[i], &b[i]) {
            proof {
                assert(av.skip(i as int)[0] == av[i as int]);
                assert(bv.skip(i as int)[0] == bv[i as int]);
                assert(spec_eq_head_count(av.skip(i as int), bv.skip(i as int)) == 0);
            }
            return i;
        }
        proof {
            assert(av.skip(i as int)[0] == av[i as int]);
            assert(bv.skip(i as int)[0] == bv[i as int]);
            assert(av.skip(i as int).skip(1) =~= av.skip(i as int + 1));
            assert(bv.skip(i as int).skip(1) =~= bv.skip(i as int + 1));
        }
        i = i + 1;
    }
    proof {
        assert(spec_eq_head_count(av.skip(i as int), bv.skip(i as int)) == 0);
    }
    m
}

/// Counts the shared trailing lines of two line vectors.
#[verifier::loop_isolation(false)]
pub fn eq_tail_count(a: &Vec<String>, b: &Vec<String>) -> (r: usize)
    ensures
        r as int == spec_eq_tail_count(a.deep_view(), b.deep_view()),
{
    let ghost av = a.deep_view();
    let ghost bv = b.deep_view();
    let m = if a.len() <= b.len() {
        a.len()
    } else {
        b.len()
    };
    let mut i: usize = 0;
    proof {
        assert(av.take(av.len() as int) =~= av);
        assert(bv.take(bv.len() as int) =~= bv);
    }
    while i < m
        invariant
            i <= m,
            m <= a@.len(),
            m <= b@.len(),
            spec_eq_tail_count(av, bv) == i + spec_eq_tail_count(
                av.take(av.len() - i),
                bv.take(bv.len() - i),
            ),
        decreases m - i,
    {
        let la = a.len() - 1 - i;
        let lb = b.len() - 1 - i;
        if !crate::lines::lines_eq(&a[la], &b[lb]) {
            proof {
                assert(av.take(av.len() - i).last() == av[la as int]);
                assert(bv.take(bv.len() - i).last() == bv[lb as int]);
                assert(spec_eq_tail_count(av.take(av.len() - i), bv.take(bv.len() - i)) == 0);
            }
            return i;
        }
        proof {
            assert(av.take(av.len() - i).last() == av[la as int]);
            assert(bv.take(bv.len() - i).last() == bv[lb as int]);
            assert(av.take(av.len() - i).drop_last() =~= av.take(av.len() - (i + 1)));
            assert(bv.take(bv.len() - i).drop_last() =~= bv.take(bv.len() - (i + 1)));
        }
        i = i + 1;
    }
    proof {
        assert(av.take(av.len() - m).len() == 0 || bv.take(bv.len() - m).len() == 0);
        assert(spec_eq_tail_count(av.take(av.len() - m), bv.take(bv.len() - m)) == 0);
    }
    m
}

/// Builds the change a pair of blocks stands for, measuring their shared
/// context.
pub fn make_change(ante_start: usize, ante: Lines, post_start: usize, post: Lines) -> (c: Change)
    ensures
        c@ == spec_change(
            ante_start as int,
            ante.deep_view(),
            post_start as int,
            post.deep_view(),
        ),
{
    let equal = lines_vec_eq(&ante, &post);
    let head_len = if equal {
        0
    } else {
        eq_head_count(&ante, &post)
    };
    let tail_len = if equal {
        0
    } else {
        eq_tail_count(&ante, &post)
    };
    Change {
        ante_snippet: Snippet { start_index: ante_start, lines: ante },
        post_snippet: Snippet { start_index: post_start, lines: post },
        context: Context { head_len, tail_len },
    }
}

/// Compares two line vectors line for line.
#[verifier::loop_isolation(false)]
pub fn lines_vec_eq(a: &Vec<String>, b: &Vec<String>) -> (r: bool)
    ensures
        r == (a.deep_view() == b.deep_view()),
{
    if a.len() != b.len() {
        proof {
            assert(a.deep_view().len() != b.deep_view().len());
        }
        return false;
    }
    let mut i: usize = 0;
    while i < a.len()
        invariant
            i <= a@.len(),
            a@.len() == b@.len(),
            forall|j: int| 0 <= j < i ==> a.deep_view()[j] == b.deep_view()[j],
        decreases a@.len() - i,
    {
        if !crate::lines::lines_eq(&a[i], &b[i]) {
            proof {
                assert(a.deep_view()[i as int] == a@[i as int]@);
                assert(b.deep_view()[i as int] == b@[i as int]@);
            }
            return false;
        }
        proof {
            assert(a.deep_view()[i as int] == a@[i as int]@);
            assert(b.deep_view()[i as int] == b@[i as int]@);
        }
        i = i + 1;
    }
    proof {
        assert(a.deep_view() =~= b.deep_view());
    }
    true
}

/// Where a hunk landed: its 1-based start line and how many lines it
/// covers.
#[derive(Debug, Clone, Copy)]
pub struct AppliedPosnData {
    pub start_posn: usize,
    pub length: usize,
}

impl AppliedPosnData {
    /// The human-readable form, `line <start> (<length> lines)`.
    pub fn to_display_string(&self) -> (r: String)
        ensures
            r@ == "line "@ + crate::scan::spec_decimal(self.start_posn as int) + " ("@
                + crate::scan::spec_decimal(self.length as int) + " lines)"@,
    {
        let mut out = String::new();
        out.append("line ");
        let start_digits = crate::scan::usize_to_decimal(self.start_posn);
        out.append(start_digits.as_str());
        out.append(" (");
        let length_digits = crate::scan::usize_to_decimal(self.length);
        out.append(length_digits.as_str());
        out.append(" lines)");
        proof {
            assert(out@ =~= "line "@ + crate::scan::spec_decimal(self.start_posn as int) + " ("@
                + crate::scan::spec_decimal(self.length as int) + " lines)"@);
        }
        out
    }
}

} // verus!
