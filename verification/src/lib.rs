//! A library for parsing and applying textual and binary patch streams.
//!
//! The crate recognizes unified, context and binary-delta diffs in a stream
//! of input lines, decodes embedded binary payloads, and applies the
//! extracted edits to a target text with exact, fuzzy, already-applied and
//! already-merged tolerance.

pub mod change;
pub mod context_diff;
pub mod diff;
pub mod git_binary_diff;
pub mod laws;
pub mod lines;
pub mod preamble;
pub mod scan;
pub mod unified_diff;
pub mod text_diff;

use vstd::prelude::*;

verus! {

/// The diff dialects the parsers recognize.
#[derive(Debug, PartialEq, Eq, Structural, Clone, Copy)]
pub enum DiffFormat {
    Unified,
    Context,
    GitBinary,
}

/// Moving a position by a signed offset.
pub trait ApplyOffset: Sized {
    fn apply_offset(self, offset: i64) -> Self;
}

impl ApplyOffset for usize {
    /// The position `offset` further on, truncated to the machine word.
    fn apply_offset(self, offset: i64) -> usize {
        let v: i128 = self as i128 + offset as i128;
        #[verifier::truncate] (v as usize)
    }
}

/// An iterator over several borrowed line lists in turn.
pub struct MultiListIter<'a, T> {
    pub lists: Vec<&'a [T]>,
    pub current_list: usize,
    pub current_index: usize,
}

/// The items an iterator state still yields, in order.
pub open spec fn spec_multi_remaining<T>(
    lists: Seq<Seq<T>>,
    list: int,
    index: int,
) -> Seq<T>
    decreases lists.len() - list,
{
    if list < 0 || list >= lists.len() {
        Seq::empty()
    } else {
        let cur = if 0 <= index <= lists[list].len() {
            lists[list].subrange(index, lists[list].len() as int)
        } else {
            Seq::empty()
        };
        cur + spec_multi_remaining(lists, list + 1, 0)
    }
}

impl<'a, T> MultiListIter<'a, T> {
    pub open spec fn lists_view(&self) -> Seq<Seq<T>> {
        Seq::new(self.lists@.len(), |i: int| self.lists@[i]@)
    }

    pub open spec fn wf(&self) -> bool {
        &&& self.current_list <= self.lists@.len()
        &&& (self.current_list < self.lists@.len() ==> self.current_index
            <= self.lists@[self.current_list as int]@.len())
        &&& (self.current_list >= self.lists@.len() ==> self.current_index == 0)
    }

    /// What this iterator still yields.
    pub open spec fn remaining(&self) -> Seq<T> {
        spec_multi_remaining(self.lists_view(), self.current_list as int, self.current_index as int)
    }

    pub fn new(lists: Vec<&'a [T]>) -> (r: MultiListIter<'a, T>)
        ensures
            r.wf(),
            r.lists_view() == Seq::new(lists@.len(), |i: int| lists@[i]@),
            r.current_list == 0,
            r.current_index == 0,
    {
        MultiListIter { lists, current_list: 0, current_index: 0 }
    }

    /// Adds one more list at the end.
    pub fn push(&mut self, list: &'a [T])
        requires
            old(self).wf(),
        ensures
            final(self).wf(),
            final(self).lists_view() =~= old(self).lists_view().push(list@),
    {
        self.lists.push(list);
        proof {
            assert(final(self).lists_view() =~= old(self).lists_view().push(list@));
        }
    }

    /// Inserts a list right before the current one: it is yielded next.
    pub fn prepend(&mut self, list: &'a [T])
        requires
            old(self).wf(),
            old(self).current_index == 0,
        ensures
            final(self).wf(),
            final(self).lists_view() =~= old(self).lists_view().insert(
                old(self).current_list as int,
                list@,
            ),
            final(self).current_list == old(self).current_list,
            final(self).current_index == 0,
    {
        self.lists.insert(self.current_list, list);
        proof {
            assert(final(self).lists_view() =~= old(self).lists_view().insert(
                old(self).current_list as int,
                list@,
            ));
        }
    }

    /// Appends the lists another iterator has not yet finished.
    #[verifier::loop_isolation(false)]
    pub fn append(&mut self, rhs: &MultiListIter<'a, T>)
        requires
            old(self).wf(),
            rhs.wf(),
        ensures
            final(self).wf(),
            final(self).lists_view() =~= old(self).lists_view() + rhs.lists_view().skip(
                rhs.current_list as int,
            ),
            final(self).current_list == old(self).current_list,
            final(self).current_index == old(self).current_index,
    {
        let mut k = rhs.current_list;
        while k < rhs.lists.len()
            invariant
                rhs.current_list <= k <= rhs.lists@.len(),
                self.wf(),
                self.current_list == old(self).current_list,
                self.current_index == old(self).current_index,
                self.lists@.len() >= old(self).lists@.len(),
                self.lists_view() =~= old(self).lists_view() + rhs.lists_view().subrange(
                    rhs.current_list as int,
                    k as int,
                ),
            decreases rhs.lists@.len() - k,
        {
            let ghost before = self.lists@;
            let ghost bview = self.lists_view();
            self.lists.push(rhs.lists[k]);
            proof {
                if self.current_list < before.len() {
                    assert(self.lists@[self.current_list as int] == before[
                        self.current_list as int
                    ]);
                }
                assert(self.lists_view() =~= bview.push(rhs.lists@[k as int]@));
                assert(rhs.lists_view()[k as int] == rhs.lists@[k as int]@);
                assert(rhs.lists_view().subrange(rhs.current_list as int, k + 1)
                    =~= rhs.lists_view().subrange(rhs.current_list as int, k as int).push(
                    rhs.lists_view()[k as int],
                ));
                assert(self.lists_view() =~= old(self).lists_view()
                    + rhs.lists_view().subrange(rhs.current_list as int, k + 1));
            }
            k = k + 1;
        }
        proof {
            assert(rhs.lists_view().subrange(rhs.current_list as int, rhs.lists@.len() as int)
                =~= rhs.lists_view().skip(rhs.current_list as int));
        }
    }

    /// The next item, if one remains.
    #[verifier::loop_isolation(false)]
    pub fn next(&mut self) -> (r: Option<&'a T>)
        requires
            old(self).wf(),
        ensures
            final(self).wf(),
            final(self).lists_view() == old(self).lists_view(),
            match r {
                Some(item) => old(self).remaining().len() > 0 && *item == old(
                    self,
                ).remaining()[0] && final(self).remaining() =~= old(self).remaining().skip(1),
                None => old(self).remaining().len() == 0 && final(self).remaining() =~= old(
                    self,
                ).remaining(),
            },
    {
        loop
            invariant
                self.wf(),
                self.lists_view() == old(self).lists_view(),
                self.remaining() =~= old(self).remaining(),
            decreases self.lists@.len() - self.current_list,
        {
            if self.current_list >= self.lists.len() {
                return None;
            }
            let cur = self.lists[self.current_list];
            if self.current_index < cur.len() {
                let item = &cur[self.current_index];
                let ghost before = self.remaining();
                self.current_index = self.current_index + 1;
                proof {
                    assert(self.remaining() =~= before.skip(1));
                    assert(before[0] == *item);
                }
                return Some(item);
            }
            self.current_list = self.current_list + 1;
            self.current_index = 0;
        }
    }
}

} // verus!
