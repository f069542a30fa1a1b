//! Ranges of the source text, and lists of them.

use vstd::prelude::*;
use crate::arena::{
    chain, follow, head_ok, lemma_follow_skips, link_ok, step, Arena, RawRange, TreeModel,
};

verus! {

/// The range `range` lies within a text of `len` bytes.
pub open spec fn within(range: RawRange, len: nat) -> bool {
    0 <= range.start_byte <= range.end_byte <= len
}

/// A range of bytes of the source text.
#[derive(Clone, Copy, Debug)]
pub struct RBSLocationRange {
    range: RawRange,
}

impl View for RBSLocationRange {
    type V = RawRange;

    closed spec fn view(&self) -> RawRange {
        self.range
    }
}

impl RBSLocationRange {
    #[must_use]
    pub fn new(range: RawRange) -> (r: Self)
        ensures
            r@ == range,
    {
        Self { range }
    }

    /// The offset of the first byte.
    #[must_use]
    pub fn start(&self) -> (r: i32)
        ensures
            r == self@.start_byte,
    {
        self.range.start_byte
    }

    /// The offset behind the last byte.
    #[must_use]
    pub fn end(&self) -> (r: i32)
        ensures
            r == self@.end_byte,
    {
        self.range.end_byte
    }

    /// The bytes of `text` that the range covers, where it lies within
    /// `text`.
    pub fn slice<'s>(&self, text: &'s [u8]) -> (r: Option<&'s [u8]>)
        ensures
            r is Some <==> within(self@, text@.len()),
            r is Some ==> r->0@ == text@.subrange(self@.start_byte as int, self@.end_byte as int),
    {
        let start = self.range.start_byte;
        let end = self.range.end_byte;
        if 0 <= start && start <= end && end as usize <= text.len() {
            Some(&text[start as usize..end as usize])
        } else {
            None
        }
    }
}

/// A list of ranges held by the arena.
#[derive(Clone, Copy)]
pub struct RBSLocationRangeList<'a> {
    arena: &'a Arena,
    head: Option<usize>,
}

/// A cursor over a list of ranges.
pub struct RBSLocationRangeListIter<'a> {
    arena: &'a Arena,
    current: Option<usize>,
}

impl<'a> View for RBSLocationRangeList<'a> {
    type V = Seq<RawRange>;

    /// The ranges of the list, in order.
    closed spec fn view(&self) -> Seq<RawRange> {
        chain(self.arena@.range_cells, self.head)
    }
}

impl<'a> View for RBSLocationRangeListIter<'a> {
    type V = Seq<RawRange>;

    /// The ranges that the cursor has yet to give, in order.
    closed spec fn view(&self) -> Seq<RawRange> {
        chain(self.arena@.range_cells, self.current)
    }
}

impl<'a> RBSLocationRangeList<'a> {
    #[verifier::type_invariant]
    spec fn inv(self) -> bool {
        head_ok(self.head, self.arena@.range_cells.len())
    }

    /// The tree that the list lies in.
    pub closed spec fn tree(&self) -> TreeModel {
        self.arena@
    }

    /// The cursor that `iter` gives: one at the head of the list.
    pub closed spec fn cursor(&self) -> RBSLocationRangeListIter<'a> {
        RBSLocationRangeListIter { arena: self.arena, current: self.head }
    }

    /// A view of the list of `arena` that starts at `head`.
    pub fn new(arena: &'a Arena, head: Option<usize>) -> (list: Self)
        requires
            head_ok(head, arena@.range_cells.len()),
        ensures
            list@ == chain(arena@.range_cells, head),
            list.tree() == arena@,
    {
        Self { arena, head }
    }

    /// A fresh cursor at the head of the list.
    #[must_use]
    pub fn iter(&self) -> (it: RBSLocationRangeListIter<'a>)
        ensures
            it == self.cursor(),
            it@ == self@,
    {
        proof {
            use_type_invariant(self);
        }
        RBSLocationRangeListIter { arena: self.arena, current: self.head }
    }
}

impl<'a> RBSLocationRangeListIter<'a> {
    #[verifier::type_invariant]
    spec fn inv(self) -> bool {
        head_ok(self.current, self.arena@.range_cells.len())
    }

    /// The cursor after one more item, if there is one.
    pub closed spec fn advanced(&self) -> RBSLocationRangeListIter<'a> {
        match self.current {
            None => *self,
            Some(at) => RBSLocationRangeListIter {
                arena: self.arena,
                current: self.arena@.range_cells[at as int].next,
            },
        }
    }

    /// The cursor after `k` more items, or at the end if there are fewer.
    pub open spec fn advanced_by(&self, k: nat) -> RBSLocationRangeListIter<'a>
        decreases k,
    {
        if k == 0 {
            *self
        } else {
            self.advanced_by((k - 1) as nat).advanced()
        }
    }

    /// Gives the next range and moves on; `None` at the end of the list.
    pub fn next(&mut self) -> (r: Option<RBSLocationRange>)
        ensures
            *final(self) == old(self).advanced(),
            match r {
                None => old(self)@.len() == 0 && final(self)@ == old(self)@,
                Some(range) => {
                    &&& old(self)@.len() > 0
                    &&& range@ == old(self)@[0]
                    &&& final(self)@ == old(self)@.drop_first()
                },
            },
    {
        proof {
            use_type_invariant(&*self);
        }
        self.arena.witness();
        match step(self.arena.range_cells(), self.current) {
            None => None,
            Some((range, next)) => {
                self.current = next;
                Some(RBSLocationRange::new(range))
            },
        }
    }
}

proof fn lemma_range_cursor_follows(list: RBSLocationRangeList, k: nat)
    ensures
        list.cursor().advanced_by(k).arena == list.arena,
        list.cursor().advanced_by(k).current == follow(list.arena@.range_cells, list.head, k),
    decreases k,
{
    if k > 0 {
        lemma_range_cursor_follows(list, (k - 1) as nat);
    }
}

/// Iterating a list of ranges starts over with every cursor.
///
/// The cursor that `iter` gives depends on the list alone and has the whole
/// list before it, however far another cursor has gone; after `k` items it
/// has the list without its first `k` items before it. So two iterations
/// of one list give the same ranges in the same order.
pub proof fn lemma_range_list_restarts(list: RBSLocationRangeList, k: nat)
    requires
        k <= list@.len(),
    ensures
        list.cursor()@ == list@,
        list.cursor().advanced_by(k)@ == list@.skip(k as int),
{
    lemma_range_cursor_follows(list, k);
    lemma_follow_skips(list.arena@.range_cells, list.head, k);
}

/// A range stored in the arena.
#[derive(Clone, Copy)]
pub struct RBSLocation<'a> {
    arena: &'a Arena,
    cell: usize,
}

/// A list of stored ranges.
#[derive(Clone, Copy)]
pub struct RBSLocationList<'a> {
    arena: &'a Arena,
    head: Option<usize>,
}

/// A cursor over a list of stored ranges.
pub struct RBSLocationListIter<'a> {
    arena: &'a Arena,
    current: Option<usize>,
}

impl<'a> View for RBSLocation<'a> {
    type V = RawRange;

    closed spec fn view(&self) -> RawRange {
        self.arena@.range_cells[self.cell as int].item
    }
}

impl<'a> View for RBSLocationList<'a> {
    type V = Seq<RawRange>;

    /// The ranges of the list, in order.
    closed spec fn view(&self) -> Seq<RawRange> {
        chain(self.arena@.range_cells, self.head)
    }
}

impl<'a> View for RBSLocationListIter<'a> {
    type V = Seq<RawRange>;

    /// The ranges that the cursor has yet to give, in order.
    closed spec fn view(&self) -> Seq<RawRange> {
        chain(self.arena@.range_cells, self.current)
    }
}

impl<'a> RBSLocation<'a> {
    #[verifier::type_invariant]
    spec fn inv(self) -> bool {
        self.cell < self.arena@.range_cells.len()
    }

    /// A view of the range that `arena` stores in the cell `cell`.
    pub fn new(cell: usize, arena: &'a Arena) -> (location: Self)
        requires
            cell < arena@.range_cells.len(),
        ensures
            location@ == arena@.range_cells[cell as int].item,
    {
        Self { arena, cell }
    }

    /// The offset of the first byte.
    pub fn start_loc(&self) -> (r: i32)
        ensures
            r == self@.start_byte,
    {
        proof {
            use_type_invariant(self);
        }
        self.arena.range_cells()[self.cell].item.start_byte
    }

    /// The offset behind the last byte.
    pub fn end_loc(&self) -> (r: i32)
        ensures
            r == self@.end_byte,
    {
        proof {
            use_type_invariant(self);
        }
        self.arena.range_cells()[self.cell].item.end_byte
    }
}

impl<'a> RBSLocationList<'a> {
    #[verifier::type_invariant]
    spec fn inv(self) -> bool {
        head_ok(self.head, self.arena@.range_cells.len())
    }

    /// The cursor that `iter` gives: one at the head of the list.
    pub closed spec fn cursor(&self) -> RBSLocationListIter<'a> {
        RBSLocationListIter { arena: self.arena, current: self.head }
    }

    /// A view of the list of `arena` that starts at `head`.
    pub fn new(head: Option<usize>, arena: &'a Arena) -> (list: Self)
        requires
            head_ok(head, arena@.range_cells.len()),
        ensures
            list@ == chain(arena@.range_cells, head),
    {
        Self { arena, head }
    }

    /// A fresh cursor at the head of the list.
    #[must_use]
    pub fn iter(&self) -> (it: RBSLocationListIter<'a>)
        ensures
            it == self.cursor(),
            it@ == self@,
    {
        proof {
            use_type_invariant(self);
        }
        RBSLocationListIter { arena: self.arena, current: self.head }
    }
}

impl<'a> RBSLocationListIter<'a> {
    #[verifier::type_invariant]
    spec fn inv(self) -> bool {
        head_ok(self.current, self.arena@.range_cells.len())
    }

    /// The cursor after one more item, if there is one.
    pub closed spec fn advanced(&self) -> RBSLocationListIter<'a> {
        match self.current {
            None => *self,
            Some(at) => RBSLocationListIter {
                arena: self.arena,
                current: self.arena@.range_cells[at as int].next,
            },
        }
    }

    /// The cursor after `k` more items, or at the end if there are fewer.
    pub open spec fn advanced_by(&self, k: nat) -> RBSLocationListIter<'a>
        decreases k,
    {
        if k == 0 {
            *self
        } else {
            self.advanced_by((k - 1) as nat).advanced()
        }
    }

    /// Gives the next stored range and moves on; `None` at the end of the
    /// list.
    pub fn next(&mut self) -> (r: Option<RBSLocation<'a>>)
        ensures
            *final(self) == old(self).advanced(),
            match r {
                None => old(self)@.len() == 0 && final(self)@ == old(self)@,
                Some(location) => {
                    &&& old(self)@.len() > 0
                    &&& location@ == old(self)@[0]
                    &&& final(self)@ == old(self)@.drop_first()
                },
            },
    {
        proof {
            use_type_invariant(&*self);
        }
        self.arena.witness();
        match self.current {
            None => None,
            Some(cell) => {
                let next = self.arena.range_cells()[cell].next;
                let ghost cells = self.arena@.range_cells;
                assert(link_ok(next, cell as int));
                assert((seq![cells[cell as int].item] + chain(cells, next)).drop_first() == chain(
                    cells,
                    next,
                ));
                self.current = next;
                Some(RBSLocation::new(cell, self.arena))
            },
        }
    }
}

proof fn lemma_location_cursor_follows(list: RBSLocationList, k: nat)
    ensures
        list.cursor().advanced_by(k).arena == list.arena,
        list.cursor().advanced_by(k).current == follow(list.arena@.range_cells, list.head, k),
    decreases k,
{
    if k > 0 {
        lemma_location_cursor_follows(list, (k - 1) as nat);
    }
}

/// Iterating a list of stored ranges starts over with every cursor.
///
/// The cursor that `iter` gives depends on the list alone and has the whole
/// list before it; after `k` items it has the list without its first `k`
/// items before it.
pub proof fn lemma_location_list_restarts(list: RBSLocationList, k: nat)
    requires
        k <= list@.len(),
    ensures
        list.cursor()@ == list@,
        list.cursor().advanced_by(k)@ == list@.skip(k as int),
{
    lemma_location_cursor_follows(list, k);
    lemma_follow_skips(list.arena@.range_cells, list.head, k);
}

} // verus!
