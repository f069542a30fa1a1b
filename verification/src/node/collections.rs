//! Lists of nodes and association lists, each a cursor's walk over linked
//! cells of the arena.

use vstd::prelude::*;
use crate::arena::{chain, follow, head_ok, lemma_follow_skips, step, Arena, TreeModel};
use crate::node::{Node, NodeModel};

verus! {

/// A list of nodes held by the arena.
#[derive(Clone, Copy)]
pub struct NodeList<'a> {
    arena: &'a Arena,
    head: Option<usize>,
}

/// A cursor over a list of nodes.
pub struct NodeListIter<'a> {
    arena: &'a Arena,
    current: Option<usize>,
}

impl<'a> View for NodeList<'a> {
    type V = Seq<usize>;

    /// The indices of the list's nodes, in order.
    closed spec fn view(&self) -> Seq<usize> {
        chain(self.arena@.node_cells, self.head)
    }
}

impl<'a> View for NodeListIter<'a> {
    type V = Seq<usize>;

    /// The indices of the nodes that the cursor has yet to give, in order.
    closed spec fn view(&self) -> Seq<usize> {
        chain(self.arena@.node_cells, self.current)
    }
}

/// The nodes in `nodes` are those of `tree` at the indices `ids`, in order.
pub open spec fn shows(nodes: Seq<Node>, tree: TreeModel, ids: Seq<usize>) -> bool {
    &&& nodes.len() == ids.len()
    &&& forall|i: int|
        0 <= i < nodes.len() ==> (#[trigger] nodes[i])@ == (NodeModel { tree, id: ids[i] })
}

impl<'a> NodeList<'a> {
    #[verifier::type_invariant]
    spec fn inv(self) -> bool {
        head_ok(self.head, self.arena@.node_cells.len())
    }

    /// The tree that the list lies in.
    pub closed spec fn tree(&self) -> TreeModel {
        self.arena@
    }

    /// The cursor that `iter` gives: one at the head of the list.
    pub closed spec fn cursor(&self) -> NodeListIter<'a> {
        NodeListIter { arena: self.arena, current: self.head }
    }

    /// A view of the list of `arena` that starts at `head`.
    #[must_use]
    pub fn new(arena: &'a Arena, head: Option<usize>) -> (list: Self)
        requires
            head_ok(head, arena@.node_cells.len()),
        ensures
            list@ == chain(arena@.node_cells, head),
            list.tree() == arena@,
    {
        Self { arena, head }
    }

    /// A fresh cursor at the head of the list.
    #[must_use]
    pub fn iter(&self) -> (it: NodeListIter<'a>)
        ensures
            it == self.cursor(),
            it@ == self@,
            it.tree() == self.tree(),
    {
        proof {
            use_type_invariant(self);
        }
        NodeListIter { arena: self.arena, current: self.head }
    }

    /// The nodes of the list, in order.
    pub fn nodes(&self) -> (nodes: Vec<Node<'a>>)
        ensures
            shows(nodes@, self.tree(), self@),
    {
        let mut it = self.iter();
        let mut nodes: Vec<Node<'a>> = Vec::new();
        let mut more = true;
        while more
            invariant
                it.tree() == self.tree(),
                nodes@.len() <= self@.len(),
                it@ == self@.skip(nodes@.len() as int),
                !more ==> nodes@.len() == self@.len(),
                forall|i: int|
                    0 <= i < nodes@.len() ==> (#[trigger] nodes@[i])@ == (NodeModel {
                        tree: self.tree(),
                        id: self@[i],
                    }),
            decreases
                    it@.len() + (if more {
                        1nat
                    } else {
                        0nat
                    }),
        {
            let ghost before = it@;
            match it.next() {
                None => {
                    more = false;
                },
                Some(node) => {
                    assert(before.drop_first() == self@.skip(nodes@.len() as int + 1));
                    nodes.push(node);
                },
            }
        }
        nodes
    }
}

impl<'a> NodeListIter<'a> {
    #[verifier::type_invariant]
    spec fn inv(self) -> bool {
        head_ok(self.current, self.arena@.node_cells.len())
    }

    /// The tree that the cursor walks in.
    pub closed spec fn tree(&self) -> TreeModel {
        self.arena@
    }

    /// The cursor after one more item, if there is one.
    pub closed spec fn advanced(&self) -> NodeListIter<'a> {
        match self.current {
            None => *self,
            Some(at) => NodeListIter {
                arena: self.arena,
                current: self.arena@.node_cells[at as int].next,
            },
        }
    }

    /// The cursor after `k` more items, or at the end if there are fewer.
    pub open spec fn advanced_by(&self, k: nat) -> NodeListIter<'a>
        decreases k,
    {
        if k == 0 {
            *self
        } else {
            self.advanced_by((k - 1) as nat).advanced()
        }
    }

    /// Gives the next node and moves on; `None` at the end of the list.
    pub fn next(&mut self) -> (r: Option<Node<'a>>)
        ensures
            *final(self) == old(self).advanced(),
            final(self).tree() == old(self).tree(),
            match r {
                None => old(self)@.len() == 0 && final(self)@ == old(self)@,
                Some(node) => {
                    &&& old(self)@.len() > 0
                    &&& node@ == (NodeModel { tree: old(self).tree(), id: old(self)@[0] })
                    &&& final(self)@ == old(self)@.drop_first()
                },
            },
    {
        proof {
            use_type_invariant(&*self);
        }
        self.arena.witness();
        match step(self.arena.node_cells(), self.current) {
            None => None,
            Some((id, next)) => {
                assert(self.arena@.node_cells[self.current->0 as int].item == id);
                self.current = next;
                Some(Node::new(self.arena, id))
            },
        }
    }
}

proof fn lemma_node_cursor_follows(list: NodeList, k: nat)
    ensures
        list.cursor().advanced_by(k).arena == list.arena,
        list.cursor().advanced_by(k).current == follow(list.arena@.node_cells, list.head, k),
    decreases k,
{
    if k > 0 {
        lemma_node_cursor_follows(list, (k - 1) as nat);
    }
}

/// Iterating a list of nodes starts over with every cursor.
///
/// The cursor that `iter` gives depends on the list alone and has the whole
/// list before it, however far another cursor has gone; after `k` items it
/// has the list without its first `k` items before it. So two iterations
/// of one list give the same nodes in the same order.
pub proof fn lemma_node_list_restarts(list: NodeList, k: nat)
    requires
        k <= list@.len(),
    ensures
        list.cursor()@ == list@,
        list.cursor().advanced_by(k)@ == list@.skip(k as int),
{
    lemma_node_cursor_follows(list, k);
    lemma_follow_skips(list.arena@.node_cells, list.head, k);
}

/// An association list held by the arena: keys with their values in the
/// order in which they were stored. A key may occur more than once.
#[derive(Clone, Copy)]
pub struct RBSHash<'a> {
    arena: &'a Arena,
    head: Option<usize>,
}

/// A cursor over an association list.
pub struct RBSHashIter<'a> {
    arena: &'a Arena,
    current: Option<usize>,
}

impl<'a> View for RBSHash<'a> {
    type V = Seq<(usize, usize)>;

    /// The indices of each entry's key node and value node, in order.
    closed spec fn view(&self) -> Seq<(usize, usize)> {
        chain(self.arena@.pair_cells, self.head)
    }
}

impl<'a> View for RBSHashIter<'a> {
    type V = Seq<(usize, usize)>;

    /// The entries that the cursor has yet to give, in order.
    closed spec fn view(&self) -> Seq<(usize, usize)> {
        chain(self.arena@.pair_cells, self.current)
    }
}

impl<'a> RBSHash<'a> {
    #[verifier::type_invariant]
    spec fn inv(self) -> bool {
        head_ok(self.head, self.arena@.pair_cells.len())
    }

    /// The tree that the list lies in.
    pub closed spec fn tree(&self) -> TreeModel {
        self.arena@
    }

    /// The cursor that `iter` gives: one at the head of the list.
    pub closed spec fn cursor(&self) -> RBSHashIter<'a> {
        RBSHashIter { arena: self.arena, current: self.head }
    }

    /// A view of the association list of `arena` that starts at `head`.
    #[must_use]
    pub fn new(arena: &'a Arena, head: Option<usize>) -> (list: Self)
        requires
            head_ok(head, arena@.pair_cells.len()),
        ensures
            list@ == chain(arena@.pair_cells, head),
            list.tree() == arena@,
    {
        Self { arena, head }
    }

    /// A fresh cursor at the head of the list.
    #[must_use]
    pub fn iter(&self) -> (it: RBSHashIter<'a>)
        ensures
            it == self.cursor(),
            it@ == self@,
            it.tree() == self.tree(),
    {
        proof {
            use_type_invariant(self);
        }
        RBSHashIter { arena: self.arena, current: self.head }
    }
}

impl<'a> RBSHashIter<'a> {
    #[verifier::type_invariant]
    spec fn inv(self) -> bool {
        head_ok(self.current, self.arena@.pair_cells.len())
    }

    /// The tree that the cursor walks in.
    pub closed spec fn tree(&self) -> TreeModel {
        self.arena@
    }

    /// The cursor after one more entry, if there is one.
    pub closed spec fn advanced(&self) -> RBSHashIter<'a> {
        match self.current {
            None => *self,
            Some(at) => RBSHashIter {
                arena: self.arena,
                current: self.arena@.pair_cells[at as int].next,
            },
        }
    }

    /// The cursor after `k` more entries, or at the end if there are fewer.
    pub open spec fn advanced_by(&self, k: nat) -> RBSHashIter<'a>
        decreases k,
    {
        if k == 0 {
            *self
        } else {
            self.advanced_by((k - 1) as nat).advanced()
        }
    }

    /// Gives the next key with its value and moves on; `None` at the end of
    /// the list.
    pub fn next(&mut self) -> (r: Option<(Node<'a>, Node<'a>)>)
        ensures
            *final(self) == old(self).advanced(),
            final(self).tree() == old(self).tree(),
            match r {
                None => old(self)@.len() == 0 && final(self)@ == old(self)@,
                Some((key, value)) => {
                    &&& old(self)@.len() > 0
                    &&& key@ == (NodeModel { tree: old(self).tree(), id: old(self)@[0].0 })
                    &&& value@ == (NodeModel { tree: old(self).tree(), id: old(self)@[0].1 })
                    &&& final(self)@ == old(self)@.drop_first()
                },
            },
    {
        proof {
            use_type_invariant(&*self);
        }
        self.arena.witness();
        match step(self.arena.pair_cells(), self.current) {
            None => None,
            Some((entry, next)) => {
                assert(self.arena@.pair_cells[self.current->0 as int].item == entry);
                self.current = next;
                Some((Node::new(self.arena, entry.0), Node::new(self.arena, entry.1)))
            },
        }
    }
}

proof fn lemma_hash_cursor_follows(list: RBSHash, k: nat)
    ensures
        list.cursor().advanced_by(k).arena == list.arena,
        list.cursor().advanced_by(k).current == follow(list.arena@.pair_cells, list.head, k),
    decreases k,
{
    if k > 0 {
        lemma_hash_cursor_follows(list, (k - 1) as nat);
    }
}

/// Iterating an association list starts over with every cursor.
///
/// The cursor that `iter` gives depends on the list alone and has the whole
/// list before it, however far another cursor has gone; after `k` entries
/// it has the list without its first `k` entries before it. So two
/// iterations of one list give the same entries in the same order.
pub proof fn lemma_hash_restarts(list: RBSHash, k: nat)
    requires
        k <= list@.len(),
    ensures
        list.cursor()@ == list@,
        list.cursor().advanced_by(k)@ == list@.skip(k as int),
{
    lemma_hash_cursor_follows(list, k);
    lemma_follow_skips(list.arena@.pair_cells, list.head, k);
}

} // verus!
