//! Traversal: which nodes a node leads to, and the order in which a walk
//! from a node reaches them.
//!
//! A walk goes into the fields that the schema marks as traversable: child
//! nodes, lists of nodes, and association lists, whose keys and values are
//! both visited. It takes the fields in the schema's order and the items of
//! a list in stored order.
//!
//! [`Node::walk`] gives the nodes of a walk at once and can leave out the
//! children of chosen kinds. [`visit`] shows the nodes to a [`Visit`]or one
//! by one and lets its hook prune the walk below any node.

use vstd::prelude::*;
use crate::arena::{flatten_pairs, TreeModel};
use crate::node::collections::shows;
use crate::node::{Node, NodeModel};

verus! {

/// The walk leaves out the children of the kind at `kind`.
pub open spec fn skips(skip: Seq<bool>, kind: int) -> bool {
    0 <= kind < skip.len() && skip[kind]
}

impl TreeModel {
    /// The nodes that the field at `field` of the node `n` leads a walk to:
    /// none for a field that is not traversable.
    pub open spec fn field_children(self, n: int, field: int) -> Seq<usize> {
        if self.shapes_of(n)[field].kind.traversable() {
            self.slot_children(self.nodes[n].fields[field])
        } else {
            Seq::empty()
        }
    }

    /// The nodes that the first `count` fields of the node `n` lead to.
    pub open spec fn children_upto(self, n: int, count: nat) -> Seq<usize>
        decreases count,
    {
        if count == 0 {
            Seq::empty()
        } else {
            self.children_upto(n, (count - 1) as nat) + self.field_children(n, count - 1)
        }
    }

    /// The children of the node `n`: what its fields lead to, field by
    /// field in the schema's order.
    pub open spec fn children(self, n: int) -> Seq<usize> {
        self.children_upto(n, self.nodes[n].fields.len())
    }

    /// The nodes that a walk from `n` reaches, in order: `n` itself, then,
    /// unless the kind of `n` is skipped, what the walks from its children
    /// reach, child after child.
    pub open spec fn preorder(self, n: usize, skip: Seq<bool>) -> Seq<usize>
        decreases n, 1nat, 0nat,
    {
        if skips(skip, self.kind_of(n as int)) {
            seq![n]
        } else {
            seq![n] + self.preorder_upto(
                n,
                self.children(n as int),
                self.children(n as int).len(),
                skip,
            )
        }
    }

    /// What the walks from the first `count` of `nodes` reach, one walk
    /// after the other. Only nodes older than `limit` are walked from; in
    /// a well-formed tree every child of `limit` is.
    pub open spec fn preorder_upto(
        self,
        limit: usize,
        nodes: Seq<usize>,
        count: nat,
        skip: Seq<bool>,
    ) -> Seq<usize>
        decreases limit, 0nat, count,
    {
        if count == 0 {
            Seq::empty()
        } else {
            let child = nodes[count - 1];
            self.preorder_upto(limit, nodes, (count - 1) as nat, skip) + (if child < limit {
                self.preorder(child, skip)
            } else {
                Seq::empty()
            })
        }
    }

    /// In a well-formed tree the first fields of a node lead only to older
    /// nodes.
    proof fn lemma_children_upto_older(self, n: int, count: nat, j: int)
        requires
            self.wf(),
            0 <= n < self.nodes.len(),
            count <= self.nodes[n].fields.len(),
            0 <= j < self.children_upto(n, count).len(),
        ensures
            self.children_upto(n, count)[j] < n,
        decreases count,
    {
        let before = self.children_upto(n, (count - 1) as nat);
        if j < before.len() {
            self.lemma_children_upto_older(n, (count - 1) as nat, j);
        } else {
            assert(self.record_ok(n));
            let slot = self.nodes[n].fields[count - 1];
            assert(self.slot_ok(n, self.shapes_of(n)[count - 1], slot));
            assert(self.children_upto(n, count)[j] == self.slot_children(slot)[j - before.len()]);
        }
    }

    /// What the first fields of a node lead to comes first among what more
    /// of its fields lead to.
    proof fn lemma_children_upto_prefix(self, n: int, fewer: nat, more: nat)
        requires
            fewer <= more,
        ensures
            self.children_upto(n, fewer).is_prefix_of(self.children_upto(n, more)),
        decreases more,
    {
        if fewer < more {
            self.lemma_children_upto_prefix(n, fewer, (more - 1) as nat);
        }
    }

    /// Every field has its own place among the children of a node.
    ///
    /// What the field at `field` leads to stands among the children of `n`
    /// once, as one run, behind what the fields before it lead to and
    /// before what the fields behind it lead to, and in stored order.
    pub proof fn lemma_children_by_field(self, n: int, field: int)
        requires
            0 <= field < self.nodes[n].fields.len(),
        ensures
            self.children_upto(n, (field + 1) as nat).len() == self.children_upto(
                n,
                field as nat,
            ).len() + self.field_children(n, field).len(),
            self.children_upto(n, (field + 1) as nat).is_prefix_of(self.children(n)),
            self.children(n).subrange(
                self.children_upto(n, field as nat).len() as int,
                self.children_upto(n, (field + 1) as nat).len() as int,
            ) == self.field_children(n, field),
    {
        let before = self.children_upto(n, field as nat);
        let with = self.children_upto(n, (field + 1) as nat);
        self.lemma_children_upto_prefix(n, (field + 1) as nat, self.nodes[n].fields.len());
        assert(with == before + self.field_children(n, field));
        assert(with.subrange(before.len() as int, with.len() as int) == self.field_children(
            n,
            field,
        ));
        assert(self.children(n).subrange(before.len() as int, with.len() as int) == with.subrange(
            before.len() as int,
            with.len() as int,
        ));
    }

    /// In a well-formed tree every child is older than its parent, so a
    /// walk comes to an end.
    pub proof fn lemma_children_older(self, n: int)
        requires
            self.wf(),
            0 <= n < self.nodes.len(),
        ensures
            forall|j: int| 0 <= j < self.children(n).len() ==> #[trigger] self.children(n)[j] < n,
    {
        assert forall|j: int| 0 <= j < self.children(n).len() implies #[trigger] self.children(
            n,
        )[j] < n by {
            self.lemma_children_upto_older(n, self.nodes[n].fields.len(), j);
        }
    }
}

proof fn lemma_flatten_push(pairs: Seq<(usize, usize)>, pair: (usize, usize))
    ensures
        flatten_pairs(pairs.push(pair)) == flatten_pairs(pairs) + seq![pair.0, pair.1],
{
    let left = flatten_pairs(pairs.push(pair));
    let right = flatten_pairs(pairs) + seq![pair.0, pair.1];
    assert(left.len() == right.len());
    assert forall|i: int| 0 <= i < left.len() implies left[i] == right[i] by {
        if i < 2 * pairs.len() {
            assert(pairs.push(pair)[i / 2] == pairs[i / 2]);
        } else {
            assert(i / 2 == pairs.len());
        }
    }
}

proof fn lemma_shows_append(
    nodes: Seq<Node>,
    more: Seq<Node>,
    tree: TreeModel,
    ids: Seq<usize>,
    more_ids: Seq<usize>,
)
    requires
        shows(nodes, tree, ids),
        shows(more, tree, more_ids),
    ensures
        shows(nodes + more, tree, ids + more_ids),
{
    assert forall|i: int| 0 <= i < (nodes + more).len() implies (#[trigger] (nodes + more)[i])@
        == (NodeModel { tree, id: (ids + more_ids)[i] }) by {
        if i < nodes.len() {
            assert((nodes + more)[i] == nodes[i]);
        } else {
            assert((nodes + more)[i] == more[i - nodes.len()]);
        }
    }
}

fn skipped(skip: &[bool], kind: usize) -> (r: bool)
    ensures
        r == skips(skip@, kind as int),
{
    kind < skip.len() && skip[kind]
}

impl<'a> Node<'a> {
    /// The nodes that the field at `field` leads a walk to, in stored
    /// order.
    fn field_children(&self, field: usize) -> (nodes: Vec<Node<'a>>)
        requires
            self@.has_field(field as int),
        ensures
            shows(nodes@, self@.tree, self@.tree.field_children(self@.id as int, field as int)),
    {
        self.witness();
        let mut nodes: Vec<Node<'a>> = Vec::new();
        let descriptor = self.descriptor();
        assert(self@.field(field as int) == descriptor.fields@[field as int]@);
        if !descriptor.fields[field].kind.is_traversable() {
            return nodes;
        }
        if let Some(child) = self.node(field) {
            nodes.push(child);
        } else if let Some(list) = self.node_list(field) {
            nodes = list.nodes();
        } else if let Some(map) = self.hash(field) {
            let mut it = map.iter();
            let mut more = true;
            let ghost mut seen: Seq<(usize, usize)> = Seq::empty();
            while more
                invariant
                    it.tree() == self@.tree,
                    seen.len() <= map@.len(),
                    seen == map@.subrange(0, seen.len() as int),
                    it@ == map@.skip(seen.len() as int),
                    !more ==> seen == map@,
                    shows(nodes@, self@.tree, flatten_pairs(seen)),
                decreases
                        it@.len() + (if more {
                            1nat
                        } else {
                            0nat
                        }),
            {
                let ghost before = it@;
                match it.next() {
                    None => {
                        more = false;
                        assert(map@.subrange(0, map@.len() as int) == map@);
                    },
                    Some((key, value)) => {
                        let ghost entry = map@[seen.len() as int];
                        proof {
                            assert(before.drop_first() == map@.skip(seen.len() as int + 1));
                            assert(map@.subrange(0, seen.len() as int + 1) == seen.push(entry));
                            lemma_flatten_push(seen, entry);
                            let pair = seq![key, value];
                            assert(shows(pair, self@.tree, seq![entry.0, entry.1]));
                            lemma_shows_append(
                                nodes@,
                                pair,
                                self@.tree,
                                flatten_pairs(seen),
                                seq![entry.0, entry.1],
                            );
                            assert(nodes@.push(key).push(value) == nodes@ + pair);
                            seen = seen.push(entry);
                        }
                        nodes.push(key);
                        nodes.push(value);
                    },
                }
            }
        }
        nodes
    }

    /// The children of the node: what its traversable fields lead to, field
    /// by field in the schema's order, the items of each list in stored
    /// order. Every child is older than the node.
    pub fn children(&self) -> (nodes: Vec<Node<'a>>)
        ensures
            shows(nodes@, self@.tree, self@.tree.children(self@.id as int)),
            forall|j: int| 0 <= j < nodes@.len() ==> (#[trigger] nodes@[j])@.id < self@.id,
    {
        self.witness();
        let count = self.field_count();
        let mut nodes: Vec<Node<'a>> = Vec::new();
        let mut field: usize = 0;
        while field < count
            invariant
                field <= count,
                count == self@.record().fields.len(),
                shows(nodes@, self@.tree, self@.tree.children_upto(self@.id as int, field as nat)),
            decreases count - field,
        {
            let mut more = self.field_children(field);
            proof {
                lemma_shows_append(
                    nodes@,
                    more@,
                    self@.tree,
                    self@.tree.children_upto(self@.id as int, field as nat),
                    self@.tree.field_children(self@.id as int, field as int),
                );
            }
            nodes.append(&mut more);
            field = field + 1;
        }
        proof {
            self@.tree.lemma_children_older(self@.id as int);
        }
        nodes
    }

    /// Walks the tree from the node and gives the nodes reached, in the
    /// order in which they are reached.
    ///
    /// `skip` is read by the index of a kind: below a node whose kind has
    /// `true` there the walk does not go. A kind without an entry is not
    /// skipped, so an empty `skip` gives the whole walk.
    pub fn walk(&self, skip: &[bool]) -> (nodes: Vec<Node<'a>>)
        ensures
            shows(nodes@, self@.tree, self@.tree.preorder(self@.id, skip@)),
        decreases self@.id,
    {
        let mut nodes: Vec<Node<'a>> = Vec::new();
        nodes.push(*self);
        if skipped(skip, self.kind()) {
            return nodes;
        }
        let children = self.children();
        let ghost ids = self@.tree.children(self@.id as int);
        let mut j: usize = 0;
        while j < children.len()
            invariant
                j <= children@.len(),
                shows(children@, self@.tree, ids),
                forall|i: int| 0 <= i < children@.len() ==> (#[trigger] children@[i])@.id < self@.id,
                shows(
                    nodes@,
                    self@.tree,
                    seq![self@.id] + self@.tree.preorder_upto(self@.id, ids, j as nat, skip@),
                ),
            decreases children@.len() - j,
        {
            let child = children[j];
            let mut below = child.walk(skip);
            proof {
                assert(child@.id == ids[j as int]);
                lemma_shows_append(
                    nodes@,
                    below@,
                    self@.tree,
                    seq![self@.id] + self@.tree.preorder_upto(self@.id, ids, j as nat, skip@),
                    self@.tree.preorder(child@.id, skip@),
                );
                assert(seq![self@.id] + self@.tree.preorder_upto(self@.id, ids, j as nat, skip@)
                    + self@.tree.preorder(child@.id, skip@) == seq![self@.id]
                    + self@.tree.preorder_upto(self@.id, ids, (j + 1) as nat, skip@));
            }
            nodes.append(&mut below);
            j = j + 1;
        }
        nodes
    }
}

/// A visitor: something that is shown the nodes of a walk, one by one.
pub trait Visit {
    /// The hook: the walk has reached `node`. The answer says whether the
    /// walk is to go on into the node's children; `false` prunes the walk
    /// below the node.
    fn visit_node(&mut self, node: &Node<'_>) -> bool;
}

impl TreeModel {
    /// The walk from `n` that is guided by `answers`: the first answer says
    /// whether the walk goes on below `n`, and each node reached takes the
    /// next answer. Gives the nodes reached, in order, and the answers that
    /// are left over; a node for which no answer is left is not reached.
    pub open spec fn guided(self, n: usize, answers: Seq<bool>) -> (Seq<usize>, Seq<bool>)
        decreases n, 1nat, 0nat,
    {
        if answers.len() == 0 {
            (Seq::empty(), answers)
        } else if !answers[0] {
            (seq![n], answers.drop_first())
        } else {
            let (below, left) = self.guided_upto(
                n,
                self.children(n as int),
                self.children(n as int).len(),
                answers.drop_first(),
            );
            (seq![n] + below, left)
        }
    }

    /// The guided walks from the first `count` of `nodes`, one after the
    /// other. Only nodes older than `limit` are walked from.
    pub open spec fn guided_upto(
        self,
        limit: usize,
        nodes: Seq<usize>,
        count: nat,
        answers: Seq<bool>,
    ) -> (Seq<usize>, Seq<bool>)
        decreases limit, 0nat, count,
    {
        if count == 0 {
            (Seq::empty(), answers)
        } else {
            let (before, left) = self.guided_upto(limit, nodes, (count - 1) as nat, answers);
            let child = nodes[count - 1];
            if child < limit {
                let (walked, rest) = self.guided(child, left);
                (before + walked, rest)
            } else {
                (before, left)
            }
        }
    }
}

/// The nodes that a log of a walk holds, by index.
pub open spec fn shown_ids(log: Seq<(Node, bool)>) -> Seq<usize> {
    log.map_values(|entry: (Node, bool)| entry.0@.id)
}

/// The answers that a log of a walk holds.
pub open spec fn answers(log: Seq<(Node, bool)>) -> Seq<bool> {
    log.map_values(|entry: (Node, bool)| entry.1)
}

/// Every node of the log is one of `tree`.
pub open spec fn shown_in(log: Seq<(Node, bool)>, tree: TreeModel) -> bool {
    forall|i: int| 0 <= i < log.len() ==> (#[trigger] log[i]).0@.tree == tree
}

/// `shown` are the nodes of the whole walk from `n` that `given` guides,
/// neither more nor fewer: whatever answers follow `given`, the guided walk
/// reaches `shown` and leaves what follows.
pub open spec fn logs_walk(tree: TreeModel, n: usize, given: Seq<bool>, shown: Seq<usize>) -> bool {
    forall|rest: Seq<bool>| #[trigger] tree.guided(n, given + rest) == (shown, rest)
}

spec fn logs_walks(
    tree: TreeModel,
    limit: usize,
    nodes: Seq<usize>,
    count: nat,
    log: Seq<(Node, bool)>,
) -> bool {
    forall|rest: Seq<bool>| #[trigger]
        tree.guided_upto(limit, nodes, count, answers(log) + rest) == (shown_ids(log), rest)
}

fn visit_from<'a, V: Visit>(visitor: &mut V, node: &Node<'a>) -> (log: Vec<(Node<'a>, bool)>)
    ensures
        shown_in(log@, node@.tree),
        logs_walk(node@.tree, node@.id, answers(log@), shown_ids(log@)),
    decreases node@.id,
{
    let ghost tree = node@.tree;
    let descend = visitor.visit_node(node);
    let mut log: Vec<(Node<'a>, bool)> = Vec::new();
    log.push((*node, descend));
    let ghost head = log@;
    assert(answers(head) == seq![descend]);
    assert(shown_ids(head) == seq![node@.id]);
    if !descend {
        assert forall|rest: Seq<bool>| #[trigger]
            tree.guided(node@.id, answers(head) + rest) == (shown_ids(head), rest) by {
            assert((answers(head) + rest).drop_first() == rest);
        }
        return log;
    }
    let children = node.children();
    let ghost ids = tree.children(node@.id as int);
    let mut below: Vec<(Node<'a>, bool)> = Vec::new();
    let mut j: usize = 0;
    assert forall|rest: Seq<bool>| #[trigger]
        tree.guided_upto(node@.id, ids, 0, answers(below@) + rest) == (shown_ids(below@), rest) by {
        assert(answers(below@) + rest == rest);
        assert(shown_ids(below@) == Seq::<usize>::empty());
    }
    while j < children.len()
        invariant
            j <= children@.len(),
            tree == node@.tree,
            shows(children@, tree, ids),
            forall|i: int| 0 <= i < children@.len() ==> (#[trigger] children@[i])@.id < node@.id,
            shown_in(below@, tree),
            logs_walks(tree, node@.id, ids, j as nat, below@),
        decreases children@.len() - j,
    {
        let child = &children[j];
        assert(child@.id == ids[j as int]);
        let mut walked = visit_from(visitor, child);
        let ghost before = below@;
        let ghost after = before + walked@;
        let ghost done = j as nat;
        proof {
            assert(answers(after) == answers(before) + answers(walked@));
            assert(shown_ids(after) == shown_ids(before) + shown_ids(walked@));
            assert forall|rest: Seq<bool>| #[trigger]
                tree.guided_upto(node@.id, ids, done + 1, answers(after) + rest) == (
                    shown_ids(after),
                    rest,
                ) by {
                let middle = answers(walked@) + rest;
                assert(answers(after) + rest == answers(before) + middle);
                assert(tree.guided_upto(node@.id, ids, done, answers(before) + middle) == (
                    shown_ids(before),
                    middle,
                ));
                assert(tree.guided(child@.id, answers(walked@) + rest) == (
                    shown_ids(walked@),
                    rest,
                ));
            }
            assert(logs_walks(tree, node@.id, ids, done + 1, after));
        }
        below.append(&mut walked);
        j = j + 1;
    }
    proof {
        let whole = head + below@;
        assert(answers(whole) == answers(head) + answers(below@));
        assert(shown_ids(whole) == shown_ids(head) + shown_ids(below@));
        assert forall|rest: Seq<bool>| #[trigger]
            tree.guided(node@.id, answers(whole) + rest) == (shown_ids(whole), rest) by {
            assert((answers(whole) + rest).drop_first() == answers(below@) + rest);
            assert(tree.guided_upto(node@.id, ids, ids.len(), answers(below@) + rest) == (
                shown_ids(below@),
                rest,
            ));
        }
    }
    log.append(&mut below);
    log
}

/// Walks the tree from `node` and shows the visitor every node reached.
///
/// The walk is guided by the visitor: it goes on below a node where the
/// hook answers `true` and not where it answers `false`. The log gives every
/// node that the hook was shown with the hook's answer, in order; the nodes
/// are exactly those of the walk that these answers guide.
pub fn visit<'a, V: Visit>(visitor: &mut V, node: &Node<'a>) -> (log: Vec<(Node<'a>, bool)>)
    ensures
        shown_in(log@, node@.tree),
        logs_walk(node@.tree, node@.id, answers(log@), shown_ids(log@)),
{
    visit_from(visitor, node)
}

/// Every answer is `true`.
pub open spec fn all_go_on(given: Seq<bool>) -> bool {
    forall|i: int| 0 <= i < given.len() ==> given[i]
}

impl TreeModel {
    proof fn lemma_guided_whole(self, n: usize, given: Seq<bool>)
        requires
            all_go_on(given),
            given.len() >= self.preorder(n, Seq::empty()).len(),
        ensures
            self.guided(n, given) == (
                self.preorder(n, Seq::empty()),
                given.skip(self.preorder(n, Seq::empty()).len() as int),
            ),
        decreases n, 1nat, 0nat,
    {
        let none = Seq::<bool>::empty();
        let children = self.children(n as int);
        let below = self.preorder_upto(n, children, children.len(), none);
        assert(self.preorder(n, none) == seq![n] + below);
        assert(given[0]);
        self.lemma_guided_upto_whole(n, children, children.len(), given.drop_first());
        assert(given.drop_first().skip(below.len() as int) == given.skip(1 + below.len() as int));
    }

    proof fn lemma_guided_upto_whole(
        self,
        limit: usize,
        nodes: Seq<usize>,
        count: nat,
        given: Seq<bool>,
    )
        requires
            all_go_on(given),
            given.len() >= self.preorder_upto(limit, nodes, count, Seq::empty()).len(),
        ensures
            self.guided_upto(limit, nodes, count, given) == (
                self.preorder_upto(limit, nodes, count, Seq::empty()),
                given.skip(self.preorder_upto(limit, nodes, count, Seq::empty()).len() as int),
            ),
        decreases limit, 0nat, count,
    {
        let none = Seq::<bool>::empty();
        if count == 0 {
            assert(given.skip(0) == given);
        } else {
            let before = self.preorder_upto(limit, nodes, (count - 1) as nat, none);
            self.lemma_guided_upto_whole(limit, nodes, (count - 1) as nat, given);
            let left = given.skip(before.len() as int);
            let child = nodes[count - 1];
            if child < limit {
                let walked = self.preorder(child, none);
                self.lemma_guided_whole(child, left);
                assert(left.skip(walked.len() as int) == given.skip(
                    (before.len() + walked.len()) as int,
                ));
            } else {
                assert(before + Seq::<usize>::empty() == before);
            }
        }
    }

    /// A visitor that never declines is shown the whole walk.
    ///
    /// Where every answer that guided a walk from `n` was `true`, the nodes
    /// shown are those of the walk that skips no kind: `n`, then for each
    /// traversable field of `n`, in the schema's order, the walks from what
    /// the field leads to, in stored order.
    pub proof fn lemma_unpruned_visit(self, n: usize, given: Seq<bool>, shown: Seq<usize>)
        requires
            logs_walk(self, n, given, shown),
            all_go_on(given),
        ensures
            shown == self.preorder(n, Seq::empty()),
    {
        let whole = self.preorder(n, Seq::empty());
        let rest = Seq::new(whole.len(), |i: int| true);
        let longer = given + rest;
        assert(self.guided(n, longer) == (shown, rest));
        self.lemma_guided_whole(n, longer);
    }
}

} // verus!
