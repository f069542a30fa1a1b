//! The parsed tree as the foreign parser lays it out: tagged records that
//! refer to each other by index, linked cells for lists and maps, and a pool
//! of interned strings, all owned by one arena.

use vstd::prelude::*;
use vstd::string::*;
use crate::schema::{kinds_ok, FieldDescriptor, FieldKind, FieldShape, KindShape, Schema};

verus! {

/// A range of bytes of the source text.
#[derive(Clone, Copy, Debug, PartialEq, Eq, Structural)]
pub struct RawRange {
    pub start_byte: i32,
    pub end_byte: i32,
}

/// One cell of a singly linked list: an item and the index of the next cell.
pub struct Cell<T> {
    pub item: T,
    pub next: Option<usize>,
}

/// What a field of a record holds.
#[derive(Clone, Debug)]
pub enum FieldValue {
    /// Nothing: the null pointer of an optional field.
    Absent,
    /// A span of bytes.
    Text(Vec<u8>),
    Bool(bool),
    /// The index of a child record.
    Node(usize),
    /// The first cell of a list of nodes; `None` for the empty list.
    NodeList(Option<usize>),
    /// The first cell of an association list; `None` for the empty one.
    NodeMap(Option<usize>),
    SubRange(RawRange),
    /// The first cell of a list of ranges; `None` for the empty list.
    SubRangeList(Option<usize>),
    /// The id of an interned string.
    Interned(u32),
}

/// A tagged record: one node of the tree.
#[derive(Clone, Debug)]
pub struct Record {
    /// The tag name of the node's kind.
    pub tag: String,
    /// The node's range in the source.
    pub location: RawRange,
    /// The values of the kind's fields, in the schema's order.
    pub fields: Vec<FieldValue>,
}

/// What a [`FieldValue`] says.
pub enum Slot {
    Absent,
    Text(Seq<u8>),
    Bool(bool),
    Node(usize),
    NodeList(Option<usize>),
    NodeMap(Option<usize>),
    SubRange(RawRange),
    SubRangeList(Option<usize>),
    Interned(u32),
}

/// What a [`Record`] says.
pub struct RecordModel {
    pub tag: Seq<char>,
    pub location: RawRange,
    pub fields: Seq<Slot>,
}

impl View for FieldValue {
    type V = Slot;

    open spec fn view(&self) -> Slot {
        match self {
            FieldValue::Absent => Slot::Absent,
            FieldValue::Text(bytes) => Slot::Text(bytes@),
            FieldValue::Bool(b) => Slot::Bool(*b),
            FieldValue::Node(n) => Slot::Node(*n),
            FieldValue::NodeList(head) => Slot::NodeList(*head),
            FieldValue::NodeMap(head) => Slot::NodeMap(*head),
            FieldValue::SubRange(range) => Slot::SubRange(*range),
            FieldValue::SubRangeList(head) => Slot::SubRangeList(*head),
            FieldValue::Interned(id) => Slot::Interned(*id),
        }
    }
}

impl View for Record {
    type V = RecordModel;

    open spec fn view(&self) -> RecordModel {
        RecordModel {
            tag: self.tag@,
            location: self.location,
            fields: self.fields@.map_values(|v: FieldValue| v@),
        }
    }
}

/// A link of the cell at `at` is in order: it ends the list or leads to an
/// earlier cell.
pub open spec fn link_ok(next: Option<usize>, at: int) -> bool {
    match next {
        None => true,
        Some(n) => n < at,
    }
}

/// Every link leads to an earlier cell, so no list has a cycle.
pub open spec fn links_ok<T>(cells: Seq<Cell<T>>) -> bool {
    forall|c: int| 0 <= c < cells.len() ==> link_ok((#[trigger] cells[c]).next, c)
}

/// A head that a list may start at: none, or a cell that exists.
pub open spec fn head_ok(head: Option<usize>, cells: nat) -> bool {
    match head {
        None => true,
        Some(h) => h < cells,
    }
}

/// The items of the list that starts at `head`, in the list's order.
///
/// The walk ends at a missing link; it also ends at a cell that does not
/// exist or whose link is out of order, which no well-formed tree holds.
pub open spec fn chain<T>(cells: Seq<Cell<T>>, head: Option<usize>) -> Seq<T>
    decreases
            (match head {
                Some(h) => h + 1,
                None => 0,
            }),
{
    match head {
        None => Seq::empty(),
        Some(h) => if h < cells.len() && link_ok(cells[h as int].next, h as int) {
            seq![cells[h as int].item] + chain(cells, cells[h as int].next)
        } else {
            Seq::empty()
        },
    }
}

/// A list only holds items of cells at or before its head that exist.
proof fn lemma_chain_items<T>(cells: Seq<Cell<T>>, head: Option<usize>, j: int)
    requires
        0 <= j < chain(cells, head).len(),
    ensures
        exists|c: int| 0 <= c < cells.len() && (#[trigger] cells[c]).item == chain(cells, head)[j],
    decreases
            (match head {
                Some(h) => h + 1,
                None => 0,
            }),
{
    let h = head->0;
    if j == 0 {
        assert(cells[h as int].item == chain(cells, head)[0]);
    } else {
        lemma_chain_items(cells, cells[h as int].next, j - 1);
    }
}

/// A new cell at the end changes no list that starts at an earlier cell.
proof fn lemma_chain_push<T>(cells: Seq<Cell<T>>, cell: Cell<T>, head: Option<usize>)
    requires
        head_ok(head, cells.len()),
    ensures
        chain(cells.push(cell), head) == chain(cells, head),
    decreases
            (match head {
                Some(h) => h + 1,
                None => 0,
            }),
{
    match head {
        None => {},
        Some(h) => {
            assert(cells.push(cell)[h as int] == cells[h as int]);
            if link_ok(cells[h as int].next, h as int) {
                lemma_chain_push(cells, cell, cells[h as int].next);
            }
        },
    }
}


/// The keys and values of an association list in one sequence: each key is
/// followed by its value.
pub open spec fn flatten_pairs(pairs: Seq<(usize, usize)>) -> Seq<usize> {
    Seq::new(
        2 * pairs.len(),
        |i: int|
            if i % 2 == 0 {
                pairs[i / 2].0
            } else {
                pairs[i / 2].1
            },
    )
}

/// Some kind has the tag name `tag`.
pub open spec fn has_tag(kinds: Seq<KindShape>, tag: Seq<char>) -> bool {
    exists|k: int| 0 <= k < kinds.len() && (#[trigger] kinds[k]).tag_name == tag
}

/// The index of a kind with the tag name `tag`, the only one in a schema.
pub open spec fn tag_index(kinds: Seq<KindShape>, tag: Seq<char>) -> int {
    choose|k: int| 0 <= k < kinds.len() && (#[trigger] kinds[k]).tag_name == tag
}

/// A field of this shape may hold nothing.
pub open spec fn may_be_absent(shape: FieldShape) -> bool {
    ||| shape.kind is NestedOptional
    ||| shape.optional && (shape.kind is NodeList || shape.kind is NodeMap || shape.kind is SubRange
        || shape.kind is SubRangeList)
}

/// A whole tree as plain values.
pub struct TreeModel {
    /// The kinds of the tree's schema.
    pub kinds: Seq<KindShape>,
    /// The records; a node is known by its index here.
    pub nodes: Seq<RecordModel>,
    /// The cells of the lists of nodes.
    pub node_cells: Seq<Cell<usize>>,
    /// The cells of the association lists: a key node and a value node.
    pub pair_cells: Seq<Cell<(usize, usize)>>,
    /// The cells of the lists of ranges.
    pub range_cells: Seq<Cell<RawRange>>,
    /// The pool of interned strings; the id `k` stands for `constants[k - 1]`.
    pub constants: Seq<Seq<u8>>,
}

impl TreeModel {
    /// The kind of the node `n`.
    pub open spec fn kind_of(self, n: int) -> int {
        tag_index(self.kinds, self.nodes[n].tag)
    }

    /// The shapes of the fields of the node `n`.
    pub open spec fn shapes_of(self, n: int) -> Seq<FieldShape> {
        self.kinds[self.kind_of(n)].fields
    }

    /// `slot` is a value for a field of shape `shape`, and what it refers
    /// to exists.
    pub open spec fn fits(self, shape: FieldShape, slot: Slot) -> bool {
        match slot {
            Slot::Absent => may_be_absent(shape),
            Slot::Text(_) => shape.kind is Text,
            Slot::Bool(_) => shape.kind is Bool,
            Slot::Node(c) => (shape.kind is NestedRequired || shape.kind is NestedOptional) && c
                < self.nodes.len(),
            Slot::NodeList(head) => shape.kind is NodeList && head_ok(head, self.node_cells.len()),
            Slot::NodeMap(head) => shape.kind is NodeMap && head_ok(head, self.pair_cells.len()),
            Slot::SubRange(_) => shape.kind is SubRange,
            Slot::SubRangeList(head) => shape.kind is SubRangeList && head_ok(
                head,
                self.range_cells.len(),
            ),
            Slot::Interned(id) => shape.kind is InternedRef && 1 <= id <= self.constants.len(),
        }
    }

    /// The nodes that a field's value leads to, in stored order: the child,
    /// the items of the list, or each key of the map followed by its value.
    pub open spec fn slot_children(self, slot: Slot) -> Seq<usize> {
        match slot {
            Slot::Node(c) => seq![c],
            Slot::NodeList(head) => chain(self.node_cells, head),
            Slot::NodeMap(head) => flatten_pairs(chain(self.pair_cells, head)),
            _ => Seq::empty(),
        }
    }

    /// The value `slot` of a field of the node `n` fits the field's shape
    /// and leads only to nodes that were there before `n`.
    pub open spec fn slot_ok(self, n: int, shape: FieldShape, slot: Slot) -> bool {
        &&& self.fits(shape, slot)
        &&& forall|j: int|
            0 <= j < self.slot_children(slot).len() ==> #[trigger] self.slot_children(slot)[j] < n
    }

    /// The node `n` is of a kind of the schema and has that kind's fields.
    pub open spec fn record_ok(self, n: int) -> bool {
        let record = self.nodes[n];
        &&& has_tag(self.kinds, record.tag)
        &&& record.fields.len() == self.shapes_of(n).len()
        &&& forall|i: int|
            0 <= i < record.fields.len() ==> self.slot_ok(
                n,
                self.shapes_of(n)[i],
                #[trigger] record.fields[i],
            )
    }

    /// The tree is well formed: no list has a cycle, every cell holds nodes
    /// that exist, and every node is of its kind and older than its parent.
    pub open spec fn wf(self) -> bool {
        &&& kinds_ok(self.kinds)
        &&& links_ok(self.node_cells)
        &&& links_ok(self.pair_cells)
        &&& links_ok(self.range_cells)
        &&& forall|c: int|
            0 <= c < self.node_cells.len() ==> (#[trigger] self.node_cells[c]).item
                < self.nodes.len()
        &&& forall|c: int|
            0 <= c < self.pair_cells.len() ==> (#[trigger] self.pair_cells[c]).item.0
                < self.nodes.len() && self.pair_cells[c].item.1 < self.nodes.len()
        &&& forall|n: int| 0 <= n < self.nodes.len() ==> self.record_ok(n)
    }

    /// A record with the tag name `tag` and the values `slots` can be added:
    /// the tag is that of a kind, and the values are that kind's fields.
    pub open spec fn accepts(self, tag: Seq<char>, slots: Seq<Slot>) -> bool {
        let shapes = self.kinds[tag_index(self.kinds, tag)].fields;
        &&& has_tag(self.kinds, tag)
        &&& slots.len() == shapes.len()
        &&& forall|i: int| 0 <= i < slots.len() ==> self.fits(shapes[i], #[trigger] slots[i])
    }

    /// `e` is the first reason not to add such a record: the tag comes
    /// before the number of values, and that before the first value that
    /// does not fit.
    pub open spec fn refuses(self, tag: Seq<char>, slots: Seq<Slot>, e: TreeError) -> bool {
        let shapes = self.kinds[tag_index(self.kinds, tag)].fields;
        match e {
            TreeError::UnknownTag => !has_tag(self.kinds, tag),
            TreeError::FieldCount => has_tag(self.kinds, tag) && slots.len() != shapes.len(),
            TreeError::Field(i) => {
                &&& has_tag(self.kinds, tag)
                &&& slots.len() == shapes.len()
                &&& i < slots.len()
                &&& !self.fits(shapes[i as int], slots[i as int])
                &&& forall|g: int| 0 <= g < i ==> self.fits(shapes[g], #[trigger] slots[g])
            },
            _ => false,
        }
    }
}

/// In a schema, a kind that has the tag name `tag` is the kind of that tag.
pub(crate) proof fn lemma_tag_index(kinds: Seq<KindShape>, tag: Seq<char>, k: int)
    requires
        kinds_ok(kinds),
        0 <= k < kinds.len(),
        kinds[k].tag_name == tag,
    ensures
        has_tag(kinds, tag),
        tag_index(kinds, tag) == k,
{
    let found = tag_index(kinds, tag);
    if found < k {
        assert(kinds[found].tag_name != kinds[k].tag_name);
    } else if k < found {
        assert(kinds[k].tag_name != kinds[found].tag_name);
    }
}

/// A list is the same in a longer run of cells.
proof fn lemma_chain_extend<T>(cells: Seq<Cell<T>>, more: Seq<Cell<T>>, head: Option<usize>)
    requires
        cells.is_prefix_of(more),
        head_ok(head, cells.len()),
        links_ok(cells),
    ensures
        chain(more, head) == chain(cells, head),
    decreases
            (match head {
                Some(h) => h + 1,
                None => 0,
            }),
{
    match head {
        None => {},
        Some(h) => {
            assert(more[h as int] == cells[h as int]);
            lemma_chain_extend(cells, more, cells[h as int].next);
        },
    }
}

impl TreeModel {
    /// What `self` and `grown` must share for the nodes of `self` to stay
    /// in order: `grown` has the schema, the nodes and the cells of `self`,
    /// and more cells, constants or nodes behind them.
    pub open spec fn grows_to(self, grown: TreeModel) -> bool {
        &&& grown.kinds == self.kinds
        &&& self.nodes.is_prefix_of(grown.nodes)
        &&& self.node_cells.is_prefix_of(grown.node_cells)
        &&& self.pair_cells.is_prefix_of(grown.pair_cells)
        &&& self.range_cells.is_prefix_of(grown.range_cells)
        &&& self.constants.len() <= grown.constants.len()
    }

    /// A value that fits a tree fits every tree grown from it, and leads
    /// to the same nodes there.
    proof fn lemma_slot_grows(self, grown: TreeModel, shape: FieldShape, slot: Slot)
        requires
            self.wf(),
            self.grows_to(grown),
            self.fits(shape, slot),
        ensures
            grown.fits(shape, slot),
            grown.slot_children(slot) == self.slot_children(slot),
    {
        match slot {
            Slot::NodeList(head) => {
                lemma_chain_extend(self.node_cells, grown.node_cells, head);
            },
            Slot::NodeMap(head) => {
                lemma_chain_extend(self.pair_cells, grown.pair_cells, head);
            },
            _ => {},
        }
    }

    /// The nodes of a well-formed tree are in order in every tree grown
    /// from it.
    proof fn lemma_nodes_grow(self, grown: TreeModel)
        requires
            self.wf(),
            self.grows_to(grown),
        ensures
            forall|n: int| 0 <= n < self.nodes.len() ==> grown.record_ok(n),
    {
        assert forall|n: int| 0 <= n < self.nodes.len() implies grown.record_ok(n) by {
            assert(self.record_ok(n));
            assert(grown.nodes[n] == self.nodes[n]);
            assert forall|i: int| 0 <= i < grown.nodes[n].fields.len() implies grown.slot_ok(
                n,
                grown.shapes_of(n)[i],
                #[trigger] grown.nodes[n].fields[i],
            ) by {
                assert(self.slot_ok(n, self.shapes_of(n)[i], self.nodes[n].fields[i]));
                self.lemma_slot_grows(grown, self.shapes_of(n)[i], self.nodes[n].fields[i]);
            }
        }
    }

    /// A value that fits a well-formed tree leads only to nodes of the tree.
    proof fn lemma_children_exist(self, shape: FieldShape, slot: Slot, j: int)
        requires
            self.wf(),
            self.fits(shape, slot),
            0 <= j < self.slot_children(slot).len(),
        ensures
            self.slot_children(slot)[j] < self.nodes.len(),
    {
        match slot {
            Slot::NodeList(head) => {
                lemma_chain_items(self.node_cells, head, j);
            },
            Slot::NodeMap(head) => {
                lemma_chain_items(self.pair_cells, head, j / 2);
            },
            _ => {},
        }
    }
}

/// Where a cursor that starts at `head` stands after `k` links.
pub open spec fn follow<T>(cells: Seq<Cell<T>>, head: Option<usize>, k: nat) -> Option<usize>
    decreases k,
{
    if k == 0 {
        head
    } else {
        match follow(cells, head, (k - 1) as nat) {
            None => None,
            Some(at) => cells[at as int].next,
        }
    }
}

/// After `k` links a cursor has the list without its first `k` items
/// before it.
pub(crate) proof fn lemma_follow_skips<T>(cells: Seq<Cell<T>>, head: Option<usize>, k: nat)
    requires
        k <= chain(cells, head).len(),
    ensures
        chain(cells, follow(cells, head, k)) == chain(cells, head).skip(k as int),
    decreases k,
{
    if k == 0 {
        assert(chain(cells, head).skip(0) == chain(cells, head));
    } else {
        lemma_follow_skips(cells, head, (k - 1) as nat);
        let before = follow(cells, head, (k - 1) as nat);
        let rest = chain(cells, head).skip(k - 1);
        assert(rest.len() > 0);
        assert(rest.skip(1) == chain(cells, head).skip(k as int));
        assert(chain(cells, before).skip(1) == chain(cells, cells[before->0 as int].next));
    }
}

/// Reads the cell under a cursor and the place that the cursor moves to;
/// `None` at the end of the list.
pub(crate) fn step<T: Copy>(cells: &Vec<Cell<T>>, current: Option<usize>) -> (r: Option<
    (T, Option<usize>),
>)
    requires
        links_ok(cells@),
        head_ok(current, cells@.len()),
    ensures
        match r {
            None => current is None && chain(cells@, current) == Seq::<T>::empty(),
            Some((item, next)) => {
                &&& current is Some
                &&& head_ok(next, cells@.len())
                &&& next == cells@[current->0 as int].next
                &&& chain(cells@, current).len() > 0
                &&& chain(cells@, current)[0] == item
                &&& chain(cells@, current).drop_first() == chain(cells@, next)
            },
        },
{
    match current {
        None => None,
        Some(at) => {
            let cell = &cells[at];
            assert(link_ok(cell.next, at as int));
            assert((seq![cell.item] + chain(cells@, cell.next)).drop_first() == chain(
                cells@,
                cell.next,
            ));
            Some((cell.item, cell.next))
        },
    }
}

fn head_in(head: &Option<usize>, cells: usize) -> (r: bool)
    ensures
        r == head_ok(*head, cells as nat),
{
    match head {
        None => true,
        Some(h) => *h < cells,
    }
}

/// Why a tree under construction refuses an addition.
#[derive(Clone, Copy, Debug, PartialEq, Eq, Structural)]
pub enum TreeError {
    /// No kind of the schema has the record's tag name.
    UnknownTag,
    /// The record has more or fewer fields than its kind.
    FieldCount,
    /// The value at this index does not fit its field, or refers to a node,
    /// a cell or an interned string that is not there.
    Field(usize),
    /// The item at this index of a list refers to a node that is not there.
    Item(usize),
    /// The constant pool holds as many strings as there are ids.
    PoolFull,
}

/// A tree under construction.
///
/// Nodes are added children first, so that a record only refers to what is
/// already there.
pub struct TreeBuilder {
    schema: Schema,
    nodes: Vec<Record>,
    node_cells: Vec<Cell<usize>>,
    pair_cells: Vec<Cell<(usize, usize)>>,
    range_cells: Vec<Cell<RawRange>>,
    constants: Vec<Vec<u8>>,
}

impl View for TreeBuilder {
    type V = TreeModel;

    closed spec fn view(&self) -> TreeModel {
        TreeModel {
            kinds: self.schema@,
            nodes: self.nodes@.map_values(|r: Record| r@),
            node_cells: self.node_cells@,
            pair_cells: self.pair_cells@,
            range_cells: self.range_cells@,
            constants: self.constants@.map_values(|c: Vec<u8>| c@),
        }
    }
}

/// A finished tree: the arena that every view borrows from.
pub struct Arena {
    tree: TreeBuilder,
}

impl View for Arena {
    type V = TreeModel;

    closed spec fn view(&self) -> TreeModel {
        self.tree@
    }
}

impl TreeBuilder {
    /// An empty tree over `schema`.
    pub fn new(schema: Schema) -> (tree: TreeBuilder)
        ensures
            tree@.wf(),
            tree@ == (TreeModel {
                kinds: schema@,
                nodes: Seq::empty(),
                node_cells: Seq::empty(),
                pair_cells: Seq::empty(),
                range_cells: Seq::empty(),
                constants: Seq::empty(),
            }),
    {
        schema.witness();
        let tree = TreeBuilder {
            schema,
            nodes: Vec::new(),
            node_cells: Vec::new(),
            pair_cells: Vec::new(),
            range_cells: Vec::new(),
            constants: Vec::new(),
        };
        assert(tree@.nodes == Seq::<RecordModel>::empty());
        assert(tree@.constants == Seq::<Seq<u8>>::empty());
        tree
    }

    /// Interns a string and gives its id, the number of strings then held.
    pub fn add_constant(&mut self, bytes: Vec<u8>) -> (r: Result<u32, TreeError>)
        requires
            old(self)@.wf(),
        ensures
            final(self)@.wf(),
            match r {
                Ok(id) => {
                    &&& old(self)@.constants.len() < u32::MAX
                    &&& id == old(self)@.constants.len() + 1
                    &&& final(self)@ == (TreeModel {
                        constants: old(self)@.constants.push(bytes@),
                        ..old(self)@
                    })
                },
                Err(e) => {
                    &&& e == TreeError::PoolFull
                    &&& old(self)@.constants.len() >= u32::MAX
                    &&& final(self)@ == old(self)@
                },
            },
    {
        if self.constants.len() >= u32::MAX as usize {
            return Err(TreeError::PoolFull);
        }
        let id = (self.constants.len() + 1) as u32;
        self.constants.push(bytes);
        proof {
            assert(self@.constants == old(self)@.constants.push(bytes@));
            old(self)@.lemma_nodes_grow(self@);
        }
        Ok(id)
    }

    /// Stores a list of nodes and gives its head.
    ///
    /// The list holds `items` in order. It is refused where an item is no
    /// node of the tree; `Item` then gives the first such index.
    pub fn add_node_list(&mut self, items: &[usize]) -> (r: Result<Option<usize>, TreeError>)
        requires
            old(self)@.wf(),
        ensures
            final(self)@.wf(),
            match r {
                Ok(head) => {
                    &&& forall|i: int| 0 <= i < items@.len() ==> items@[i] < old(self)@.nodes.len()
                    &&& head_ok(head, final(self)@.node_cells.len())
                    &&& chain(final(self)@.node_cells, head) == items@
                    &&& old(self)@.grows_to(final(self)@)
                    &&& final(self)@ == (TreeModel {
                        node_cells: final(self)@.node_cells,
                        ..old(self)@
                    })
                },
                Err(e) => {
                    &&& final(self)@ == old(self)@
                    &&& e matches TreeError::Item(i)
                    &&& i < items@.len()
                    &&& items@[i as int] >= old(self)@.nodes.len()
                    &&& forall|g: int| 0 <= g < i ==> items@[g] < old(self)@.nodes.len()
                },
            },
    {
        let mut i: usize = 0;
        while i < items.len()
            invariant
                i <= items@.len(),
                *self == *old(self),
                self@.wf(),
                forall|g: int| 0 <= g < i ==> items@[g] < self@.nodes.len(),
            decreases items@.len() - i,
        {
            if items[i] >= self.nodes.len() {
                return Err(TreeError::Item(i));
            }
            i = i + 1;
        }
        let mut head: Option<usize> = None;
        let mut k: usize = items.len();
        while k > 0
            invariant
                k <= items@.len(),
                old(self)@.wf(),
                self@.wf(),
                old(self)@.grows_to(self@),
                self@ == (TreeModel { node_cells: self@.node_cells, ..old(self)@ }),
                forall|g: int| 0 <= g < items@.len() ==> items@[g] < self@.nodes.len(),
                head_ok(head, self@.node_cells.len()),
                chain(self@.node_cells, head) == items@.subrange(k as int, items@.len() as int),
            decreases k,
        {
            k = k - 1;
            let cell = Cell { item: items[k], next: head };
            let at = self.node_cells.len();
            proof {
                let before = self@;
                let cells = before.node_cells.push(cell);
                let after = TreeModel { node_cells: cells, ..before };
                lemma_chain_push(before.node_cells, cell, head);
                assert(chain(cells, Some(at)) == seq![items@[k as int]] + chain(cells, head));
                assert(seq![items@[k as int]] + items@.subrange(k + 1, items@.len() as int)
                    == items@.subrange(k as int, items@.len() as int));
                before.lemma_nodes_grow(after);
            }
            self.node_cells.push(cell);
            head = Some(at);
        }
        assert(items@.subrange(0, items@.len() as int) == items@);
        Ok(head)
    }

    /// Stores an association list and gives its head.
    ///
    /// The list holds `entries` in order, each a key node and a value node.
    /// It is refused where a key or a value is no node of the tree; `Item`
    /// then gives the first such entry.
    pub fn add_node_map(&mut self, entries: &[(usize, usize)]) -> (r: Result<
        Option<usize>,
        TreeError,
    >)
        requires
            old(self)@.wf(),
        ensures
            final(self)@.wf(),
            match r {
                Ok(head) => {
                    &&& forall|i: int|
                        0 <= i < entries@.len() ==> entries@[i].0 < old(self)@.nodes.len()
                            && entries@[i].1 < old(self)@.nodes.len()
                    &&& head_ok(head, final(self)@.pair_cells.len())
                    &&& chain(final(self)@.pair_cells, head) == entries@
                    &&& old(self)@.grows_to(final(self)@)
                    &&& final(self)@ == (TreeModel {
                        pair_cells: final(self)@.pair_cells,
                        ..old(self)@
                    })
                },
                Err(e) => {
                    &&& final(self)@ == old(self)@
                    &&& e matches TreeError::Item(i)
                    &&& i < entries@.len()
                    &&& (entries@[i as int].0 >= old(self)@.nodes.len() || entries@[i as int].1
                        >= old(self)@.nodes.len())
                    &&& forall|g: int|
                        0 <= g < i ==> entries@[g].0 < old(self)@.nodes.len() && entries@[g].1
                            < old(self)@.nodes.len()
                },
            },
    {
        let mut i: usize = 0;
        while i < entries.len()
            invariant
                i <= entries@.len(),
                *self == *old(self),
                self@.wf(),
                forall|g: int|
                    0 <= g < i ==> entries@[g].0 < self@.nodes.len() && entries@[g].1
                        < self@.nodes.len(),
            decreases entries@.len() - i,
        {
            if entries[i].0 >= self.nodes.len() || entries[i].1 >= self.nodes.len() {
                return Err(TreeError::Item(i));
            }
            i = i + 1;
        }
        let mut head: Option<usize> = None;
        let mut k: usize = entries.len();
        while k > 0
            invariant
                k <= entries@.len(),
                old(self)@.wf(),
                self@.wf(),
                old(self)@.grows_to(self@),
                self@ == (TreeModel { pair_cells: self@.pair_cells, ..old(self)@ }),
                forall|g: int|
                    0 <= g < entries@.len() ==> entries@[g].0 < self@.nodes.len() && entries@[g].1
                        < self@.nodes.len(),
                head_ok(head, self@.pair_cells.len()),
                chain(self@.pair_cells, head) == entries@.subrange(k as int, entries@.len() as int),
            decreases k,
        {
            k = k - 1;
            let cell = Cell { item: entries[k], next: head };
            let at = self.pair_cells.len();
            proof {
                let before = self@;
                let cells = before.pair_cells.push(cell);
                let after = TreeModel { pair_cells: cells, ..before };
                lemma_chain_push(before.pair_cells, cell, head);
                assert(chain(cells, Some(at)) == seq![entries@[k as int]] + chain(cells, head));
                assert(seq![entries@[k as int]] + entries@.subrange(k + 1, entries@.len() as int)
                    == entries@.subrange(k as int, entries@.len() as int));
                before.lemma_nodes_grow(after);
            }
            self.pair_cells.push(cell);
            head = Some(at);
        }
        assert(entries@.subrange(0, entries@.len() as int) == entries@);
        Ok(head)
    }

    /// Stores a list of ranges, in order, and gives its head.
    pub fn add_range_list(&mut self, ranges: &[RawRange]) -> (head: Option<usize>)
        requires
            old(self)@.wf(),
        ensures
            final(self)@.wf(),
            head_ok(head, final(self)@.range_cells.len()),
            chain(final(self)@.range_cells, head) == ranges@,
            old(self)@.grows_to(final(self)@),
            final(self)@ == (TreeModel { range_cells: final(self)@.range_cells, ..old(self)@ }),
    {
        let mut head: Option<usize> = None;
        let mut k: usize = ranges.len();
        while k > 0
            invariant
                k <= ranges@.len(),
                old(self)@.wf(),
                self@.wf(),
                old(self)@.grows_to(self@),
                self@ == (TreeModel { range_cells: self@.range_cells, ..old(self)@ }),
                head_ok(head, self@.range_cells.len()),
                chain(self@.range_cells, head) == ranges@.subrange(k as int, ranges@.len() as int),
            decreases k,
        {
            k = k - 1;
            let cell = Cell { item: ranges[k], next: head };
            let at = self.range_cells.len();
            proof {
                let before = self@;
                let cells = before.range_cells.push(cell);
                let after = TreeModel { range_cells: cells, ..before };
                lemma_chain_push(before.range_cells, cell, head);
                assert(chain(cells, Some(at)) == seq![ranges@[k as int]] + chain(cells, head));
                assert(seq![ranges@[k as int]] + ranges@.subrange(k + 1, ranges@.len() as int)
                    == ranges@.subrange(k as int, ranges@.len() as int));
                before.lemma_nodes_grow(after);
            }
            self.range_cells.push(cell);
            head = Some(at);
        }
        assert(ranges@.subrange(0, ranges@.len() as int) == ranges@);
        head
    }

    /// Whether `value` can stand in a field described by `field`: it has
    /// the field's shape, and what it refers to is in the tree.
    pub fn fits(&self, field: &FieldDescriptor, value: &FieldValue) -> (r: bool)
        ensures
            r == self@.fits(field@, value@),
    {
        match value {
            FieldValue::Absent => match field.kind {
                FieldKind::NestedOptional => true,
                FieldKind::NodeList => field.optional,
                FieldKind::NodeMap => field.optional,
                FieldKind::SubRange => field.optional,
                FieldKind::SubRangeList => field.optional,
                _ => false,
            },
            FieldValue::Text(_) => match field.kind {
                FieldKind::Text => true,
                _ => false,
            },
            FieldValue::Bool(_) => match field.kind {
                FieldKind::Bool => true,
                _ => false,
            },
            FieldValue::Node(child) => match field.kind {
                FieldKind::NestedRequired => *child < self.nodes.len(),
                FieldKind::NestedOptional => *child < self.nodes.len(),
                _ => false,
            },
            FieldValue::NodeList(head) => match field.kind {
                FieldKind::NodeList => head_in(head, self.node_cells.len()),
                _ => false,
            },
            FieldValue::NodeMap(head) => match field.kind {
                FieldKind::NodeMap => head_in(head, self.pair_cells.len()),
                _ => false,
            },
            FieldValue::SubRange(_) => match field.kind {
                FieldKind::SubRange => true,
                _ => false,
            },
            FieldValue::SubRangeList(head) => match field.kind {
                FieldKind::SubRangeList => head_in(head, self.range_cells.len()),
                _ => false,
            },
            FieldValue::Interned(id) => match field.kind {
                FieldKind::InternedRef => 1 <= *id && *id as usize <= self.constants.len(),
                _ => false,
            },
        }
    }

    /// Adds a node and gives its index.
    ///
    /// The record is taken where its tag is that of a kind of the schema
    /// and its values are that kind's fields, each referring only to what
    /// the tree already holds. Otherwise the tree stays as it is.
    pub fn add_node(&mut self, tag: &str, location: RawRange, fields: Vec<FieldValue>) -> (r: Result<
        usize,
        TreeError,
    >)
        requires
            old(self)@.wf(),
        ensures
            final(self)@.wf(),
            match r {
                Ok(n) => {
                    &&& old(self)@.accepts(tag@, fields@.map_values(|v: FieldValue| v@))
                    &&& n == old(self)@.nodes.len()
                    &&& final(self)@ == (TreeModel {
                        nodes: old(self)@.nodes.push(
                            RecordModel {
                                tag: tag@,
                                location,
                                fields: fields@.map_values(|v: FieldValue| v@),
                            },
                        ),
                        ..old(self)@
                    })
                },
                Err(e) => {
                    &&& final(self)@ == old(self)@
                    &&& old(self)@.refuses(tag@, fields@.map_values(|v: FieldValue| v@), e)
                },
            },
    {
        let ghost slots = fields@.map_values(|v: FieldValue| v@);
        let kind = match self.schema.kind_of_tag(tag) {
            Some(kind) => kind,
            None => {
                return Err(TreeError::UnknownTag);
            },
        };
        proof {
            lemma_tag_index(self@.kinds, tag@, kind as int);
        }
        let descriptor = match self.schema.kind(kind) {
            Some(descriptor) => descriptor,
            None => {
                return Err(TreeError::UnknownTag);
            },
        };
        if fields.len() != descriptor.fields.len() {
            return Err(TreeError::FieldCount);
        }
        let ghost shapes = self@.kinds[kind as int].fields;
        let mut i: usize = 0;
        while i < fields.len()
            invariant
                i <= fields@.len(),
                *self == *old(self),
                self@.wf(),
                slots == fields@.map_values(|v: FieldValue| v@),
                shapes == descriptor@.fields,
                shapes.len() == fields@.len(),
                descriptor.fields@.len() == fields@.len(),
                has_tag(self@.kinds, tag@),
                shapes == self@.kinds[tag_index(self@.kinds, tag@)].fields,
                forall|g: int| 0 <= g < i ==> self@.fits(shapes[g], #[trigger] slots[g]),
            decreases fields@.len() - i,
        {
            assert(shapes[i as int] == descriptor.fields@[i as int]@);
            assert(slots[i as int] == fields@[i as int]@);
            if !self.fits(&descriptor.fields[i], &fields[i]) {
                return Err(TreeError::Field(i));
            }
            i = i + 1;
        }
        let n = self.nodes.len();
        let record = Record { tag: String::from_str(tag), location, fields };
        proof {
            let before = self@;
            let after = TreeModel { nodes: before.nodes.push(record@), ..before };
            before.lemma_nodes_grow(after);
            lemma_tag_index(after.kinds, tag@, kind as int);
            assert forall|i: int| 0 <= i < slots.len() implies after.slot_ok(
                n as int,
                shapes[i],
                #[trigger] slots[i],
            ) by {
                before.lemma_slot_grows(after, shapes[i], slots[i]);
                assert forall|j: int| 0 <= j < after.slot_children(slots[i]).len() implies
                    #[trigger] after.slot_children(slots[i])[j] < n by {
                    before.lemma_children_exist(shapes[i], slots[i], j);
                }
            }
            assert(after.record_ok(n as int));
            assert(self.nodes@.push(record).map_values(|r: Record| r@) == before.nodes.push(
                record@,
            ));
        }
        self.nodes.push(record);
        Ok(n)
    }

    /// Closes the tree.
    pub fn finish(self) -> (arena: Arena)
        requires
            self@.wf(),
        ensures
            arena@ == self@,
    {
        Arena { tree: self }
    }
}

impl Arena {
    #[verifier::type_invariant]
    spec fn inv(self) -> bool {
        self.tree@.wf()
    }

    /// Calls to mind that a finished tree is well formed.
    pub(crate) fn witness(&self)
        ensures
            self@.wf(),
    {
        proof {
            use_type_invariant(self);
        }
    }

    /// The schema of the tree.
    pub fn schema(&self) -> (schema: &Schema)
        ensures
            schema@ == self@.kinds,
    {
        &self.tree.schema
    }

    /// The number of nodes.
    pub fn len(&self) -> (n: usize)
        ensures
            n == self@.nodes.len(),
    {
        self.tree.nodes.len()
    }

    /// Looks up an interned string by its id.
    ///
    /// The ids in use are 1 up to the number of strings in the pool; any
    /// other id is unknown.
    pub fn constant(&self, id: u32) -> (r: Option<&[u8]>)
        ensures
            r is Some <==> 1 <= id <= self@.constants.len(),
            r is Some ==> r->0@ == self@.constants[id - 1],
    {
        if 1 <= id && id as usize <= self.tree.constants.len() {
            Some(self.tree.constants[id as usize - 1].as_slice())
        } else {
            None
        }
    }

    pub(crate) fn record(&self, n: usize) -> (record: &Record)
        requires
            n < self@.nodes.len(),
        ensures
            record@ == self@.nodes[n as int],
    {
        &self.tree.nodes[n]
    }

    pub(crate) fn node_cells(&self) -> (cells: &Vec<Cell<usize>>)
        ensures
            cells@ == self@.node_cells,
    {
        &self.tree.node_cells
    }

    pub(crate) fn pair_cells(&self) -> (cells: &Vec<Cell<(usize, usize)>>)
        ensures
            cells@ == self@.pair_cells,
    {
        &self.tree.pair_cells
    }

    pub(crate) fn range_cells(&self) -> (cells: &Vec<Cell<RawRange>>)
        ensures
            cells@ == self@.range_cells,
    {
        &self.tree.range_cells
    }
}

} // verus!
