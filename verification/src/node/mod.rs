//! Views of the tree: nodes, their fields, and the collections they hold.
//!
//! A view borrows from the arena and owns nothing.

pub mod collections;
pub mod location;
pub mod text;
pub mod visit;

use vstd::prelude::*;
use vstd::string::*;
use vstd::pervasive::unreached;
use crate::arena::{chain, lemma_tag_index, Arena, FieldValue, RecordModel, Slot, TreeModel};
use crate::schema::{lemma_interned_field, FieldShape, KindShape, NodeKindDescriptor};
use crate::node::collections::{NodeList, RBSHash};
use crate::node::location::{RBSLocationRange, RBSLocationRangeList};
use crate::node::text::RBSString;

verus! {

/// What a node view shows: a node of a tree.
pub struct NodeModel {
    pub tree: TreeModel,
    pub id: usize,
}

impl NodeModel {
    /// The node's record.
    pub open spec fn record(self) -> RecordModel {
        self.tree.nodes[self.id as int]
    }

    /// The index of the node's kind in the schema.
    pub open spec fn kind(self) -> int {
        self.tree.kind_of(self.id as int)
    }

    /// The node's kind.
    pub open spec fn shape(self) -> KindShape {
        self.tree.kinds[self.kind()]
    }

    /// The node has a field at `field`.
    pub open spec fn has_field(self, field: int) -> bool {
        0 <= field < self.record().fields.len()
    }

    /// The shape of the field at `field`.
    pub open spec fn field(self, field: int) -> FieldShape {
        self.shape().fields[field]
    }

    /// The value of the field at `field`.
    pub open spec fn slot(self, field: int) -> Slot {
        self.record().fields[field]
    }

    /// The node is one of a well-formed tree.
    pub open spec fn wf(self) -> bool {
        &&& self.tree.wf()
        &&& self.id < self.tree.nodes.len()
    }
}

/// A node of the tree: the closed union of all kinds of the schema, told
/// apart by the kind's index.
#[derive(Clone, Copy)]
pub struct Node<'a> {
    arena: &'a Arena,
    id: usize,
    kind: usize,
}

impl<'a> View for Node<'a> {
    type V = NodeModel;

    closed spec fn view(&self) -> NodeModel {
        NodeModel { tree: self.arena@, id: self.id }
    }
}

impl Arena {
    /// The node at `id`, if there is one.
    pub fn node(&self, id: usize) -> (r: Option<Node<'_>>)
        ensures
            r is Some <==> id < self@.nodes.len(),
            r is Some ==> r->0@ == (NodeModel { tree: self@, id }),
    {
        if id < self.len() {
            Some(Node::new(self, id))
        } else {
            None
        }
    }
}

impl<'a> Node<'a> {
    #[verifier::type_invariant]
    spec fn inv(self) -> bool {
        &&& self.id < self.arena@.nodes.len()
        &&& self.kind == self.arena@.kind_of(self.id as int)
    }

    /// The view of the node at `id`.
    ///
    /// The record's tag decides the kind: it is the tag name of exactly
    /// one kind of the schema.
    pub(crate) fn new(arena: &'a Arena, id: usize) -> (node: Node<'a>)
        requires
            id < arena@.nodes.len(),
        ensures
            node@ == (NodeModel { tree: arena@, id }),
    {
        arena.witness();
        assert(arena@.record_ok(id as int));
        let record = arena.record(id);
        match arena.schema().kind_of_tag(record.tag.as_str()) {
            Some(kind) => {
                proof {
                    lemma_tag_index(arena@.kinds, record@.tag, kind as int);
                }
                Node { arena, id, kind }
            },
            None => unreached(),
        }
    }

    /// Calls to mind that the node is one of a well-formed tree.
    pub(crate) fn witness(&self)
        ensures
            self@.wf(),
            0 <= self@.kind() < self@.tree.kinds.len(),
            self@.record().fields.len() == self@.shape().fields.len(),
    {
        proof {
            use_type_invariant(self);
        }
        self.arena.witness();
        assert(self@.tree.record_ok(self.id as int));
    }

    /// The node's index in the arena.
    pub fn id(&self) -> (id: usize)
        ensures
            id == self@.id,
    {
        self.id
    }

    /// The index of the node's kind in the schema.
    pub fn kind(&self) -> (kind: usize)
        ensures
            kind == self@.kind(),
            kind < self@.tree.kinds.len(),
    {
        self.witness();
        proof {
            use_type_invariant(self);
        }
        self.kind
    }

    /// The descriptor of the node's kind.
    pub fn descriptor(&self) -> (descriptor: &'a NodeKindDescriptor)
        ensures
            descriptor@ == self@.shape(),
    {
        let kind = self.kind();
        match self.arena.schema().kind(kind) {
            Some(descriptor) => descriptor,
            None => unreached(),
        }
    }

    /// The name of the node's kind, as the schema declares it.
    pub fn kind_name(&self) -> (name: &'a str)
        ensures
            name@ == self@.shape().kind_name,
    {
        self.descriptor().kind_name.as_str()
    }

    /// The name of the node's variant in the union of kinds.
    pub fn variant_name(&self) -> (name: &'a str)
        ensures
            name@ == self@.shape().variant_name,
    {
        self.descriptor().variant_name.as_str()
    }

    /// The node's range in the source.
    pub fn location(&self) -> (range: RBSLocationRange)
        ensures
            range@ == self@.record().location,
    {
        proof {
            use_type_invariant(self);
        }
        RBSLocationRange::new(self.arena.record(self.id).location)
    }

    /// The number of fields of the node.
    pub fn field_count(&self) -> (n: usize)
        ensures
            n == self@.record().fields.len(),
            n == self@.shape().fields.len(),
    {
        self.witness();
        proof {
            use_type_invariant(self);
        }
        self.arena.record(self.id).fields.len()
    }

    /// The index of the first field whose accessor is called `name`.
    pub fn field_index(&self, name: &str) -> (r: Option<usize>)
        ensures
            match r {
                Some(i) => {
                    &&& self@.has_field(i as int)
                    &&& self@.field(i as int).accessor_name == name@
                    &&& forall|g: int| 0 <= g < i ==> self@.field(g).accessor_name != name@
                },
                None => forall|g: int| self@.has_field(g) ==> self@.field(g).accessor_name != name@,
            },
    {
        self.witness();
        let descriptor = self.descriptor();
        let mut i: usize = 0;
        while i < descriptor.fields.len()
            invariant
                i <= descriptor.fields@.len(),
                descriptor@ == self@.shape(),
                self@.record().fields.len() == descriptor.fields@.len(),
                forall|g: int| 0 <= g < i ==> self@.field(g).accessor_name != name@,
            decreases descriptor.fields@.len() - i,
        {
            assert(self@.field(i as int) == descriptor.fields@[i as int]@);
            if descriptor.fields[i].accessor_name.as_str().eq(name) {
                return Some(i);
            }
            i = i + 1;
        }
        None
    }

    fn value(&self, field: usize) -> (r: Option<&'a FieldValue>)
        ensures
            self@.wf(),
            r is Some <==> self@.has_field(field as int),
            r is Some ==> r->0@ == self@.slot(field as int),
            r is Some ==> self@.tree.slot_ok(
                self@.id as int,
                self@.field(field as int),
                self@.slot(field as int),
            ),
    {
        self.witness();
        proof {
            use_type_invariant(self);
        }
        let record = self.arena.record(self.id);
        assert(self@.tree.record_ok(self.id as int));
        if field < record.fields.len() {
            assert(record@.fields[field as int] == record.fields@[field as int]@);
            Some(&record.fields[field])
        } else {
            None
        }
    }

    /// The text of the field at `field`, where that field holds text.
    pub fn string(&self, field: usize) -> (r: Option<RBSString<'a>>)
        ensures
            match r {
                Some(text) => self@.has_field(field as int) && self@.slot(field as int)
                    == Slot::Text(text@),
                None => !(self@.has_field(field as int) && self@.slot(field as int) is Text),
            },
            self@.has_field(field as int) && self@.field(field as int).kind is Text ==> r is Some,
    {
        match self.value(field) {
            Some(FieldValue::Text(bytes)) => Some(RBSString::new(bytes.as_slice())),
            _ => None,
        }
    }

    /// The boolean of the field at `field`, where that field holds one.
    pub fn boolean(&self, field: usize) -> (r: Option<bool>)
        ensures
            match r {
                Some(b) => self@.has_field(field as int) && self@.slot(field as int) == Slot::Bool(
                    b,
                ),
                None => !(self@.has_field(field as int) && self@.slot(field as int) is Bool),
            },
            self@.has_field(field as int) && self@.field(field as int).kind is Bool ==> r is Some,
    {
        match self.value(field) {
            Some(FieldValue::Bool(b)) => Some(*b),
            _ => None,
        }
    }

    /// The child in the field at `field`.
    ///
    /// A required child is always there. An optional child that is absent
    /// gives `None`: no view is made of what is not there.
    pub fn node(&self, field: usize) -> (r: Option<Node<'a>>)
        ensures
            match r {
                Some(child) => {
                    &&& self@.has_field(field as int)
                    &&& self@.slot(field as int) == Slot::Node(child@.id)
                    &&& child@.tree == self@.tree
                    &&& child@.id < self@.id
                },
                None => !(self@.has_field(field as int) && self@.slot(field as int) is Node),
            },
            self@.has_field(field as int) && self@.slot(field as int) is Absent ==> r is None,
            self@.has_field(field as int) && self@.field(field as int).kind is NestedRequired
                ==> r is Some,
    {
        match self.value(field) {
            Some(FieldValue::Node(child)) => {
                assert(self@.tree.slot_children(self@.slot(field as int))[0] == *child);
                Some(Node::new(self.arena, *child))
            },
            _ => None,
        }
    }

    /// The range in the field at `field`, where that field holds one; an
    /// optional range that is absent gives `None`.
    pub fn location_range(&self, field: usize) -> (r: Option<RBSLocationRange>)
        ensures
            match r {
                Some(range) => self@.has_field(field as int) && self@.slot(field as int)
                    == Slot::SubRange(range@),
                None => !(self@.has_field(field as int) && self@.slot(field as int) is SubRange),
            },
            self@.has_field(field as int) && self@.slot(field as int) is Absent ==> r is None,
            self@.has_field(field as int) && self@.field(field as int).kind is SubRange
                && !self@.field(field as int).optional ==> r is Some,
    {
        match self.value(field) {
            Some(FieldValue::SubRange(range)) => Some(RBSLocationRange::new(*range)),
            _ => None,
        }
    }

    /// The list of nodes in the field at `field`, where that field holds
    /// one; an optional list that is absent gives `None`.
    pub fn node_list(&self, field: usize) -> (r: Option<NodeList<'a>>)
        ensures
            match r {
                Some(list) => {
                    &&& self@.has_field(field as int)
                    &&& self@.slot(field as int) matches Slot::NodeList(head)
                    &&& list@ == chain(self@.tree.node_cells, head)
                    &&& list.tree() == self@.tree
                    &&& forall|j: int| 0 <= j < list@.len() ==> #[trigger] list@[j] < self@.id
                },
                None => !(self@.has_field(field as int) && self@.slot(field as int) is NodeList),
            },
            self@.has_field(field as int) && self@.slot(field as int) is Absent ==> r is None,
            self@.has_field(field as int) && self@.field(field as int).kind is NodeList
                && !self@.field(field as int).optional ==> r is Some,
    {
        match self.value(field) {
            Some(FieldValue::NodeList(head)) => {
                let list = NodeList::new(self.arena, *head);
                assert(self@.tree.slot_children(self@.slot(field as int)) == list@);
                Some(list)
            },
            _ => None,
        }
    }

    /// The association list in the field at `field`, where that field holds
    /// one; an optional one that is absent gives `None`.
    pub fn hash(&self, field: usize) -> (r: Option<RBSHash<'a>>)
        ensures
            match r {
                Some(list) => {
                    &&& self@.has_field(field as int)
                    &&& self@.slot(field as int) matches Slot::NodeMap(head)
                    &&& list@ == chain(self@.tree.pair_cells, head)
                    &&& list.tree() == self@.tree
                    &&& forall|j: int|
                        0 <= j < list@.len() ==> (#[trigger] list@[j]).0 < self@.id && list@[j].1
                            < self@.id
                },
                None => !(self@.has_field(field as int) && self@.slot(field as int) is NodeMap),
            },
            self@.has_field(field as int) && self@.slot(field as int) is Absent ==> r is None,
            self@.has_field(field as int) && self@.field(field as int).kind is NodeMap
                && !self@.field(field as int).optional ==> r is Some,
    {
        match self.value(field) {
            Some(FieldValue::NodeMap(head)) => {
                let list = RBSHash::new(self.arena, *head);
                assert forall|j: int| 0 <= j < list@.len() implies (#[trigger] list@[j]).0
                    < self@.id && list@[j].1 < self@.id by {
                    let children = self@.tree.slot_children(self@.slot(field as int));
                    assert(children[2 * j] == list@[j].0);
                    assert(children[2 * j + 1] == list@[j].1);
                }
                Some(list)
            },
            _ => None,
        }
    }

    /// The list of ranges in the field at `field`, where that field holds
    /// one; an optional list that is absent gives `None`.
    pub fn location_range_list(&self, field: usize) -> (r: Option<RBSLocationRangeList<'a>>)
        ensures
            match r {
                Some(list) => {
                    &&& self@.has_field(field as int)
                    &&& self@.slot(field as int) matches Slot::SubRangeList(head)
                    &&& list@ == chain(self@.tree.range_cells, head)
                    &&& list.tree() == self@.tree
                },
                None => !(self@.has_field(field as int) && self@.slot(field as int) is SubRangeList),
            },
            self@.has_field(field as int) && self@.slot(field as int) is Absent ==> r is None,
            self@.has_field(field as int) && self@.field(field as int).kind is SubRangeList
                && !self@.field(field as int).optional ==> r is Some,
    {
        match self.value(field) {
            Some(FieldValue::SubRangeList(head)) => Some(
                RBSLocationRangeList::new(self.arena, *head),
            ),
            _ => None,
        }
    }

    /// The id of the interned string in the field at `field`.
    pub fn constant_id(&self, field: usize) -> (r: Option<u32>)
        ensures
            match r {
                Some(id) => {
                    &&& self@.has_field(field as int)
                    &&& self@.slot(field as int) == Slot::Interned(id)
                    &&& 1 <= id <= self@.tree.constants.len()
                },
                None => !(self@.has_field(field as int) && self@.slot(field as int) is Interned),
            },
            self@.has_field(field as int) && self@.field(field as int).kind is InternedRef
                ==> r is Some,
    {
        match self.value(field) {
            Some(FieldValue::Interned(id)) => Some(*id),
            _ => None,
        }
    }

    /// The interned string that the field at `field` refers to.
    pub fn interned(&self, field: usize) -> (r: Option<&'a [u8]>)
        ensures
            match r {
                Some(bytes) => {
                    &&& self@.has_field(field as int)
                    &&& self@.slot(field as int) matches Slot::Interned(id)
                    &&& 1 <= id <= self@.tree.constants.len()
                    &&& bytes@ == self@.tree.constants[id - 1]
                },
                None => !(self@.has_field(field as int) && self@.slot(field as int) is Interned),
            },
            self@.has_field(field as int) && self@.field(field as int).kind is InternedRef
                ==> r is Some,
    {
        match self.constant_id(field) {
            Some(id) => self.arena.constant(id),
            None => None,
        }
    }
}

/// A node of the symbol kind: an interned string that the tree treats as
/// a node.
#[derive(Clone, Copy)]
pub struct SymbolNode<'a> {
    node: Node<'a>,
}

/// A node of the keyword kind: an interned string that the tree treats as
/// a node.
#[derive(Clone, Copy)]
pub struct KeywordNode<'a> {
    node: Node<'a>,
}

impl<'a> View for SymbolNode<'a> {
    type V = NodeModel;

    closed spec fn view(&self) -> NodeModel {
        self.node@
    }
}

impl<'a> View for KeywordNode<'a> {
    type V = NodeModel;

    closed spec fn view(&self) -> NodeModel {
        self.node@
    }
}

impl NodeModel {
    /// The interned string that a node of the symbol kind or of the
    /// keyword kind stands for: the one that its only field refers to.
    pub open spec fn interned_name(self) -> Seq<u8> {
        match self.slot(0) {
            Slot::Interned(id) => self.tree.constants[id - 1],
            _ => Seq::empty(),
        }
    }
}

impl<'a> Node<'a> {
    /// The node as a symbol, where it is of the symbol kind.
    pub fn as_symbol(&self) -> (r: Option<SymbolNode<'a>>)
        ensures
            r is Some <==> self@.kind() == self@.tree.kinds.len() - 1,
            r is Some ==> r->0@ == self@,
    {
        if self.kind() == self.arena.schema().symbol_kind() {
            proof {
                lemma_interned_field();
            }
            Some(SymbolNode { node: *self })
        } else {
            None
        }
    }

    /// The node as a keyword, where it is of the keyword kind.
    pub fn as_keyword(&self) -> (r: Option<KeywordNode<'a>>)
        ensures
            r is Some <==> self@.kind() == self@.tree.kinds.len() - 2,
            r is Some ==> r->0@ == self@,
    {
        if self.kind() == self.arena.schema().keyword_kind() {
            proof {
                lemma_interned_field();
            }
            Some(KeywordNode { node: *self })
        } else {
            None
        }
    }

    fn only_interned(&self) -> (bytes: &'a [u8])
        requires
            self@.shape().fields.len() == 1,
            self@.shape().fields[0].kind is InternedRef,
        ensures
            self@.slot(0) is Interned,
            bytes@ == self@.interned_name(),
    {
        self.witness();
        match self.interned(0) {
            Some(bytes) => bytes,
            None => unreached(),
        }
    }
}

impl<'a> SymbolNode<'a> {
    #[verifier::type_invariant]
    spec fn inv(self) -> bool {
        &&& self.node@.kind() == self.node@.tree.kinds.len() - 1
        &&& self.node@.shape().fields.len() == 1
        &&& self.node@.shape().fields[0].kind is InternedRef
    }

    /// The symbol as a node.
    pub fn as_node(&self) -> (node: Node<'a>)
        ensures
            node@ == self@,
    {
        self.node
    }

    /// The symbol's text, looked up in the pool of interned strings.
    #[must_use]
    pub fn name(&self) -> (bytes: &'a [u8])
        ensures
            self@.slot(0) is Interned,
            bytes@ == self@.interned_name(),
    {
        proof {
            use_type_invariant(self);
        }
        self.node.only_interned()
    }
}

impl<'a> KeywordNode<'a> {
    #[verifier::type_invariant]
    spec fn inv(self) -> bool {
        &&& self.node@.kind() == self.node@.tree.kinds.len() - 2
        &&& self.node@.shape().fields.len() == 1
        &&& self.node@.shape().fields[0].kind is InternedRef
    }

    /// The keyword as a node.
    pub fn as_node(&self) -> (node: Node<'a>)
        ensures
            node@ == self@,
    {
        self.node
    }

    /// The keyword's text, looked up in the pool of interned strings.
    #[must_use]
    pub fn name(&self) -> (bytes: &'a [u8])
        ensures
            self@.slot(0) is Interned,
            bytes@ == self@.interned_name(),
    {
        proof {
            use_type_invariant(self);
        }
        self.node.only_interned()
    }
}

/// The tag of an attribute whose instance variable is inferred.
pub const ATTR_IVAR_NAME_TAG_UNSPECIFIED: u32 = 0;

/// The tag of an attribute without an instance variable.
pub const ATTR_IVAR_NAME_TAG_EMPTY: u32 = 1;

/// The tag of an attribute whose instance variable is named.
pub const ATTR_IVAR_NAME_TAG_NAME: u32 = 2;

/// An attribute's instance variable as the foreign record holds it: a tag,
/// and the id of the interned name where the tag says that there is one.
#[derive(Clone, Copy, Debug)]
pub struct RawIvarName {
    pub tag: u32,
    pub name: u32,
}

/// Instance variable name specification for attributes.
#[derive(Clone, Copy, Debug, PartialEq, Eq, Structural)]
pub enum AttrIvarName {
    /// The attribute has inferred instance variable (nil)
    Unspecified,
    /// The attribute has no instance variable (false)
    Empty,
    /// The attribute has instance variable with the given name
    Name(u32),
}

impl AttrIvarName {
    /// What a raw record with a known tag says.
    pub open spec fn of(raw: RawIvarName) -> AttrIvarName {
        if raw.tag == ATTR_IVAR_NAME_TAG_UNSPECIFIED {
            AttrIvarName::Unspecified
        } else if raw.tag == ATTR_IVAR_NAME_TAG_EMPTY {
            AttrIvarName::Empty
        } else {
            AttrIvarName::Name(raw.name)
        }
    }

    /// Reads the raw record. Its tag is one of the three known tags.
    #[must_use]
    pub fn from_raw(raw: RawIvarName) -> (r: Self)
        requires
            raw.tag <= ATTR_IVAR_NAME_TAG_NAME,
        ensures
            r == Self::of(raw),
    {
        if raw.tag == ATTR_IVAR_NAME_TAG_UNSPECIFIED {
            Self::Unspecified
        } else if raw.tag == ATTR_IVAR_NAME_TAG_EMPTY {
            Self::Empty
        } else {
            Self::Name(raw.name)
        }
    }
}

} // verus!
