//! The schema: which node kinds exist and what fields each one has.
//!
//! A schema is authored as a [`Config`], a list of node declarations whose
//! fields name their underlying type by a string. [`Schema::from_config`]
//! turns it into descriptors with a closed set of field kinds, adds the two
//! kinds that stand for interned keywords and symbols, and rejects a
//! declaration that cannot be described.

use vstd::prelude::*;
use vstd::string::*;
use crate::names::{convert_name, converted, CIdentifier};

verus! {

/// `eq` of `str`, which `==` on string slices calls, holds exactly where the
/// two slices have the same characters in the same order.
pub assume_specification[ <str as PartialEq>::eq ](a: &str, b: &str) -> (r: bool)
    ensures
        r == (a@ == b@),
;

/// The shape of a field's accessor.
#[derive(Clone, Copy, Debug, PartialEq, Eq, Structural)]
pub enum FieldKind {
    /// A span of bytes.
    Text,
    /// A copied boolean.
    Bool,
    /// A child node that is always there.
    NestedRequired,
    /// A child node that may be absent.
    NestedOptional,
    /// A list of child nodes.
    NodeList,
    /// An association list from key nodes to value nodes.
    NodeMap,
    /// A byte range within the node's own range.
    SubRange,
    /// A list of byte ranges.
    SubRangeList,
    /// The id of an interned string.
    InternedRef,
}

impl FieldKind {
    /// Whether traversal goes into a field of this kind.
    pub open spec fn traversable(self) -> bool {
        self is NestedRequired || self is NestedOptional || self is NodeList || self is NodeMap
    }

    pub fn is_traversable(&self) -> (r: bool)
        ensures
            r == self.traversable(),
    {
        match self {
            FieldKind::NestedRequired => true,
            FieldKind::NestedOptional => true,
            FieldKind::NodeList => true,
            FieldKind::NodeMap => true,
            _ => false,
        }
    }
}

/// What a [`NodeField`] says.
pub struct FieldModel {
    pub name: Seq<char>,
    pub c_type: Seq<char>,
    pub c_name: Option<Seq<char>>,
    pub optional: bool,
}

/// What a [`NodeDecl`] says.
pub struct DeclModel {
    pub name: Seq<char>,
    pub rust_name: Seq<char>,
    pub fields: Seq<FieldModel>,
}

/// What a [`FieldDescriptor`] says.
pub struct FieldShape {
    pub accessor_name: Seq<char>,
    pub kind: FieldKind,
    pub optional: bool,
    pub foreign_field_name: Seq<char>,
}

/// What a [`NodeKindDescriptor`] says.
pub struct KindShape {
    pub kind_name: Seq<char>,
    pub variant_name: Seq<char>,
    pub struct_name: Seq<char>,
    pub tag_name: Seq<char>,
    pub method_name: Seq<char>,
    pub fields: Seq<FieldShape>,
}

/// One field as the schema's author declares it.
pub struct NodeField {
    /// The accessor's name.
    pub name: String,
    /// The name of the field's underlying type.
    pub c_type: String,
    /// The field's name in the foreign record, where it differs from `name`.
    pub c_name: Option<String>,
    /// Whether the field may be absent.
    pub optional: bool,
}

/// One node kind as the schema's author declares it.
pub struct NodeDecl {
    /// The kind's name, with `::` between namespaces.
    pub name: String,
    /// The name of the kind's view type, usually ending in `Node`.
    pub rust_name: String,
    /// The kind's fields in order; `None` stands for no fields.
    pub fields: Option<Vec<NodeField>>,
}

/// A schema as authored.
pub struct Config {
    pub nodes: Vec<NodeDecl>,
}

/// A field of a node kind.
pub struct FieldDescriptor {
    pub accessor_name: String,
    pub kind: FieldKind,
    pub optional: bool,
    pub foreign_field_name: String,
}

/// A node kind: its names in every convention, and its fields in order.
pub struct NodeKindDescriptor {
    pub kind_name: String,
    pub variant_name: String,
    pub struct_name: String,
    pub tag_name: String,
    pub method_name: String,
    pub fields: Vec<FieldDescriptor>,
}

/// Why a configuration describes no schema.
#[derive(Clone, Copy, Debug, PartialEq, Eq, Structural)]
pub enum SchemaError {
    /// The declaration at `node` has an empty name or an empty variant name.
    EmptyName { node: usize },
    /// The field at `field` of the declaration at `node` names an unknown
    /// underlying type.
    UnknownFieldKind { node: usize, field: usize },
    /// The declaration at `node` has the tag name of the earlier one at `with`.
    NameCollision { node: usize, with: usize },
}

/// The word that the accessor's target language reserves.
pub open spec fn reserved_word() -> Seq<char> {
    seq!['t', 'y', 'p', 'e']
}

/// A name that can stand where `name` is reserved: `type` becomes `type_`.
pub open spec fn escaped(name: Seq<char>) -> Seq<char> {
    if name == reserved_word() {
        name.push('_')
    } else {
        name
    }
}

pub open spec fn node_suffix() -> Seq<char> {
    seq!['N', 'o', 'd', 'e']
}

/// The view type's name without a final `Node`.
pub open spec fn variant_of(rust_name: Seq<char>) -> Seq<char> {
    let n = rust_name.len() as int;
    if n >= 4 && rust_name.subrange(n - 4, n) == node_suffix() {
        rust_name.subrange(0, n - 4)
    } else {
        rust_name
    }
}

/// The underlying types whose accessor gives a child node.
pub open spec fn names_node_type(c_type: Seq<char>) -> bool {
    ||| c_type == "rbs_node"@
    ||| c_type == "rbs_ast_comment"@
    ||| c_type == "rbs_ast_declarations_class_super"@
    ||| c_type == "rbs_ast_symbol"@
    ||| c_type == "rbs_keyword"@
    ||| c_type == "rbs_namespace"@
    ||| c_type == "rbs_type_name"@
    ||| c_type == "rbs_types_block"@
}

/// The field kind that an underlying type's name stands for, if any.
pub open spec fn classify(c_type: Seq<char>, optional: bool) -> Option<FieldKind> {
    if c_type == "rbs_string"@ {
        Some(FieldKind::Text)
    } else if c_type == "bool"@ {
        Some(FieldKind::Bool)
    } else if names_node_type(c_type) {
        if optional {
            Some(FieldKind::NestedOptional)
        } else {
            Some(FieldKind::NestedRequired)
        }
    } else if c_type == "rbs_node_list"@ {
        Some(FieldKind::NodeList)
    } else if c_type == "rbs_hash"@ {
        Some(FieldKind::NodeMap)
    } else if c_type == "rbs_location"@ {
        Some(FieldKind::SubRange)
    } else if c_type == "rbs_location_list"@ {
        Some(FieldKind::SubRangeList)
    } else if c_type == "rbs_constant_id"@ {
        Some(FieldKind::InternedRef)
    } else {
        None
    }
}

impl FieldModel {
    /// The field's name in the foreign record: `c_name` where it is given,
    /// else `name`, and escaped where that is a reserved word.
    pub open spec fn foreign_name(self) -> Seq<char> {
        match self.c_name {
            Some(given) => escaped(given),
            None => escaped(self.name),
        }
    }

    /// The descriptor of this field, where its underlying type is known.
    pub open spec fn shape(self) -> FieldShape {
        FieldShape {
            accessor_name: escaped(self.name),
            kind: classify(self.c_type, self.optional).unwrap(),
            optional: self.optional,
            foreign_field_name: self.foreign_name(),
        }
    }
}

impl DeclModel {
    /// The descriptor of this declaration, where its fields are known.
    pub open spec fn shape(self) -> KindShape {
        KindShape {
            kind_name: self.name,
            variant_name: variant_of(self.rust_name),
            struct_name: converted(self.name, CIdentifier::Type),
            tag_name: converted(self.name, CIdentifier::Constant),
            method_name: converted(variant_of(self.rust_name), CIdentifier::Method),
            fields: self.fields.map_values(|f: FieldModel| f.shape()),
        }
    }
}

impl View for NodeField {
    type V = FieldModel;

    open spec fn view(&self) -> FieldModel {
        FieldModel {
            name: self.name@,
            c_type: self.c_type@,
            c_name: match self.c_name {
                Some(given) => Some(given@),
                None => None,
            },
            optional: self.optional,
        }
    }
}

impl View for NodeDecl {
    type V = DeclModel;

    open spec fn view(&self) -> DeclModel {
        DeclModel {
            name: self.name@,
            rust_name: self.rust_name@,
            fields: self.declared_fields().map_values(|f: NodeField| f@),
        }
    }
}

impl View for Config {
    type V = Seq<DeclModel>;

    open spec fn view(&self) -> Seq<DeclModel> {
        self.nodes@.map_values(|d: NodeDecl| d@)
    }
}

impl View for FieldDescriptor {
    type V = FieldShape;

    open spec fn view(&self) -> FieldShape {
        FieldShape {
            accessor_name: self.accessor_name@,
            kind: self.kind,
            optional: self.optional,
            foreign_field_name: self.foreign_field_name@,
        }
    }
}

impl View for NodeKindDescriptor {
    type V = KindShape;

    open spec fn view(&self) -> KindShape {
        KindShape {
            kind_name: self.kind_name@,
            variant_name: self.variant_name@,
            struct_name: self.struct_name@,
            tag_name: self.tag_name@,
            method_name: self.method_name@,
            fields: self.fields@.map_values(|f: FieldDescriptor| f@),
        }
    }
}

impl NodeField {
    /// The field's name in the foreign record.
    pub fn c_name(&self) -> (r: &str)
        ensures
            r@ == self@.foreign_name(),
    {
        let name = match &self.c_name {
            Some(given) => given.as_str(),
            None => self.name.as_str(),
        };
        escape(name)
    }
}

impl NodeDecl {
    /// The declared fields, none where the list is left out.
    pub open spec fn declared_fields(&self) -> Seq<NodeField> {
        match self.fields {
            Some(fields) => fields@,
            None => Seq::empty(),
        }
    }

    /// The name of the kind's variant in the node union.
    pub fn variant_name(&self) -> (r: &str)
        ensures
            r@ == variant_of(self.rust_name@),
    {
        let name = self.rust_name.as_str();
        let n = name.unicode_len();
        if n >= 4 && name.get_char(n - 4) == 'N' && name.get_char(n - 3) == 'o' && name.get_char(
            n - 2,
        ) == 'd' && name.get_char(n - 1) == 'e' {
            assert(name@.subrange(n - 4, n as int) == node_suffix());
            name.substring_char(0, n - 4)
        } else {
            assert(n >= 4 ==> name@.subrange(n - 4, n as int) != node_suffix()) by {
                if n >= 4 {
                    let tail = name@.subrange(n - 4, n as int);
                    assert(tail[0] == name@[n - 4]);
                    assert(tail[1] == name@[n - 3]);
                    assert(tail[2] == name@[n - 2]);
                    assert(tail[3] == name@[n - 1]);
                }
            }
            name
        }
    }
}

fn escape(name: &str) -> (r: &str)
    ensures
        r@ == escaped(name@),
{
    proof {
        reveal_strlit("type");
        reveal_strlit("type_");
    }
    assert("type"@ == reserved_word());
    assert("type_"@ == reserved_word().push('_'));
    if name.eq("type") {
        "type_"
    } else {
        name
    }
}

fn is_node_type(c_type: &str) -> (r: bool)
    ensures
        r == names_node_type(c_type@),
{
    c_type.eq("rbs_node") || c_type.eq("rbs_ast_comment") || c_type.eq(
        "rbs_ast_declarations_class_super",
    ) || c_type.eq("rbs_ast_symbol") || c_type.eq("rbs_keyword") || c_type.eq("rbs_namespace")
        || c_type.eq("rbs_type_name") || c_type.eq("rbs_types_block")
}

/// Tells which field kind an underlying type's name stands for.
pub fn field_kind(c_type: &str, optional: bool) -> (r: Option<FieldKind>)
    ensures
        r == classify(c_type@, optional),
{
    if c_type.eq("rbs_string") {
        Some(FieldKind::Text)
    } else if c_type.eq("bool") {
        Some(FieldKind::Bool)
    } else if is_node_type(c_type) {
        if optional {
            Some(FieldKind::NestedOptional)
        } else {
            Some(FieldKind::NestedRequired)
        }
    } else if c_type.eq("rbs_node_list") {
        Some(FieldKind::NodeList)
    } else if c_type.eq("rbs_hash") {
        Some(FieldKind::NodeMap)
    } else if c_type.eq("rbs_location") {
        Some(FieldKind::SubRange)
    } else if c_type.eq("rbs_location_list") {
        Some(FieldKind::SubRangeList)
    } else if c_type.eq("rbs_constant_id") {
        Some(FieldKind::InternedRef)
    } else {
        None
    }
}


/// The declaration of a kind that stands for an interned string: its one
/// field holds the string's id in the constant pool.
pub open spec fn interned_decl(name: Seq<char>, rust_name: Seq<char>) -> DeclModel {
    DeclModel {
        name,
        rust_name,
        fields: seq![
            FieldModel {
                name: "name"@,
                c_type: "rbs_constant_id"@,
                c_name: Some("constant_id"@),
                optional: false,
            },
        ],
    }
}

pub open spec fn keyword_decl() -> DeclModel {
    interned_decl("RBS::Keyword"@, "KeywordNode"@)
}

pub open spec fn symbol_decl() -> DeclModel {
    interned_decl("RBS::AST::Symbol"@, "SymbolNode"@)
}

/// Every declaration of a schema: the authored ones in order, then the
/// keyword kind and the symbol kind.
pub open spec fn declarations(config: Seq<DeclModel>) -> Seq<DeclModel> {
    config + seq![keyword_decl(), symbol_decl()]
}

pub open spec fn tag_of(decl: DeclModel) -> Seq<char> {
    converted(decl.name, CIdentifier::Constant)
}

pub open spec fn names_given(decl: DeclModel) -> bool {
    decl.name.len() > 0 && variant_of(decl.rust_name).len() > 0
}

pub open spec fn field_known(decl: DeclModel, f: int) -> bool {
    classify(decl.fields[f].c_type, decl.fields[f].optional) is Some
}

pub open spec fn fields_known(decl: DeclModel) -> bool {
    forall|f: int| 0 <= f < decl.fields.len() ==> field_known(decl, f)
}

pub open spec fn tag_is_new(decls: Seq<DeclModel>, i: int) -> bool {
    forall|w: int| 0 <= w < i ==> tag_of(#[trigger] decls[w]) != tag_of(decls[i])
}

/// The declaration at `i` can be described.
pub open spec fn decl_ok(decls: Seq<DeclModel>, i: int) -> bool {
    &&& names_given(decls[i])
    &&& fields_known(decls[i])
    &&& tag_is_new(decls, i)
}

impl SchemaError {
    /// The index of the declaration that the error is about.
    pub open spec fn node(self) -> usize {
        match self {
            SchemaError::EmptyName { node } => node,
            SchemaError::UnknownFieldKind { node, .. } => node,
            SchemaError::NameCollision { node, .. } => node,
        }
    }
}

/// `e` names the first fault of its declaration: names come before fields,
/// fields before the tag, an earlier field or kind before a later one.
pub open spec fn fault_at(decls: Seq<DeclModel>, e: SchemaError) -> bool {
    let decl = decls[e.node() as int];
    match e {
        SchemaError::EmptyName { node } => !names_given(decl),
        SchemaError::UnknownFieldKind { node, field } => {
            &&& names_given(decl)
            &&& field < decl.fields.len()
            &&& !field_known(decl, field as int)
            &&& forall|g: int| 0 <= g < field ==> field_known(decl, g)
        },
        SchemaError::NameCollision { node, with } => {
            &&& names_given(decl)
            &&& fields_known(decl)
            &&& with < node
            &&& tag_of(decls[with as int]) == tag_of(decl)
            &&& forall|w: int| 0 <= w < with ==> tag_of(#[trigger] decls[w]) != tag_of(decl)
        },
    }
}

/// `e` is the first thing wrong with `decls`: the declarations before
/// `e`'s can be described, and `e` names the first fault of its own one.
pub open spec fn first_fault(decls: Seq<DeclModel>, e: SchemaError) -> bool {
    &&& e.node() < decls.len()
    &&& forall|j: int| 0 <= j < e.node() ==> decl_ok(decls, j)
    &&& fault_at(decls, e)
}

/// What holds of the kinds of every schema: each kind has a name, its other
/// names are that name in the three conventions, and no two kinds share a
/// tag name.
pub open spec fn kinds_ok(kinds: Seq<KindShape>) -> bool {
    &&& forall|k: int|
        0 <= k < kinds.len() ==> {
            let kind = #[trigger] kinds[k];
            &&& kind.kind_name.len() > 0
            &&& kind.variant_name.len() > 0
            &&& kind.struct_name == converted(kind.kind_name, CIdentifier::Type)
            &&& kind.tag_name == converted(kind.kind_name, CIdentifier::Constant)
            &&& kind.method_name == converted(kind.variant_name, CIdentifier::Method)
        }
    &&& forall|a: int, b: int|
        0 <= a < b < kinds.len() ==> (#[trigger] kinds[a]).tag_name != (#[trigger] kinds[b]).tag_name
    &&& kinds.len() >= 2
    &&& kinds[kinds.len() - 2] == keyword_decl().shape()
    &&& kinds[kinds.len() - 1] == symbol_decl().shape()
}

/// No two kinds of a schema have the same name.
pub proof fn lemma_kind_names_differ(kinds: Seq<KindShape>, a: int, b: int)
    requires
        kinds_ok(kinds),
        0 <= a < b < kinds.len(),
    ensures
        kinds[a].kind_name != kinds[b].kind_name,
{
    assert(kinds[a].tag_name != kinds[b].tag_name);
}

/// The one field of the keyword kind and of the symbol kind holds the id of
/// an interned string.
pub proof fn lemma_interned_field()
    ensures
        classify("rbs_constant_id"@, false) == Some(FieldKind::InternedRef),
        keyword_decl().shape().fields.len() == 1,
        keyword_decl().shape().fields[0].kind == FieldKind::InternedRef,
        symbol_decl().shape().fields.len() == 1,
        symbol_decl().shape().fields[0].kind == FieldKind::InternedRef,
{
    reveal_strlit("rbs_constant_id");
    reveal_strlit("rbs_string");
    reveal_strlit("bool");
    reveal_strlit("rbs_node");
    reveal_strlit("rbs_ast_comment");
    reveal_strlit("rbs_ast_declarations_class_super");
    reveal_strlit("rbs_ast_symbol");
    reveal_strlit("rbs_keyword");
    reveal_strlit("rbs_namespace");
    reveal_strlit("rbs_type_name");
    reveal_strlit("rbs_types_block");
    reveal_strlit("rbs_node_list");
    reveal_strlit("rbs_hash");
    reveal_strlit("rbs_location");
    reveal_strlit("rbs_location_list");
    let id = "rbs_constant_id"@;
    assert(id.len() == 15);
    assert(id[4] == 'c');
    assert("rbs_ast_comment"@[4] == 'a');
    assert("rbs_types_block"@[4] == 't');
    assert(!names_node_type(id));
}

/// A validated schema.
pub struct Schema {
    kinds: Vec<NodeKindDescriptor>,
}

impl View for Schema {
    type V = Seq<KindShape>;

    closed spec fn view(&self) -> Seq<KindShape> {
        self.kinds@.map_values(|d: NodeKindDescriptor| d@)
    }
}

fn describe_field(field: &NodeField) -> (r: Option<FieldDescriptor>)
    ensures
        r is Some <==> classify(field@.c_type, field@.optional) is Some,
        r is Some ==> r->0@ == field@.shape(),
{
    match field_kind(field.c_type.as_str(), field.optional) {
        Some(kind) => Some(
            FieldDescriptor {
                accessor_name: String::from_str(escape(field.name.as_str())),
                kind,
                optional: field.optional,
                foreign_field_name: String::from_str(field.c_name()),
            },
        ),
        None => None,
    }
}

fn describe_fields(decl: &NodeDecl) -> (r: Result<Vec<FieldDescriptor>, usize>)
    ensures
        match r {
            Ok(fields) => fields_known(decl@) && fields@.map_values(|f: FieldDescriptor| f@)
                == decl@.shape().fields,
            Err(field) => {
                &&& field < decl@.fields.len()
                &&& !field_known(decl@, field as int)
                &&& forall|g: int| 0 <= g < field ==> field_known(decl@, g)
            },
        },
{
    let mut out: Vec<FieldDescriptor> = Vec::new();
    match &decl.fields {
        None => {
            assert(out@.map_values(|f: FieldDescriptor| f@) == decl@.shape().fields);
        },
        Some(fields) => {
            let mut f: usize = 0;
            while f < fields.len()
                invariant
                    f <= fields@.len(),
                    decl.fields == Some(*fields),
                    out@.len() == f,
                    forall|g: int| 0 <= g < f ==> field_known(decl@, g),
                    forall|g: int| 0 <= g < f ==> (#[trigger] out@[g])@ == decl@.fields[g].shape(),
                decreases fields@.len() - f,
            {
                assert(decl@.fields[f as int] == fields@[f as int]@);
                match describe_field(&fields[f]) {
                    Some(d) => {
                        out.push(d);
                    },
                    None => {
                        return Err(f);
                    },
                }
                f = f + 1;
            }
            assert(out@.map_values(|f: FieldDescriptor| f@) == decl@.shape().fields);
        },
    }
    Ok(out)
}

fn find_tag(kinds: &Vec<NodeKindDescriptor>, tag: &str) -> (r: Option<usize>)
    ensures
        match r {
            Some(k) => {
                &&& k < kinds@.len()
                &&& kinds@[k as int]@.tag_name == tag@
                &&& forall|w: int| 0 <= w < k ==> (#[trigger] kinds@[w])@.tag_name != tag@
            },
            None => forall|w: int| 0 <= w < kinds@.len() ==> (#[trigger] kinds@[w])@.tag_name != tag@,
        },
{
    let mut k: usize = 0;
    while k < kinds.len()
        invariant
            k <= kinds@.len(),
            forall|w: int| 0 <= w < k ==> (#[trigger] kinds@[w])@.tag_name != tag@,
        decreases kinds@.len() - k,
    {
        if kinds[k].tag_name.as_str().eq(tag) {
            return Some(k);
        }
        k = k + 1;
    }
    None
}

fn describe(decl: &NodeDecl, kinds: &Vec<NodeKindDescriptor>, Ghost(decls): Ghost<Seq<DeclModel>>) -> (r:
    Result<NodeKindDescriptor, SchemaError>)
    requires
        kinds@.len() < decls.len(),
        decls[kinds@.len() as int] == decl@,
        forall|k: int| 0 <= k < kinds@.len() ==> (#[trigger] kinds@[k])@ == decls[k].shape(),
    ensures
        match r {
            Ok(d) => decl_ok(decls, kinds@.len() as int) && d@ == decl@.shape(),
            Err(e) => e.node() == kinds@.len() && fault_at(decls, e),
        },
{
    let node = kinds.len();
    let variant = decl.variant_name();
    if decl.name.as_str().unicode_len() == 0 || variant.unicode_len() == 0 {
        return Err(SchemaError::EmptyName { node });
    }
    let fields = match describe_fields(decl) {
        Ok(fields) => fields,
        Err(field) => {
            return Err(SchemaError::UnknownFieldKind { node, field });
        },
    };
    let tag_name = convert_name(decl.name.as_str(), CIdentifier::Constant);
    match find_tag(kinds, tag_name.as_str()) {
        Some(with) => {
            assert(kinds@[with as int]@.tag_name == tag_of(decls[with as int]));
            assert forall|w: int| 0 <= w < with implies tag_of(#[trigger] decls[w]) != tag_of(
                decls[node as int],
            ) by {
                assert(kinds@[w]@.tag_name == tag_of(decls[w]));
            }
            return Err(SchemaError::NameCollision { node, with });
        },
        None => {},
    }
    assert(tag_is_new(decls, node as int)) by {
        assert forall|w: int| 0 <= w < node implies tag_of(#[trigger] decls[w]) != tag_of(
            decls[node as int],
        ) by {
            assert(kinds@[w]@.tag_name == tag_of(decls[w]));
        }
    }
    Ok(
        NodeKindDescriptor {
            kind_name: decl.name.clone(),
            variant_name: String::from_str(variant),
            struct_name: convert_name(decl.name.as_str(), CIdentifier::Type),
            tag_name,
            method_name: convert_name(variant, CIdentifier::Method),
            fields,
        },
    )
}

fn interned_kind(name: &str, rust_name: &str) -> (decl: NodeDecl)
    ensures
        decl@ == interned_decl(name@, rust_name@),
{
    let mut fields: Vec<NodeField> = Vec::new();
    fields.push(
        NodeField {
            name: String::from_str("name"),
            c_type: String::from_str("rbs_constant_id"),
            c_name: Some(String::from_str("constant_id")),
            optional: false,
        },
    );
    let decl = NodeDecl {
        name: String::from_str(name),
        rust_name: String::from_str(rust_name),
        fields: Some(fields),
    };
    assert(decl@.fields == interned_decl(name@, rust_name@).fields);
    decl
}

impl Schema {
    #[verifier::type_invariant]
    spec fn inv(self) -> bool {
        kinds_ok(self@)
    }

    /// Validates a configuration and describes its kinds.
    ///
    /// The kinds are the configuration's declarations in order, followed
    /// by the keyword kind and the symbol kind. The configuration is
    /// rejected with the first fault found in that order.
    pub fn from_config(config: &Config) -> (r: Result<Schema, SchemaError>)
        ensures
            match r {
                Ok(schema) => {
                    &&& forall|i: int|
                        0 <= i < declarations(config@).len() ==> decl_ok(declarations(config@), i)
                    &&& schema@ == declarations(config@).map_values(|d: DeclModel| d.shape())
                    &&& kinds_ok(schema@)
                },
                Err(e) => first_fault(declarations(config@), e),
            },
    {
        let ghost decls = declarations(config@);
        let mut kinds: Vec<NodeKindDescriptor> = Vec::new();
        let mut i: usize = 0;
        while i < config.nodes.len()
            invariant
                i <= config.nodes@.len(),
                decls == declarations(config@),
                kinds@.len() == i,
                forall|k: int| 0 <= k < i ==> (#[trigger] kinds@[k])@ == decls[k].shape(),
                forall|k: int| 0 <= k < i ==> decl_ok(decls, k),
            decreases config.nodes@.len() - i,
        {
            assert(decls[i as int] == config.nodes@[i as int]@);
            match describe(&config.nodes[i], &kinds, Ghost(decls)) {
                Ok(d) => {
                    kinds.push(d);
                },
                Err(e) => {
                    return Err(e);
                },
            }
            i = i + 1;
        }
        let keyword = interned_kind("RBS::Keyword", "KeywordNode");
        match describe(&keyword, &kinds, Ghost(decls)) {
            Ok(d) => {
                kinds.push(d);
            },
            Err(e) => {
                return Err(e);
            },
        }
        let symbol = interned_kind("RBS::AST::Symbol", "SymbolNode");
        match describe(&symbol, &kinds, Ghost(decls)) {
            Ok(d) => {
                kinds.push(d);
            },
            Err(e) => {
                return Err(e);
            },
        }
        let ghost shapes = kinds@.map_values(|d: NodeKindDescriptor| d@);
        assert(shapes == decls.map_values(|d: DeclModel| d.shape()));
        assert(kinds_ok(shapes)) by {
            assert forall|a: int, b: int| 0 <= a < b < shapes.len() implies (#[trigger] shapes[a]).tag_name
                != (#[trigger] shapes[b]).tag_name by {
                assert(decl_ok(decls, b));
                assert(tag_of(decls[a]) != tag_of(decls[b]));
            }
            assert forall|k: int| 0 <= k < shapes.len() implies (#[trigger] shapes[k]).kind_name.len()
                > 0 && shapes[k].variant_name.len() > 0 by {
                assert(decl_ok(decls, k));
            }
            assert(shapes[shapes.len() - 2] == decls[decls.len() - 2].shape());
            assert(shapes[shapes.len() - 1] == decls[decls.len() - 1].shape());
        }
        Ok(Schema { kinds })
    }

    /// Calls to mind what holds of the kinds of every schema.
    pub(crate) fn witness(&self)
        ensures
            kinds_ok(self@),
    {
        proof {
            use_type_invariant(self);
        }
    }

    /// The index of the kind that stands for interned keywords.
    pub fn keyword_kind(&self) -> (k: usize)
        ensures
            k == self@.len() - 2,
            self@[k as int] == keyword_decl().shape(),
    {
        proof {
            use_type_invariant(self);
        }
        self.kinds.len() - 2
    }

    /// The index of the kind that stands for interned symbols.
    pub fn symbol_kind(&self) -> (k: usize)
        ensures
            k == self@.len() - 1,
            self@[k as int] == symbol_decl().shape(),
    {
        proof {
            use_type_invariant(self);
        }
        self.kinds.len() - 1
    }

    /// The number of kinds.
    pub fn len(&self) -> (n: usize)
        ensures
            n == self@.len(),
    {
        self.kinds.len()
    }

    /// The descriptor of the kind at `k`, if there is one.
    pub fn kind(&self, k: usize) -> (r: Option<&NodeKindDescriptor>)
        ensures
            r is Some <==> k < self@.len(),
            r is Some ==> r->0@ == self@[k as int],
    {
        if k < self.kinds.len() {
            Some(&self.kinds[k])
        } else {
            None
        }
    }

    /// Finds the kind whose tag name is `tag`.
    ///
    /// No two kinds share a tag name, so the index found is the only one.
    pub fn kind_of_tag(&self, tag: &str) -> (r: Option<usize>)
        ensures
            kinds_ok(self@),
            match r {
                Some(k) => k < self@.len() && self@[k as int].tag_name == tag@,
                None => forall|k: int| 0 <= k < self@.len() ==> (#[trigger] self@[k]).tag_name != tag@,
            },
    {
        proof {
            use_type_invariant(self);
        }
        let r = find_tag(&self.kinds, tag);
        assert forall|k: int| 0 <= k < self@.len() implies (#[trigger] self@[k]).tag_name
            == self.kinds@[k]@.tag_name by {}
        r
    }
}

} // verus!
