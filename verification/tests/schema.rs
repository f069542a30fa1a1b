use ruby_rbs::names::{convert_name, CIdentifier};
use ruby_rbs::schema::{field_kind, Config, FieldKind, NodeDecl, NodeField, Schema, SchemaError};

fn field(name: &str, c_type: &str) -> NodeField {
    NodeField { name: name.to_string(), c_type: c_type.to_string(), c_name: None, optional: false }
}

fn decl(name: &str, rust_name: &str, fields: Option<Vec<NodeField>>) -> NodeDecl {
    NodeDecl { name: name.to_string(), rust_name: rust_name.to_string(), fields }
}

fn compiled(nodes: Vec<NodeDecl>) -> Result<Schema, SchemaError> {
    Schema::from_config(&Config { nodes })
}

#[test]
fn every_schema_ends_with_the_keyword_and_symbol_kinds() {
    let schema = compiled(vec![]).unwrap();
    assert_eq!(schema.len(), 2);
    assert_eq!(schema.keyword_kind(), 0);
    assert_eq!(schema.symbol_kind(), 1);

    let keyword = schema.kind(0).unwrap();
    assert_eq!(keyword.kind_name, "RBS::Keyword");
    assert_eq!(keyword.variant_name, "Keyword");
    assert_eq!(keyword.struct_name, "rbs_keyword_t");
    assert_eq!(keyword.tag_name, "RBS_KEYWORD");
    assert_eq!(keyword.method_name, "keyword");
    assert_eq!(keyword.fields.len(), 1);
    assert_eq!(keyword.fields[0].accessor_name, "name");
    assert_eq!(keyword.fields[0].kind, FieldKind::InternedRef);
    assert_eq!(keyword.fields[0].foreign_field_name, "constant_id");
    assert!(!keyword.fields[0].optional);

    let symbol = schema.kind(1).unwrap();
    assert_eq!(symbol.kind_name, "RBS::AST::Symbol");
    assert_eq!(symbol.variant_name, "Symbol");
    assert_eq!(symbol.struct_name, "rbs_ast_symbol_t");
    assert_eq!(symbol.tag_name, "RBS_AST_SYMBOL");
    assert_eq!(symbol.method_name, "symbol");
    assert_eq!(symbol.fields[0].kind, FieldKind::InternedRef);
    assert!(schema.kind(2).is_none());
}

#[test]
fn kinds_keep_the_declared_order_and_get_their_names() {
    let schema = compiled(vec![
        decl("RBS::Types::ClassInstance", "ClassInstanceTypeNode", Some(vec![field("name", "rbs_type_name")])),
        decl("RBS::AST::Bool", "BoolNode", None),
    ])
    .unwrap();
    assert_eq!(schema.len(), 4);
    let first = schema.kind(0).unwrap();
    assert_eq!(first.kind_name, "RBS::Types::ClassInstance");
    assert_eq!(first.variant_name, "ClassInstanceType");
    assert_eq!(first.struct_name, "rbs_types_class_instance_t");
    assert_eq!(first.tag_name, "RBS_TYPES_CLASS_INSTANCE");
    assert_eq!(first.method_name, "class_instance_type");
    assert_eq!(first.struct_name, convert_name(&first.kind_name, CIdentifier::Type));
    let second = schema.kind(1).unwrap();
    assert_eq!(second.kind_name, "RBS::AST::Bool");
    assert!(second.fields.is_empty());
    assert_eq!(schema.keyword_kind(), 2);
    assert_eq!(schema.symbol_kind(), 3);

    assert_eq!(schema.kind_of_tag("RBS_TYPES_CLASS_INSTANCE"), Some(0));
    assert_eq!(schema.kind_of_tag("RBS_AST_BOOL"), Some(1));
    assert_eq!(schema.kind_of_tag("RBS_KEYWORD"), Some(2));
    assert_eq!(schema.kind_of_tag("RBS_AST_SYMBOL"), Some(3));
    assert_eq!(schema.kind_of_tag("rbs_ast_bool"), None);
    assert_eq!(schema.kind_of_tag(""), None);
}

#[test]
fn fields_are_described_in_order() {
    let schema = compiled(vec![decl(
        "RBS::AST::Everything",
        "EverythingNode",
        Some(vec![
            field("text", "rbs_string"),
            field("flag", "bool"),
            field("type", "rbs_node"),
            NodeField {
                name: "given".to_string(),
                c_type: "rbs_node".to_string(),
                c_name: Some("type".to_string()),
                optional: true,
            },
            field("items", "rbs_node_list"),
            field("entries", "rbs_hash"),
            field("range", "rbs_location"),
            NodeField {
                name: "commas".to_string(),
                c_type: "rbs_location_list".to_string(),
                c_name: Some("comma_locs".to_string()),
                optional: true,
            },
            field("id", "rbs_constant_id"),
        ]),
    )])
    .unwrap();
    let fields = &schema.kind(0).unwrap().fields;
    let kinds: Vec<FieldKind> = fields.iter().map(|f| f.kind).collect();
    assert_eq!(
        kinds,
        vec![
            FieldKind::Text,
            FieldKind::Bool,
            FieldKind::NestedRequired,
            FieldKind::NestedOptional,
            FieldKind::NodeList,
            FieldKind::NodeMap,
            FieldKind::SubRange,
            FieldKind::SubRangeList,
            FieldKind::InternedRef,
        ]
    );
    let accessors: Vec<&str> = fields.iter().map(|f| f.accessor_name.as_str()).collect();
    assert_eq!(accessors, vec!["text", "flag", "type_", "given", "items", "entries", "range", "commas", "id"]);
    let foreign: Vec<&str> = fields.iter().map(|f| f.foreign_field_name.as_str()).collect();
    assert_eq!(foreign, vec!["text", "flag", "type_", "type_", "items", "entries", "range", "comma_locs", "id"]);
    let optional: Vec<bool> = fields.iter().map(|f| f.optional).collect();
    assert_eq!(optional, vec![false, false, false, true, false, false, false, true, false]);
    let traversable: Vec<bool> = fields.iter().map(|f| f.kind.is_traversable()).collect();
    assert_eq!(traversable, vec![false, false, true, true, true, true, false, false, false]);
}

#[test]
fn underlying_types_stand_for_field_kinds() {
    assert_eq!(field_kind("rbs_string", false), Some(FieldKind::Text));
    assert_eq!(field_kind("rbs_string", true), Some(FieldKind::Text));
    assert_eq!(field_kind("bool", false), Some(FieldKind::Bool));
    for node_type in [
        "rbs_node",
        "rbs_ast_comment",
        "rbs_ast_declarations_class_super",
        "rbs_ast_symbol",
        "rbs_keyword",
        "rbs_namespace",
        "rbs_type_name",
        "rbs_types_block",
    ] {
        assert_eq!(field_kind(node_type, false), Some(FieldKind::NestedRequired));
        assert_eq!(field_kind(node_type, true), Some(FieldKind::NestedOptional));
    }
    assert_eq!(field_kind("rbs_node_list", false), Some(FieldKind::NodeList));
    assert_eq!(field_kind("rbs_hash", true), Some(FieldKind::NodeMap));
    assert_eq!(field_kind("rbs_location", true), Some(FieldKind::SubRange));
    assert_eq!(field_kind("rbs_location_list", false), Some(FieldKind::SubRangeList));
    assert_eq!(field_kind("rbs_constant_id", false), Some(FieldKind::InternedRef));
    assert_eq!(field_kind("rbs_unknown", false), None);
    assert_eq!(field_kind("", false), None);
    assert_eq!(field_kind("RBS_NODE", false), None);
}

#[test]
fn foreign_name_defaults_to_the_accessor_name() {
    let plain = field("name", "rbs_node");
    assert_eq!(plain.c_name(), "name");
    let renamed = NodeField {
        name: "name".to_string(),
        c_type: "rbs_node".to_string(),
        c_name: Some("other".to_string()),
        optional: false,
    };
    assert_eq!(renamed.c_name(), "other");
    assert_eq!(field("type", "rbs_node").c_name(), "type_");
    assert_eq!(field("types", "rbs_node").c_name(), "types");
}

#[test]
fn variant_name_drops_a_final_node() {
    assert_eq!(decl("RBS::AST::Bool", "BoolNode", None).variant_name(), "Bool");
    assert_eq!(decl("RBS::AST::Bool", "Bool", None).variant_name(), "Bool");
    assert_eq!(decl("RBS::AST::Bool", "NodeList", None).variant_name(), "NodeList");
    assert_eq!(decl("RBS::AST::Bool", "Node", None).variant_name(), "");
    assert_eq!(decl("RBS::AST::Bool", "ode", None).variant_name(), "ode");
    assert_eq!(decl("RBS::AST::Bool", "NodeNode", None).variant_name(), "Node");
}

#[test]
fn an_empty_name_is_refused() {
    assert_eq!(compiled(vec![decl("", "BoolNode", None)]).err(), Some(SchemaError::EmptyName { node: 0 }));
    assert_eq!(
        compiled(vec![decl("RBS::A", "ANode", None), decl("RBS::B", "Node", None)]).err(),
        Some(SchemaError::EmptyName { node: 1 })
    );
    assert_eq!(
        compiled(vec![decl("RBS::A", "", Some(vec![field("x", "unknown")]))]).err(),
        Some(SchemaError::EmptyName { node: 0 })
    );
}

#[test]
fn an_unknown_field_kind_is_refused_with_its_place() {
    let result = compiled(vec![
        decl("RBS::A", "ANode", Some(vec![field("x", "rbs_node")])),
        decl(
            "RBS::B",
            "BNode",
            Some(vec![field("x", "rbs_node"), field("y", "rbs_nodes"), field("z", "also_unknown")]),
        ),
    ]);
    assert_eq!(result.err(), Some(SchemaError::UnknownFieldKind { node: 1, field: 1 }));
}

#[test]
fn a_tag_name_taken_twice_is_refused() {
    // Different kind names, one tag name.
    let result = compiled(vec![
        decl("RBS::FooBar", "FooBarNode", None),
        decl("RBS::Other", "OtherNode", None),
        decl("RBS::Foo::Bar", "FooBarTooNode", None),
    ]);
    assert_eq!(result.err(), Some(SchemaError::NameCollision { node: 2, with: 0 }));
    // An unknown field comes before the collision of the same declaration.
    let result = compiled(vec![
        decl("RBS::A", "ANode", None),
        decl("RBS::A", "ANode", Some(vec![field("x", "nothing")])),
    ]);
    assert_eq!(result.err(), Some(SchemaError::UnknownFieldKind { node: 1, field: 0 }));
    // The kinds that every schema ends with cannot be declared.
    let result = compiled(vec![decl("RBS::AST::Symbol", "SymbolNode", None)]);
    assert_eq!(result.err(), Some(SchemaError::NameCollision { node: 2, with: 0 }));
    let result = compiled(vec![decl("RBS::Keyword", "KeywordNode", None)]);
    assert_eq!(result.err(), Some(SchemaError::NameCollision { node: 1, with: 0 }));
}
