use ruby_rbs::names::{convert_name, CIdentifier};

#[test]
fn type_style_joins_namespaces_and_appends_suffix() {
    assert_eq!(convert_name("RBS::AST::TypeParam", CIdentifier::Type), "rbs_ast_type_param_t");
}

#[test]
fn constant_style_is_upper_case() {
    assert_eq!(convert_name("RBS::AST::TypeParam", CIdentifier::Constant), "RBS_AST_TYPE_PARAM");
}

#[test]
fn method_style_is_lower_case_without_suffix() {
    assert_eq!(convert_name("ClassInstanceType", CIdentifier::Method), "class_instance_type");
}

#[test]
fn a_run_of_capitals_has_no_boundary_inside() {
    assert_eq!(convert_name("RBS::AST::Bool", CIdentifier::Type), "rbs_ast_bool_t");
    assert_eq!(convert_name("RBSHash", CIdentifier::Method), "rbshash");
    assert_eq!(convert_name("RBSHash", CIdentifier::Constant), "RBSHASH");
}

#[test]
fn a_digit_before_a_capital_is_a_boundary() {
    assert_eq!(convert_name("Utf8String", CIdentifier::Method), "utf8_string");
    assert_eq!(convert_name("Utf8String", CIdentifier::Constant), "UTF8_STRING");
    assert_eq!(convert_name("Utf8string", CIdentifier::Method), "utf8string");
}

#[test]
fn an_underscore_is_kept_and_is_no_boundary() {
    assert_eq!(convert_name("Foo_Bar", CIdentifier::Constant), "FOO_BAR");
    assert_eq!(convert_name("foo_bar", CIdentifier::Type), "foo_bar_t");
    assert_eq!(convert_name("_", CIdentifier::Method), "_");
}

#[test]
fn separators_are_joined_from_the_left() {
    assert_eq!(convert_name("A::B", CIdentifier::Method), "a_b");
    assert_eq!(convert_name("A:::B", CIdentifier::Method), "a_:b");
    assert_eq!(convert_name("A::::B", CIdentifier::Method), "a__b");
    assert_eq!(convert_name("A:B", CIdentifier::Method), "a:b");
    assert_eq!(convert_name("::", CIdentifier::Type), "__t");
    assert_eq!(convert_name(":", CIdentifier::Constant), ":");
}

#[test]
fn members_of_nested_kinds() {
    let name = "RBS::AST::Members::MethodDefinition::Overload";
    assert_eq!(convert_name(name, CIdentifier::Type), "rbs_ast_members_method_definition_overload_t");
    assert_eq!(convert_name(name, CIdentifier::Constant), "RBS_AST_MEMBERS_METHOD_DEFINITION_OVERLOAD");
    assert_eq!(convert_name(name, CIdentifier::Method), "rbs_ast_members_method_definition_overload");
}

#[test]
fn the_conventions_differ_by_case_and_suffix_alone() {
    for name in ["RBS::AST::TypeParam", "RBS::Types::Bases::Any", "ClassInstanceType", "Utf8String", "x"] {
        let type_style = convert_name(name, CIdentifier::Type);
        let constant = convert_name(name, CIdentifier::Constant);
        let method = convert_name(name, CIdentifier::Method);
        assert_eq!(constant.to_ascii_lowercase(), method);
        assert_eq!(method.to_ascii_uppercase(), constant);
        assert_eq!(type_style, format!("{method}_t"));
        assert_eq!(type_style.strip_suffix("_t"), Some(method.as_str()));
    }
}

#[test]
fn letters_outside_ascii_are_left_alone() {
    assert_eq!(convert_name("Gr\u{f6}\u{df}e", CIdentifier::Constant), "GR\u{f6}\u{df}E");
    assert_eq!(convert_name("\u{c9}cole", CIdentifier::Method), "\u{c9}cole");
}
