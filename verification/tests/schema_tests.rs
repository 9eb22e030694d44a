use jsonsd::{analyze, print_object_types, to_ident, to_struct_ident, union_type_string};
use jsonsd::{value_to_type, UnionType, Value};

fn obj(fields: Vec<(&str, Value)>) -> Value {
    Value::Object(fields.into_iter().map(|(k, v)| (k.to_string(), v)).collect())
}

#[test]
fn primitive_null_sets_only_null() {
    let t = value_to_type(&Value::Null);
    assert!(t.is_null);
    assert!(!t.is_bool);
    assert!(!t.is_number);
    assert!(!t.is_string);
    assert!(t.object_type.0.is_empty());
    assert!(t.array_type.is_none());
}

#[test]
fn primitive_bool_sets_only_bool() {
    let t = value_to_type(&Value::Bool);
    assert!(!t.is_null);
    assert!(t.is_bool);
    assert!(!t.is_number);
    assert!(!t.is_string);
    assert!(t.object_type.0.is_empty());
    assert!(t.array_type.is_none());
}

#[test]
fn primitive_number_sets_only_number() {
    let t = value_to_type(&Value::Number);
    assert!(!t.is_null);
    assert!(!t.is_bool);
    assert!(t.is_number);
    assert!(!t.is_string);
    assert!(t.object_type.0.is_empty());
    assert!(t.array_type.is_none());
}

#[test]
fn primitive_string_sets_only_string() {
    let t = value_to_type(&Value::String);
    assert!(!t.is_null);
    assert!(!t.is_bool);
    assert!(!t.is_number);
    assert!(t.is_string);
    assert!(t.object_type.0.is_empty());
    assert!(t.array_type.is_none());
}

#[test]
fn merge_with_copy_of_itself_changes_nothing() {
    let sample = obj(vec![
        ("x", Value::String),
        ("y", Value::Array(vec![Value::Number, Value::Null])),
    ]);
    let before = analyze(&sample);
    let mut t = value_to_type(&sample);
    let copy = value_to_type(&sample);
    t.merge(copy);
    let after = print_object_types("root", &t);
    assert_eq!(before, after);
}

#[test]
fn merge_commutes_for_types_with_the_same_fields() {
    let a_val = obj(vec![("x", Value::Number), ("y", Value::String)]);
    let b_val = obj(vec![("x", Value::Null), ("y", Value::Number)]);
    let mut ab = value_to_type(&a_val);
    ab.merge(value_to_type(&b_val));
    let mut ba = value_to_type(&b_val);
    ba.merge(value_to_type(&a_val));
    assert_eq!(
        print_object_types("root", &ab),
        print_object_types("root", &ba)
    );
}

#[test]
fn absent_field_becomes_optional() {
    let mut t = value_to_type(&obj(vec![("x", Value::String)]));
    t.merge(value_to_type(&obj(vec![])));
    let decls = print_object_types("root", &t);
    assert_eq!(decls.len(), 1);
    assert_eq!(
        decls[0],
        "#[derive(Debug, Serialize, Deserialize)]\nstruct root {\n  #[serde(rename = \"x\")]\n  x: Option<String>,\n}\n"
    );
}

#[test]
fn nested_object_names_child_after_path() {
    let decls = analyze(&obj(vec![("a", obj(vec![("b", Value::Number)]))]));
    assert_eq!(decls.len(), 2);
    assert_eq!(
        decls[0],
        "#[derive(Debug, Serialize, Deserialize)]\nstruct root {\n  #[serde(rename = \"a\")]\n  a: root__a,\n}\n"
    );
    assert_eq!(
        decls[1],
        "#[derive(Debug, Serialize, Deserialize)]\nstruct root__a {\n  #[serde(rename = \"b\")]\n  b: f64,\n}\n"
    );
}

#[test]
fn heterogeneous_array_elements_merge_with_optional_fields() {
    let decls = analyze(&obj(vec![(
        "items",
        Value::Array(vec![
            obj(vec![("name", Value::String), ("price", Value::Number)]),
            obj(vec![("name", Value::String)]),
        ]),
    )]));
    assert_eq!(decls.len(), 2);
    assert_eq!(
        decls[0],
        "#[derive(Debug, Serialize, Deserialize)]\nstruct root {\n  #[serde(rename = \"items\")]\n  items: Vec<root__items>,\n}\n"
    );
    assert_eq!(
        decls[1],
        "#[derive(Debug, Serialize, Deserialize)]\nstruct root__items {\n  #[serde(rename = \"name\")]\n  name: String,\n  #[serde(rename = \"price\")]\n  price: Option<f64>,\n}\n"
    );
}

#[test]
fn number_and_string_siblings_form_a_union() {
    let decls = analyze(&obj(vec![(
        "data",
        Value::Array(vec![
            obj(vec![("name", Value::String), ("price", Value::Number)]),
            obj(vec![("name", Value::String), ("price", Value::String)]),
        ]),
    )]));
    assert_eq!(decls.len(), 2);
    assert_eq!(
        decls[1],
        "#[derive(Debug, Serialize, Deserialize)]\nstruct root__data {\n  #[serde(rename = \"name\")]\n  name: String,\n  #[serde(rename = \"price\")]\n  price: f64 | String,\n}\n"
    );
}

#[test]
fn empty_array_renders_as_sequence_of_empty_union() {
    let decls = analyze(&obj(vec![("list", Value::Array(vec![]))]));
    assert_eq!(decls.len(), 1);
    assert_eq!(
        decls[0],
        "#[derive(Debug, Serialize, Deserialize)]\nstruct root {\n  #[serde(rename = \"list\")]\n  list: Vec<>,\n}\n"
    );
}

#[test]
fn bare_number_yields_no_declarations() {
    assert!(analyze(&Value::Number).is_empty());
}

#[test]
fn bare_string_yields_no_declarations() {
    assert!(analyze(&Value::String).is_empty());
}

#[test]
fn bare_array_of_primitives_yields_no_declarations() {
    assert!(analyze(&Value::Array(vec![Value::Number, Value::String])).is_empty());
}

#[test]
fn object_fields_are_rendered_in_key_order() {
    let decls = analyze(&obj(vec![("b", Value::Number), ("a", Value::String)]));
    assert_eq!(decls.len(), 1);
    assert_eq!(
        decls[0],
        "#[derive(Debug, Serialize, Deserialize)]\nstruct root {\n  #[serde(rename = \"a\")]\n  a: String,\n  #[serde(rename = \"b\")]\n  b: f64,\n}\n"
    );
}

#[test]
fn ident_replaces_separators_with_underscores() {
    assert_eq!(to_ident("foo-bar"), "foo_bar");
    assert_eq!(to_ident("a/b.c"), "a_b_c");
    assert_eq!(to_ident("--x"), "__x");
}

#[test]
fn ident_splits_words_at_case_changes() {
    assert_eq!(to_ident("fooBar"), "foo_bar");
    assert_eq!(to_ident("FooBar"), "foo_bar");
    assert_eq!(to_ident("FOO"), "foo");
    assert_eq!(to_ident("a1B"), "a1_b");
    assert_eq!(to_ident("ABColor"), "abcolor");
}

#[test]
fn ident_of_empty_name_is_empty() {
    assert_eq!(to_ident(""), "");
}

#[test]
fn struct_ident_joins_parent_and_child() {
    assert_eq!(to_struct_ident("root", "data"), "root__data");
}

#[test]
fn union_type_string_lists_alternatives_in_fixed_order() {
    let mut t = UnionType::default();
    t.is_bool = true;
    t.is_number = true;
    t.is_string = true;
    assert_eq!(union_type_string("p", &t), "bool | f64 | String");
}

#[test]
fn union_type_string_wraps_nullable_in_option() {
    let mut t = UnionType::default();
    t.is_null = true;
    t.is_number = true;
    assert_eq!(union_type_string("p", &t), "Option<f64>");
}

#[test]
fn union_type_string_of_nothing_observed_is_empty() {
    let t = UnionType::default();
    assert_eq!(union_type_string("p", &t), "");
}

#[test]
fn constructors_set_exactly_one_flag() {
    assert!(UnionType::null().is_null);
    assert!(UnionType::bool().is_bool);
    assert!(UnionType::number().is_number);
    assert!(UnionType::string().is_string);
    assert!(!UnionType::null().is_string);
}

#[test]
fn sanitized_field_name_keeps_original_in_annotation() {
    let decls = analyze(&obj(vec![("created-at", Value::String)]));
    assert_eq!(decls.len(), 1);
    assert_eq!(
        decls[0],
        "#[derive(Debug, Serialize, Deserialize)]\nstruct root {\n  #[serde(rename = \"created-at\")]\n  created_at: String,\n}\n"
    );
}

#[test]
fn array_element_objects_share_the_container_identifier() {
    let decls = analyze(&Value::Array(vec![obj(vec![("k", Value::Bool)])]));
    assert_eq!(decls.len(), 1);
    assert_eq!(
        decls[0],
        "#[derive(Debug, Serialize, Deserialize)]\nstruct root {\n  #[serde(rename = \"k\")]\n  k: bool,\n}\n"
    );
}

#[test]
fn duplicate_keys_keep_the_last_value() {
    let decls = analyze(&obj(vec![("k", Value::Number), ("k", Value::String)]));
    assert_eq!(decls.len(), 1);
    assert_eq!(
        decls[0],
        "#[derive(Debug, Serialize, Deserialize)]\nstruct root {\n  #[serde(rename = \"k\")]\n  k: String,\n}\n"
    );
}

#[test]
fn nested_arrays_render_nested_sequences() {
    let decls = analyze(&obj(vec![(
        "a",
        Value::Array(vec![Value::Array(vec![Value::Number])]),
    )]));
    assert_eq!(decls.len(), 1);
    assert_eq!(
        decls[0],
        "#[derive(Debug, Serialize, Deserialize)]\nstruct root {\n  #[serde(rename = \"a\")]\n  a: Vec<Vec<f64>>,\n}\n"
    );
}

#[test]
fn deeply_nested_objects_chain_identifiers() {
    let decls = analyze(&obj(vec![(
        "a",
        obj(vec![("b", obj(vec![("c", Value::Bool)]))]),
    )]));
    assert_eq!(decls.len(), 3);
    assert_eq!(
        decls[2],
        "#[derive(Debug, Serialize, Deserialize)]\nstruct root__a__b {\n  #[serde(rename = \"c\")]\n  c: bool,\n}\n"
    );
}
