use rcgenmsg::mapping::{
    builtin_rules, find_rule, import_reference, map_element, type_mapping, TypeTransformRule,
};

fn mapped(token: &str) -> String {
    match type_mapping(token) {
        Ok(t) => t,
        Err(e) => panic!("{} was refused: {:?}", token, e),
    }
}

fn refused(token: &str) {
    match type_mapping(token) {
        Ok(t) => panic!("{} was mapped to {}", token, t),
        Err(e) => {
            assert_eq!(e.token, token);
            assert_eq!(e.name, "");
        }
    }
}

#[test]
fn maps_bool() {
    assert_eq!(mapped("bool"), "Bool");
}

#[test]
fn maps_signed_integers() {
    assert_eq!(mapped("int8"), "Int8");
    assert_eq!(mapped("int16"), "Int16");
    assert_eq!(mapped("int32"), "Int32");
    assert_eq!(mapped("int64"), "Int64");
}

#[test]
fn maps_unsigned_integers() {
    assert_eq!(mapped("uint8"), "UInt8");
    assert_eq!(mapped("uint16"), "UInt16");
    assert_eq!(mapped("uint32"), "UInt32");
    assert_eq!(mapped("uint64"), "UInt64");
}

#[test]
fn maps_floats() {
    assert_eq!(mapped("float32"), "Float32");
    assert_eq!(mapped("float64"), "Float64");
}

#[test]
fn maps_string_to_text() {
    assert_eq!(mapped("string"), "Text");
}

#[test]
fn maps_well_known_references() {
    assert_eq!(mapped("time"), "import \"/Time.capnp\".Time");
    assert_eq!(mapped("duration"), "import \"/Duration.capnp\".Time");
    assert_eq!(mapped("Header"), "import \"/std_msgs/Header.capnp\".Header");
}

#[test]
fn maps_package_reference() {
    assert_eq!(
        mapped("geometry_msgs/Vector3"),
        "import \"/geometry_msgs/Vector3.capnp\".Vector3"
    );
}

#[test]
fn array_becomes_list() {
    assert_eq!(mapped("int32[]"), "List(Int32)");
    assert_eq!(mapped("int32"), "Int32");
}

#[test]
fn array_of_text_and_references() {
    assert_eq!(mapped("string[]"), "List(Text)");
    assert_eq!(mapped("time[]"), "List(import \"/Time.capnp\".Time)");
    assert_eq!(
        mapped("geometry_msgs/Point[]"),
        "List(import \"/geometry_msgs/Point.capnp\".Point)"
    );
}

#[test]
fn lookup_is_case_sensitive() {
    refused("Int32");
    refused("BOOL");
    refused("header");
}

#[test]
fn unknown_type_without_slash_is_refused() {
    refused("foo");
    refused("");
    refused("int");
}

#[test]
fn reference_needs_exactly_one_slash() {
    refused("a/b/c");
    refused("/Vector3");
    refused("geometry_msgs/");
    refused("/");
    refused("a//b");
}

#[test]
fn only_empty_brackets_make_an_array() {
    refused("int32]]");
    refused("int32[5]");
    refused("int32[");
    refused("[]");
    refused("int32[][]");
}

#[test]
fn array_of_unknown_type_is_refused_with_whole_token() {
    refused("foo[]");
    refused("a/b/c[]");
}

#[test]
fn array_element_may_hold_a_line_feed() {
    refused("a\nb[]");
    assert_eq!(mapped("a\n/b[]"), "List(import \"/a\n/b.capnp\".b)");
}

#[test]
fn brackets_must_end_the_token() {
    assert_eq!(mapped("x/y[]\n"), "import \"/x/y[]\n.capnp\".y[]\n");
    assert_eq!(mapped("x/y[] "), "import \"/x/y[] .capnp\".y[] ");
    assert_eq!(mapped("[]x/y"), "import \"/[]x/y.capnp\".y");
}

#[test]
fn array_element_is_all_before_the_last_brackets() {
    assert_eq!(mapped("é/ü[]"), "List(import \"/é/ü.capnp\".ü)");
    assert_eq!(mapped("a/[][]"), "List(import \"/a/[].capnp\".[])");
    assert_eq!(mapped("\n/\n[]"), "List(import \"/\n/\n.capnp\".\n)");
}

#[test]
fn table_has_fifteen_rows_in_order() {
    let rules = builtin_rules();
    assert_eq!(rules.len(), 15);
    assert_eq!(rules[0].from, "bool");
    assert_eq!(rules[0].to, "Bool");
    assert_eq!(rules[11].from, "string");
    assert_eq!(rules[14].from, "Header");
}

#[test]
fn first_matching_rule_decides() {
    let rules = vec![
        TypeTransformRule { from: "a".to_string(), to: "first".to_string() },
        TypeTransformRule { from: "b".to_string(), to: "other".to_string() },
        TypeTransformRule { from: "a".to_string(), to: "second".to_string() },
    ];
    assert_eq!(find_rule(&rules, &"a".to_string()), Some("first".to_string()));
    assert_eq!(find_rule(&rules, &"b".to_string()), Some("other".to_string()));
    assert_eq!(find_rule(&rules, &"c".to_string()), None);
    assert_eq!(find_rule(&Vec::new(), &"a".to_string()), None);
}

#[test]
fn import_reference_names_file_and_type() {
    assert_eq!(
        import_reference(&"pkg/Type".to_string()),
        Some("import \"/pkg/Type.capnp\".Type".to_string())
    );
    assert_eq!(import_reference(&"pkg".to_string()), None);
    assert_eq!(import_reference(&"int32".to_string()), None);
}

#[test]
fn element_prefers_the_table() {
    assert_eq!(map_element(&"Header".to_string()), Some("import \"/std_msgs/Header.capnp\".Header".to_string()));
    assert_eq!(map_element(&"x/Header".to_string()), Some("import \"/x/Header.capnp\".Header".to_string()));
    assert_eq!(map_element(&"int32[]".to_string()), None);
}
