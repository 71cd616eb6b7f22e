use rcgenmsg::ast::{ASTDef, ConstDef, FieldDef};
use rcgenmsg::error::CompileError;
use rcgenmsg::lower::{compile_file, lower_const, lower_field, SchemaRecord};

fn constant(typ: &str, name: &str, val: &str, comment: &str) -> ConstDef {
    ConstDef {
        typ: typ.to_string(),
        name: name.to_string(),
        val: val.to_string(),
        comment: comment.to_string(),
    }
}

fn field(typ: &str, name: &str, comment: &str) -> FieldDef {
    FieldDef { typ: typ.to_string(), name: name.to_string(), comment: comment.to_string() }
}

fn record(ast: &ASTDef) -> SchemaRecord {
    match compile_file("msg/BatteryInfo.msg", "BatteryInfo", "sensor_msgs", ast) {
        Ok(r) => r,
        Err(e) => panic!("{:?}", e),
    }
}

#[test]
fn record_carries_names_and_identifier() {
    let ast = ASTDef { consts: Vec::new(), fields: vec![field("int32", "level", "")] };
    let r = record(&ast);
    assert_eq!(r.msg_name, "BatteryInfo");
    assert_eq!(r.namespace, "sensor_msgs");
    assert_eq!(r.filename, "msg/BatteryInfo.msg");
    assert_eq!(r.id, "0xd49e83bd5ce1aec0");
}

#[test]
fn ordinals_count_from_zero_for_each_kind() {
    let ast = ASTDef {
        consts: vec![
            constant("int32", "A", "1", ""),
            constant("int32", "B", "2", ""),
            constant("int32", "C", "3", ""),
        ],
        fields: vec![
            field("bool", "w", ""),
            field("bool", "x", ""),
            field("bool", "y", ""),
            field("bool", "z", ""),
        ],
    };
    let r = record(&ast);
    let const_ids: Vec<u32> = r.consts.iter().map(|c| c.id).collect();
    let field_ids: Vec<u32> = r.fields.iter().map(|f| f.id).collect();
    assert_eq!(const_ids, vec![0, 1, 2]);
    assert_eq!(field_ids, vec![0, 1, 2, 3]);
    let names: Vec<&str> = r.fields.iter().map(|f| f.name.as_str()).collect();
    assert_eq!(names, vec!["w", "x", "y", "z"]);
}

#[test]
fn many_definitions_are_numbered_in_order() {
    let mut fields = Vec::new();
    for i in 0..300 {
        fields.push(field("uint8", &format!("f_{}", i), ""));
    }
    let ast = ASTDef { consts: vec![constant("bool", "ONLY", "1", "")], fields };
    let r = record(&ast);
    assert_eq!(r.fields.len(), 300);
    for (i, f) in r.fields.iter().enumerate() {
        assert_eq!(f.id as usize, i);
        assert_eq!(f.name, format!("f{}", i));
    }
    assert_eq!(r.consts[0].id, 0);
}

#[test]
fn snake_case_becomes_camel_case() {
    let ast = ASTDef {
        consts: vec![constant("uint8", "POWER_SUPPLY_STATUS", "1", "")],
        fields: vec![field("float32", "battery_level", ""), field("bool", "fooBar", "")],
    };
    let r = record(&ast);
    assert_eq!(r.fields[0].name, "batteryLevel");
    assert_eq!(r.fields[1].name, "fooBar");
    assert_eq!(r.consts[0].name, "powerSupplyStatus");
}

#[test]
fn types_are_mapped() {
    let ast = ASTDef {
        consts: vec![constant("string", "S", "\"x\"", "")],
        fields: vec![
            field("int32[]", "a", ""),
            field("Header", "h", ""),
            field("geometry_msgs/Vector3", "v", ""),
        ],
    };
    let r = record(&ast);
    assert_eq!(r.consts[0].typ, "Text");
    assert_eq!(r.fields[0].typ, "List(Int32)");
    assert_eq!(r.fields[1].typ, "import \"/std_msgs/Header.capnp\".Header");
    assert_eq!(r.fields[2].typ, "import \"/geometry_msgs/Vector3.capnp\".Vector3");
}

#[test]
fn value_and_comment_are_kept() {
    let ast = ASTDef {
        consts: vec![constant("float64", "PI", "3.14", "ratio  of #circle")],
        fields: vec![field("time", "stamp", " Spaces stay "), field("time", "other", "")],
    };
    let r = record(&ast);
    assert_eq!(r.consts[0].val, "3.14");
    assert_eq!(r.consts[0].comment, "ratio  of #circle");
    assert_eq!(r.fields[0].comment, " Spaces stay ");
    assert_eq!(r.fields[1].comment, "");
}

#[test]
fn unmapped_type_names_token_and_definition() {
    let ast = ASTDef {
        consts: Vec::new(),
        fields: vec![field("int32", "ok", ""), field("mystery[]", "the_field", "")],
    };
    match compile_file("f.msg", "F", "", &ast) {
        Err(CompileError::Mapping(e)) => {
            assert_eq!(e.token, "mystery[]");
            assert_eq!(e.name, "the_field");
        }
        other => panic!("{:?}", other),
    }
}

#[test]
fn constants_are_lowered_before_fields() {
    let ast = ASTDef {
        consts: vec![constant("int32", "GOOD", "1", ""), constant("bad1", "C", "1", "")],
        fields: vec![field("bad2", "f", "")],
    };
    match compile_file("f.msg", "F", "", &ast) {
        Err(CompileError::Mapping(e)) => {
            assert_eq!(e.token, "bad1");
            assert_eq!(e.name, "C");
        }
        other => panic!("{:?}", other),
    }
}

#[test]
fn empty_message_lowers_to_empty_record() {
    let ast = ASTDef { consts: Vec::new(), fields: Vec::new() };
    let r = match compile_file("x.msg", "x", "", &ast) {
        Ok(r) => r,
        Err(e) => panic!("{:?}", e),
    };
    assert!(r.consts.is_empty());
    assert!(r.fields.is_empty());
    assert_eq!(r.namespace, "");
}

#[test]
fn single_definitions_take_name_and_ordinal() {
    let c = match lower_const(&constant("uint16[]", "src_name", "7", "c"), "given".to_string(), 41) {
        Ok(c) => c,
        Err(e) => panic!("{:?}", e),
    };
    assert_eq!(c.name, "given");
    assert_eq!(c.typ, "List(UInt16)");
    assert_eq!(c.val, "7");
    assert_eq!(c.comment, "c");
    assert_eq!(c.id, 41);
    let f = match lower_field(&field("duration", "d", "how long"), "d".to_string(), 0) {
        Ok(f) => f,
        Err(e) => panic!("{:?}", e),
    };
    assert_eq!(f.typ, "import \"/Duration.capnp\".Time");
    assert_eq!(f.comment, "how long");
    assert_eq!(f.id, 0);
    match lower_field(&field("a/b/c", "deep", ""), "deep".to_string(), 3) {
        Err(e) => {
            assert_eq!(e.token, "a/b/c");
            assert_eq!(e.name, "deep");
        }
        Ok(f) => panic!("{:?}", f),
    }
}
