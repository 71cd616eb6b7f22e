use rcgenmsg::ast::{constant_from, field_from, tree_to_ast, ASTDef, StructuralError};
use rcgenmsg::parser::parse_file;
use rcgenmsg::tree::{Pair, Rule};

fn leaf(rule: Rule, text: &str) -> Pair {
    Pair::leaf(rule, text.to_string())
}

fn node(rule: Rule, text: &str, inner: Vec<Pair>) -> Pair {
    Pair::node(rule, text.to_string(), inner)
}

fn file(inner: Vec<Pair>) -> Pair {
    node(Rule::File, "", inner)
}

fn ast(tree: &Pair) -> ASTDef {
    match tree_to_ast(tree) {
        Ok(a) => a,
        Err(e) => panic!("{:?}", e),
    }
}

fn unexpected(tree: &Pair) -> (Rule, String) {
    match tree_to_ast(tree) {
        Err(StructuralError::UnexpectedRule { rule, text }) => (rule, text),
        other => panic!("{:?}", other),
    }
}

fn lacking(tree: &Pair) -> (Rule, Rule, String) {
    match tree_to_ast(tree) {
        Err(StructuralError::MissingElement { definition, missing, text }) => {
            (definition, missing, text)
        }
        other => panic!("{:?}", other),
    }
}

#[test]
fn empty_tree_gives_empty_message() {
    let a = ast(&file(Vec::new()));
    assert!(a.consts.is_empty());
    assert!(a.fields.is_empty());
}

#[test]
fn constants_and_fields_keep_their_order() {
    let tree = match parse_file(
        "# head\nint32 A = 1 # one\nint32 x\nstring B = \"two\"\n\nfloat64[] y # why\nuint8 C=3\n",
    ) {
        Ok(t) => t,
        Err(e) => panic!("{:?}", e),
    };
    let a = ast(&tree);
    let consts: Vec<(&str, &str, &str, &str)> = a
        .consts
        .iter()
        .map(|c| (c.typ.as_str(), c.name.as_str(), c.val.as_str(), c.comment.as_str()))
        .collect();
    assert_eq!(
        consts,
        vec![
            ("int32", "A", "1", "one"),
            ("string", "B", "\"two\"", ""),
            ("uint8", "C", "3", ""),
        ]
    );
    let fields: Vec<(&str, &str, &str)> = a
        .fields
        .iter()
        .map(|f| (f.typ.as_str(), f.name.as_str(), f.comment.as_str()))
        .collect();
    assert_eq!(fields, vec![("int32", "x", ""), ("float64[]", "y", "why")]);
}

#[test]
fn comment_nodes_are_passed_over() {
    let a = ast(&file(vec![leaf(Rule::Comment, "only a remark")]));
    assert!(a.consts.is_empty());
    assert!(a.fields.is_empty());
}

#[test]
fn missing_comment_is_empty_text() {
    let tree = file(vec![node(
        Rule::Variable,
        "int32 x",
        vec![leaf(Rule::IType, "int32"), leaf(Rule::Identifier, "x")],
    )]);
    let a = ast(&tree);
    assert_eq!(a.fields.len(), 1);
    assert_eq!(a.fields[0].comment, "");
}

#[test]
fn last_occurrence_of_a_part_counts() {
    let tree = file(vec![node(
        Rule::Constant,
        "c",
        vec![
            leaf(Rule::Identifier, "first"),
            leaf(Rule::IType, "int8"),
            leaf(Rule::Value, "1"),
            leaf(Rule::Comment, "a"),
            leaf(Rule::Identifier, "second"),
            leaf(Rule::Value, "2"),
            leaf(Rule::IType, "int16"),
            leaf(Rule::Comment, "b"),
        ],
    )]);
    let a = ast(&tree);
    assert_eq!(a.consts.len(), 1);
    assert_eq!(a.consts[0].typ, "int16");
    assert_eq!(a.consts[0].name, "second");
    assert_eq!(a.consts[0].val, "2");
    assert_eq!(a.consts[0].comment, "b");
}

#[test]
fn constant_without_type_name_or_value() {
    let no_type = file(vec![node(
        Rule::Constant,
        "X = 1",
        vec![leaf(Rule::Identifier, "X"), leaf(Rule::Value, "1")],
    )]);
    assert_eq!(lacking(&no_type), (Rule::Constant, Rule::IType, "X = 1".to_string()));
    let no_name = file(vec![node(
        Rule::Constant,
        "int32 = 1",
        vec![leaf(Rule::IType, "int32"), leaf(Rule::Value, "1")],
    )]);
    assert_eq!(lacking(&no_name), (Rule::Constant, Rule::Identifier, "int32 = 1".to_string()));
    let no_value = file(vec![node(
        Rule::Constant,
        "int32 X",
        vec![leaf(Rule::IType, "int32"), leaf(Rule::Identifier, "X")],
    )]);
    assert_eq!(lacking(&no_value), (Rule::Constant, Rule::Value, "int32 X".to_string()));
    let nothing = file(vec![node(Rule::Constant, "", Vec::new())]);
    assert_eq!(lacking(&nothing), (Rule::Constant, Rule::IType, "".to_string()));
}

#[test]
fn field_without_type_or_name() {
    let no_type = file(vec![node(Rule::Variable, "x", vec![leaf(Rule::Identifier, "x")])]);
    assert_eq!(lacking(&no_type), (Rule::Variable, Rule::IType, "x".to_string()));
    let no_name = file(vec![node(
        Rule::Variable,
        "int32 # c",
        vec![leaf(Rule::IType, "int32"), leaf(Rule::Comment, "c")],
    )]);
    assert_eq!(lacking(&no_name), (Rule::Variable, Rule::Identifier, "int32 # c".to_string()));
}

#[test]
fn value_in_a_field_is_unexpected() {
    let tree = file(vec![node(
        Rule::Variable,
        "int32 x 1",
        vec![leaf(Rule::IType, "int32"), leaf(Rule::Identifier, "x"), leaf(Rule::Value, "1")],
    )]);
    assert_eq!(unexpected(&tree), (Rule::Value, "1".to_string()));
}

#[test]
fn unexpected_part_comes_before_a_missing_one() {
    let tree = file(vec![node(
        Rule::Constant,
        "whole",
        vec![leaf(Rule::Variable, "stray"), leaf(Rule::File, "later")],
    )]);
    assert_eq!(unexpected(&tree), (Rule::Variable, "stray".to_string()));
}

#[test]
fn other_nodes_under_the_root_are_unexpected() {
    for rule in [Rule::File, Rule::Definition, Rule::IType, Rule::Identifier, Rule::Value] {
        let tree = file(vec![leaf(Rule::Comment, "fine"), leaf(rule, "odd one")]);
        assert_eq!(unexpected(&tree), (rule, "odd one".to_string()));
    }
}

#[test]
fn first_unsound_node_ends_the_reading() {
    let tree = file(vec![
        node(Rule::Variable, "int32 x", vec![leaf(Rule::IType, "int32"), leaf(Rule::Identifier, "x")]),
        node(Rule::Variable, "first", vec![leaf(Rule::IType, "int32")]),
        leaf(Rule::Value, "second"),
    ]);
    assert_eq!(lacking(&tree), (Rule::Variable, Rule::Identifier, "first".to_string()));
}

#[test]
fn root_rule_is_not_looked_at() {
    let tree = node(
        Rule::Comment,
        "",
        vec![node(
            Rule::Variable,
            "bool b",
            vec![leaf(Rule::IType, "bool"), leaf(Rule::Identifier, "b")],
        )],
    );
    assert_eq!(ast(&tree).fields.len(), 1);
}

#[test]
fn one_definition_at_a_time() {
    let constant = node(
        Rule::Constant,
        "int32 X = 1",
        vec![leaf(Rule::IType, "int32"), leaf(Rule::Identifier, "X"), leaf(Rule::Value, "1")],
    );
    match constant_from(&constant) {
        Ok(c) => {
            assert_eq!(c.typ, "int32");
            assert_eq!(c.name, "X");
            assert_eq!(c.val, "1");
            assert_eq!(c.comment, "");
        }
        Err(e) => panic!("{:?}", e),
    }
    assert!(matches!(
        field_from(&constant),
        Err(StructuralError::UnexpectedRule { rule: Rule::Value, .. })
    ));
}
