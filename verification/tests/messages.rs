use rcgenmsg::ast::StructuralError;
use rcgenmsg::compiler::compile_source;
use rcgenmsg::error::{decimal_of, name_of, CompileError, SyntaxError};
use rcgenmsg::mapping::MappingError;
use rcgenmsg::tree::Rule;

#[test]
fn decimal_digits() {
    assert_eq!(decimal_of(0), "0");
    assert_eq!(decimal_of(7), "7");
    assert_eq!(decimal_of(10), "10");
    assert_eq!(decimal_of(1905), "1905");
    assert_eq!(decimal_of(usize::MAX), format!("{}", usize::MAX));
}

#[test]
fn names_of_productions() {
    assert_eq!(name_of(Rule::File), "file");
    assert_eq!(name_of(Rule::Definition), "definition");
    assert_eq!(name_of(Rule::Constant), "constant");
    assert_eq!(name_of(Rule::Variable), "variable");
    assert_eq!(name_of(Rule::IType), "itype");
    assert_eq!(name_of(Rule::Identifier), "identifier");
    assert_eq!(name_of(Rule::Value), "value");
    assert_eq!(name_of(Rule::Comment), "comment");
}

#[test]
fn message_of_a_syntax_error() {
    let e = SyntaxError { line: 12, rule: Rule::Value, text: "int32 X = ?".to_string() };
    assert_eq!(e.message(), "line 12: expected value in `int32 X = ?`");
    assert_eq!(
        CompileError::Syntax(e).message(),
        "line 12: expected value in `int32 X = ?`"
    );
}

#[test]
fn message_of_a_structural_error() {
    let stray = StructuralError::UnexpectedRule { rule: Rule::File, text: "odd".to_string() };
    assert_eq!(stray.message(), "unexpected file: `odd`");
    let lacking = StructuralError::MissingElement {
        definition: Rule::Constant,
        missing: Rule::Identifier,
        text: "int32 = 1".to_string(),
    };
    assert_eq!(lacking.message(), "constant without identifier: `int32 = 1`");
    assert_eq!(
        CompileError::Structure(lacking).message(),
        "constant without identifier: `int32 = 1`"
    );
}

#[test]
fn message_of_a_mapping_error() {
    let e = MappingError { token: "a/b/c".to_string(), name: "deep".to_string() };
    assert_eq!(e.message(), "cannot map the type `a/b/c` of `deep`");
    assert_eq!(CompileError::Mapping(e).message(), "cannot map the type `a/b/c` of `deep`");
}

#[test]
fn messages_without_details() {
    assert_eq!(
        CompileError::EmptyInput.message(),
        "the file is empty: it defines neither a constant nor a field"
    );
    assert_eq!(CompileError::TooManyDefinitions.message(), "too many constants or fields");
}

#[test]
fn messages_of_a_compilation() {
    let message = |input: &str| match compile_source(input, "M.msg", "M", "") {
        Ok(r) => panic!("{:?}", r),
        Err(e) => e.message(),
    };
    assert_eq!(message("bool a\nbool"), "line 2: expected identifier in `bool`");
    assert_eq!(message("bool a\nwho knows"), "cannot map the type `who` of `knows`");
    assert_eq!(
        message("# only this"),
        "the file is empty: it defines neither a constant nor a field"
    );
}
