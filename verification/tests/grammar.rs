use rcgenmsg::grammar::Grammar;
use rcgenmsg::parser::{parse_file, parse_line, parse_with};
use rcgenmsg::pattern::Step;
use rcgenmsg::text::CharClass;
use rcgenmsg::tree::{Pair, Rule};

fn tree(input: &str) -> Pair {
    match parse_file(input) {
        Ok(t) => t,
        Err(e) => panic!("line {} was refused: {:?}", e.line, e),
    }
}

fn syntax_error(input: &str) -> (usize, Rule, String) {
    match parse_file(input) {
        Ok(t) => panic!("parsed: {:?}", t),
        Err(e) => (e.line, e.rule, e.text),
    }
}

fn shape(pair: &Pair) -> Vec<(Rule, String)> {
    pair.inner.iter().map(|p| (p.rule, p.text.clone())).collect()
}

#[test]
fn field_with_comment() {
    let t = tree("int32 level     # current level\n");
    assert_eq!(t.rule, Rule::File);
    assert_eq!(t.text, "int32 level     # current level\n");
    assert_eq!(t.inner.len(), 1);
    let field = &t.inner[0];
    assert_eq!(field.rule, Rule::Variable);
    assert_eq!(field.text, "int32 level     # current level");
    assert_eq!(
        shape(field),
        vec![
            (Rule::IType, "int32".to_string()),
            (Rule::Identifier, "level".to_string()),
            (Rule::Comment, "current level".to_string()),
        ]
    );
    assert!(field.inner.iter().all(|p| p.inner.is_empty()));
}

#[test]
fn constant_with_comment() {
    let t = tree("int32 LOW = 0  # low battery");
    assert_eq!(t.inner.len(), 1);
    let constant = &t.inner[0];
    assert_eq!(constant.rule, Rule::Constant);
    assert_eq!(constant.text, "int32 LOW = 0  # low battery");
    assert_eq!(
        shape(constant),
        vec![
            (Rule::IType, "int32".to_string()),
            (Rule::Identifier, "LOW".to_string()),
            (Rule::Value, "0".to_string()),
            (Rule::Comment, "low battery".to_string()),
        ]
    );
}

#[test]
fn definitions_without_comment_have_no_comment_node() {
    let t = tree("uint8 a\nuint8 B=1\n");
    assert_eq!(
        shape(&t.inner[0]),
        vec![(Rule::IType, "uint8".to_string()), (Rule::Identifier, "a".to_string())]
    );
    assert_eq!(
        shape(&t.inner[1]),
        vec![
            (Rule::IType, "uint8".to_string()),
            (Rule::Identifier, "B".to_string()),
            (Rule::Value, "1".to_string()),
        ]
    );
}

#[test]
fn comment_lines_are_nodes_and_blank_lines_are_not() {
    let t = tree("# first\n\n   \t \n  #second  \nint32 x\n#\n");
    assert_eq!(
        shape(&t),
        vec![
            (Rule::Comment, "first".to_string()),
            (Rule::Comment, "second".to_string()),
            (Rule::Variable, "int32 x".to_string()),
            (Rule::Comment, "".to_string()),
        ]
    );
}

#[test]
fn empty_text_has_an_empty_tree() {
    let t = tree("");
    assert_eq!(t.rule, Rule::File);
    assert_eq!(t.text, "");
    assert!(t.inner.is_empty());
    assert!(tree("\n\n").inner.is_empty());
}

#[test]
fn last_line_needs_no_line_feed() {
    assert_eq!(tree("int32 a\nint32 b").inner.len(), 2);
    assert_eq!(tree("int32 a\nint32 b\n").inner.len(), 2);
}

#[test]
fn carriage_returns_are_blanks() {
    let t = tree("int32 a # one\r\nint32 B = 2\r\n");
    assert_eq!(t.inner[0].text, "int32 a # one");
    assert_eq!(t.inner[0].inner[2].text, "one");
    assert_eq!(t.inner[1].text, "int32 B = 2");
    assert_eq!(t.inner[1].inner[2].text, "2");
}

#[test]
fn comment_keeps_its_inner_text() {
    let t = tree("int32 x #  a  #b = 'c'  \t");
    assert_eq!(t.inner[0].inner[2].text, "a  #b = 'c'");
    assert_eq!(t.inner[0].text, "int32 x #  a  #b = 'c'");
}

#[test]
fn comment_may_touch_the_definition() {
    let t = tree("int32 x#c\nint32 Y=5#d");
    assert_eq!(t.inner[0].rule, Rule::Variable);
    assert_eq!(t.inner[0].inner[2].text, "c");
    assert_eq!(t.inner[1].rule, Rule::Constant);
    assert_eq!(t.inner[1].inner[2].text, "5");
    assert_eq!(t.inner[1].inner[3].text, "d");
}

#[test]
fn types_with_package_and_array_suffix() {
    let t = tree("geometry_msgs/Vector3[] points\nfloat64[9] cov\nHeader header\n_t x");
    assert_eq!(t.inner[0].inner[0].text, "geometry_msgs/Vector3[]");
    assert_eq!(t.inner[1].inner[0].text, "float64[9]");
    assert_eq!(t.inner[2].inner[0].text, "Header");
    assert_eq!(t.inner[3].inner[0].text, "_t");
}

#[test]
fn numbers() {
    for value in ["0", "42", "-1", "+7", "3.14", "-0.5", "1e9", "1E-3", "2.5e+10", "007"] {
        let t = tree(&format!("float64 X = {}", value));
        assert_eq!(t.inner[0].inner[2].rule, Rule::Value);
        assert_eq!(t.inner[0].inner[2].text, value);
    }
}

#[test]
fn quoted_values_keep_their_quotes() {
    let t = tree("string A = \"a # b\" # c\nstring B = 'it is'\nstring C = \"\"");
    assert_eq!(t.inner[0].inner[2].text, "\"a # b\"");
    assert_eq!(t.inner[0].inner[3].text, "c");
    assert_eq!(t.inner[1].inner[2].text, "'it is'");
    assert_eq!(t.inner[2].inner[2].text, "\"\"");
    assert_eq!(syntax_error("string B = 'it''s'"), (1, Rule::Comment, "string B = 'it''s'".to_string()));
}

#[test]
fn missing_name_is_reported() {
    assert_eq!(syntax_error("int32\n"), (1, Rule::Identifier, "int32".to_string()));
    assert_eq!(syntax_error("int32 9x"), (1, Rule::Identifier, "int32 9x".to_string()));
    assert_eq!(syntax_error("int32 = 4"), (1, Rule::Identifier, "int32 = 4".to_string()));
    assert_eq!(syntax_error("int32[ x"), (1, Rule::Identifier, "int32[ x".to_string()));
}

#[test]
fn missing_value_is_reported() {
    assert_eq!(syntax_error("int32 X = "), (1, Rule::Value, "int32 X = ".to_string()));
    assert_eq!(syntax_error("int32 X = abc"), (1, Rule::Value, "int32 X = abc".to_string()));
    assert_eq!(syntax_error("int32 X = \"open"), (1, Rule::Value, "int32 X = \"open".to_string()));
    assert_eq!(syntax_error("int32 X = # c"), (1, Rule::Value, "int32 X = # c".to_string()));
    assert_eq!(syntax_error("int32 X = -"), (1, Rule::Value, "int32 X = -".to_string()));
}

#[test]
fn text_after_a_definition_is_reported() {
    assert_eq!(syntax_error("int32 x y"), (1, Rule::Comment, "int32 x y".to_string()));
    assert_eq!(syntax_error("int32 X = 1 2"), (1, Rule::Comment, "int32 X = 1 2".to_string()));
    assert_eq!(syntax_error("int32 X = 1."), (1, Rule::Comment, "int32 X = 1.".to_string()));
    assert_eq!(syntax_error("int32 X = 1e"), (1, Rule::Comment, "int32 X = 1e".to_string()));
    assert_eq!(syntax_error("int32 x-y"), (1, Rule::Comment, "int32 x-y".to_string()));
}

#[test]
fn line_that_starts_with_no_type_is_reported() {
    assert_eq!(syntax_error("9bad x"), (1, Rule::Definition, "9bad x".to_string()));
    assert_eq!(syntax_error("= 3"), (1, Rule::Definition, "= 3".to_string()));
    assert_eq!(syntax_error("/pkg x"), (1, Rule::Definition, "/pkg x".to_string()));
}

#[test]
fn error_names_the_first_bad_line() {
    let (line, rule, text) = syntax_error("int32 a\n\n# c\n  int32 =\nint32\n");
    assert_eq!(line, 4);
    assert_eq!(rule, Rule::Identifier);
    assert_eq!(text, "  int32 =");
}

#[test]
fn parse_line_tells_blank_from_node() {
    let grammar = Grammar::message();
    let blank: Vec<char> = " \t".chars().collect();
    assert!(matches!(parse_line(&grammar, &blank), Ok(None)));
    let empty: Vec<char> = Vec::new();
    assert!(matches!(parse_line(&grammar, &empty), Ok(None)));
    let field: Vec<char> = "bool ok".chars().collect();
    match parse_line(&grammar, &field) {
        Ok(Some(pair)) => {
            assert_eq!(pair.rule, Rule::Variable);
            assert_eq!(pair.text, "bool ok");
        }
        other => panic!("{:?}", other),
    }
    let bad: Vec<char> = "bool".chars().collect();
    assert!(matches!(parse_line(&grammar, &bad), Err(Rule::Identifier)));
}

#[test]
fn message_grammar_has_three_value_forms() {
    let grammar = Grammar::message();
    assert_eq!(grammar.itype.len(), 3);
    assert_eq!(grammar.identifier.len(), 2);
    assert_eq!(grammar.value.len(), 3);
}

#[test]
fn new_literal_form_is_a_new_pattern() {
    let mut grammar = Grammar::message();
    assert!(parse_with(&grammar, "bool ON = true").is_err());
    grammar.value.push(vec![Step::One(CharClass::NameStart), Step::Many(CharClass::Name)]);
    let t = match parse_with(&grammar, "bool ON = true # a word\nint32 N = x1F") {
        Ok(t) => t,
        Err(e) => panic!("{:?}", e),
    };
    assert_eq!(t.inner[0].rule, Rule::Constant);
    assert_eq!(t.inner[0].inner[2].text, "true");
    assert_eq!(t.inner[0].inner[3].text, "a word");
    assert_eq!(t.inner[1].inner[2].text, "x1F");
}

#[test]
fn earlier_value_form_wins() {
    let mut grammar = Grammar::message();
    grammar.value.push(vec![Step::One(CharClass::Digit), Step::One(CharClass::Is('x'))]);
    match parse_with(&grammar, "int32 N = 0x") {
        Err(e) => assert_eq!(e.rule, Rule::Comment),
        Ok(t) => panic!("{:?}", t),
    }
}

#[test]
fn type_pattern_can_be_replaced() {
    let mut grammar = Grammar::message();
    grammar.itype = vec![Step::One(CharClass::Is('$')), Step::Many(CharClass::Digit)];
    let t = match parse_with(&grammar, "$12 x") {
        Ok(t) => t,
        Err(e) => panic!("{:?}", e),
    };
    assert_eq!(t.inner[0].inner[0].text, "$12");
    assert!(parse_with(&grammar, "int32 x").is_err());
}

#[test]
fn text_beyond_ascii_is_kept() {
    let t = tree("string s # größe ≥ 3\n# naïve\n");
    assert_eq!(t.inner[0].inner[2].text, "größe ≥ 3");
    assert_eq!(t.inner[1].text, "naïve");
    assert_eq!(syntax_error("int32 größe"), (1, Rule::Comment, "int32 größe".to_string()));
}
