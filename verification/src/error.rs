//! What can stop the compilation of a message definition.

use crate::ast::{StructuralError, StructuralErrorView};
use crate::mapping::{MappingError, MappingErrorView};
use crate::tree::Rule;
use vstd::prelude::*;
use vstd::string::StringExecFns;

verus! {

/// A line that the grammar does not recognise.
#[derive(Debug, PartialEq, Eq)]
pub struct SyntaxError {
    /// The number of the line, the first line being line 1.
    pub line: usize,
    /// The production that was expected where the line went wrong.
    pub rule: Rule,
    /// The line as it stands in the input.
    pub text: String,
}

/// The view of a syntax error.
pub ghost struct SyntaxErrorView {
    pub line: nat,
    pub rule: Rule,
    pub text: Seq<char>,
}

impl View for SyntaxError {
    type V = SyntaxErrorView;

    open spec fn view(&self) -> SyntaxErrorView {
        SyntaxErrorView { line: self.line as nat, rule: self.rule, text: self.text@ }
    }
}

/// Why a message definition gave no schema.
#[derive(Debug, PartialEq, Eq)]
pub enum CompileError {
    /// The text does not follow the grammar.
    Syntax(SyntaxError),
    /// The parse tree is not that of a message.
    Structure(StructuralError),
    /// A constant or a field has a type that cannot be mapped.
    Mapping(MappingError),
    /// The text defines neither a constant nor a field.
    EmptyInput,
    /// There are more constants, or more fields, than ordinals.
    TooManyDefinitions,
}

/// The view of the error of a compilation: the view of the error of its stage.
pub ghost enum CompileErrorView {
    Syntax(SyntaxErrorView),
    Structure(StructuralErrorView),
    Mapping(MappingErrorView),
    EmptyInput,
    TooManyDefinitions,
}

impl View for CompileError {
    type V = CompileErrorView;

    open spec fn view(&self) -> CompileErrorView {
        match *self {
            CompileError::Syntax(e) => CompileErrorView::Syntax(e@),
            CompileError::Structure(e) => CompileErrorView::Structure(e@),
            CompileError::Mapping(e) => CompileErrorView::Mapping(e@),
            CompileError::EmptyInput => CompileErrorView::EmptyInput,
            CompileError::TooManyDefinitions => CompileErrorView::TooManyDefinitions,
        }
    }
}

/// The name of a production, as messages write it.
pub open spec fn rule_name(rule: Rule) -> Seq<char> {
    match rule {
        Rule::File => "file"@,
        Rule::Definition => "definition"@,
        Rule::Constant => "constant"@,
        Rule::Variable => "variable"@,
        Rule::IType => "itype"@,
        Rule::Identifier => "identifier"@,
        Rule::Value => "value"@,
        Rule::Comment => "comment"@,
    }
}

/// The decimal digit that stands for `n`, for `n` below ten.
pub open spec fn decimal_digit(n: nat) -> char {
    "0123456789"@[n as int]
}

/// The number `n` in decimal digits, without zeros before it.
pub open spec fn decimal(n: nat) -> Seq<char>
    decreases n,
{
    if n < 10 {
        seq![decimal_digit(n)]
    } else {
        decimal(n / 10).push(decimal_digit(n % 10))
    }
}

/// The text `text` between two backquotes.
pub open spec fn quoted(text: Seq<char>) -> Seq<char> {
    "`"@ + text + "`"@
}

/// What is said of a syntax error: the line, the production that was expected, and the
/// text of the line.
pub open spec fn syntax_message(e: SyntaxErrorView) -> Seq<char> {
    "line "@ + decimal(e.line) + ": expected "@ + rule_name(e.rule) + " in "@ + quoted(e.text)
}

/// What is said of a structural error: the production that has no place with the text that
/// it matched, or the definition and the part that it lacks with the text of the
/// definition.
pub open spec fn structural_message(e: StructuralErrorView) -> Seq<char> {
    match e {
        StructuralErrorView::UnexpectedRule { rule, text } => "unexpected "@ + rule_name(rule)
            + ": "@ + quoted(text),
        StructuralErrorView::MissingElement { definition, missing, text } => rule_name(definition)
            + " without "@ + rule_name(missing) + ": "@ + quoted(text),
    }
}

/// What is said of a mapping error: the type that cannot be mapped, and the constant or
/// field that has it.
pub open spec fn mapping_message(e: MappingErrorView) -> Seq<char> {
    "cannot map the type "@ + quoted(e.token) + " of "@ + quoted(e.name)
}

/// What is said of the error of a compilation.
pub open spec fn message_of(e: CompileErrorView) -> Seq<char> {
    match e {
        CompileErrorView::Syntax(e) => syntax_message(e),
        CompileErrorView::Structure(e) => structural_message(e),
        CompileErrorView::Mapping(e) => mapping_message(e),
        CompileErrorView::EmptyInput => "the file is empty: it defines neither a constant nor a field"@,
        CompileErrorView::TooManyDefinitions => "too many constants or fields"@,
    }
}

/// The name of a production.
pub fn name_of(rule: Rule) -> (name: &'static str)
    ensures
        name@ == rule_name(rule),
{
    match rule {
        Rule::File => "file",
        Rule::Definition => "definition",
        Rule::Constant => "constant",
        Rule::Variable => "variable",
        Rule::IType => "itype",
        Rule::Identifier => "identifier",
        Rule::Value => "value",
        Rule::Comment => "comment",
    }
}

/// Writes `n` in decimal digits.
pub fn decimal_of(n: usize) -> (text: String)
    ensures
        text@ == decimal(n as nat),
    decreases n,
{
    proof {
        reveal_strlit("0123456789");
    }
    let digit = (48 + (n % 10) as u8) as char;
    if n < 10 {
        let mut text = String::new();
        text.push(digit);
        text
    } else {
        let mut text = decimal_of(n / 10);
        text.push(digit);
        text
    }
}

/// Appends `text` between two backquotes.
fn append_quoted(message: &mut String, text: &String)
    ensures
        final(message)@ == old(message)@ + quoted(text@),
{
    message.append("`");
    message.append(text.as_str());
    message.append("`");
    assert(final(message)@ =~= old(message)@ + quoted(text@));
}

impl SyntaxError {
    /// The message of the error.
    pub fn message(&self) -> (text: String)
        ensures
            text@ == syntax_message(self@),
    {
        let mut text = String::from_str("line ");
        text.append(decimal_of(self.line).as_str());
        text.append(": expected ");
        text.append(name_of(self.rule));
        text.append(" in ");
        append_quoted(&mut text, &self.text);
        assert(text@ =~= syntax_message(self@));
        text
    }
}

impl StructuralError {
    /// The message of the error.
    pub fn message(&self) -> (text: String)
        ensures
            text@ == structural_message(self@),
    {
        match self {
            StructuralError::UnexpectedRule { rule, text } => {
                let mut message = String::from_str("unexpected ");
                message.append(name_of(*rule));
                message.append(": ");
                append_quoted(&mut message, text);
                assert(message@ =~= structural_message(self@));
                message
            },
            StructuralError::MissingElement { definition, missing, text } => {
                let mut message = String::from_str(name_of(*definition));
                message.append(" without ");
                message.append(name_of(*missing));
                message.append(": ");
                append_quoted(&mut message, text);
                assert(message@ =~= structural_message(self@));
                message
            },
        }
    }
}

impl MappingError {
    /// The message of the error.
    pub fn message(&self) -> (text: String)
        ensures
            text@ == mapping_message(self@),
    {
        let mut text = String::from_str("cannot map the type ");
        append_quoted(&mut text, &self.token);
        text.append(" of ");
        append_quoted(&mut text, &self.name);
        assert(text@ =~= mapping_message(self@));
        text
    }
}

impl CompileError {
    /// The message of the error: what went wrong, with the line, the production, the type
    /// or the name that it is about.
    pub fn message(&self) -> (text: String)
        ensures
            text@ == message_of(self@),
    {
        match self {
            CompileError::Syntax(e) => e.message(),
            CompileError::Structure(e) => e.message(),
            CompileError::Mapping(e) => e.message(),
            CompileError::EmptyInput => String::from_str(
                "the file is empty: it defines neither a constant nor a field",
            ),
            CompileError::TooManyDefinitions => String::from_str("too many constants or fields"),
        }
    }
}

} // verus!
