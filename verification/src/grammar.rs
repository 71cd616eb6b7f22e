//! The grammar of a message definition.
//!
//! A definition is read line by line. A line is blank, or a comment, or the definition of a
//! constant or of a field, which a comment may follow:
//!
//! ```text
//! file       = line ("\n" line)*
//! line       = blank* (comment | definition blank* comment?)? blank*
//! definition = constant | variable
//! constant   = itype blank+ identifier blank* "=" blank* value
//! variable   = itype blank+ identifier
//! comment    = "#" blank* (any but "\n")*
//! ```
//!
//! The forms of the three tokens are no part of the parser: they are patterns, held as data
//! in a `Grammar`. Those of a message definition are
//!
//! ```text
//! itype      = name_start type_char* ("[" digit* "]")?
//! identifier = name_start name_char*
//! value      = number | quoted
//! number     = sign? digit+ ("." digit+)? (("e" | "E") sign? digit+)?
//! quoted     = "\"" (any but "\"")* "\"" | "'" (any but "'")* "'"
//! ```
//!
//! Repetitions take all that they can, and of two alternatives the first that matches is
//! taken.

use crate::error::SyntaxErrorView;
use crate::pattern::{
    choice_end, choices_of, lemma_group_view, pattern_end, pattern_of, Step, StepView,
};
use crate::text::{is_blank, lemma_run_end, run_end, CharClass};
use crate::tree::{PairView, Rule};
use vstd::prelude::*;

verus! {

/// The forms of the tokens: a pattern for the type and one for the name of a definition,
/// and the patterns of the values of constants, of which the first that matches counts.
#[derive(Debug, PartialEq, Eq)]
pub struct Grammar {
    pub itype: Vec<Step>,
    pub identifier: Vec<Step>,
    pub value: Vec<Vec<Step>>,
}

/// The view of a grammar: the views of its patterns.
pub ghost struct GrammarView {
    pub itype: Seq<StepView>,
    pub identifier: Seq<StepView>,
    pub value: Seq<Seq<StepView>>,
}

impl View for Grammar {
    type V = GrammarView;

    open spec fn view(&self) -> GrammarView {
        GrammarView {
            itype: pattern_of(self.itype@),
            identifier: pattern_of(self.identifier@),
            value: choices_of(self.value@),
        }
    }
}

/// A sign, or nothing.
pub open spec fn sign() -> StepView {
    StepView::Maybe(seq![StepView::One(CharClass::Either('+', '-'))])
}

/// `itype`: a name in which slashes may stand, with or without the brackets of an array,
/// between which digits may stand.
pub open spec fn itype_pattern() -> Seq<StepView> {
    seq![
        StepView::One(CharClass::NameStart),
        StepView::Many(CharClass::TypeName),
        StepView::Maybe(
            seq![
                StepView::One(CharClass::Is('[')),
                StepView::Many(CharClass::Digit),
                StepView::One(CharClass::Is(']')),
            ],
        ),
    ]
}

/// `identifier`: a letter or an underscore, then letters, digits and underscores.
pub open spec fn identifier_pattern() -> Seq<StepView> {
    seq![StepView::One(CharClass::NameStart), StepView::Many(CharClass::Name)]
}

/// `number`: digits with or without a sign before them, and after them with or without a
/// fraction and an exponent.
pub open spec fn number_pattern() -> Seq<StepView> {
    seq![
        sign(),
        StepView::One(CharClass::Digit),
        StepView::Many(CharClass::Digit),
        StepView::Maybe(
            seq![
                StepView::One(CharClass::Is('.')),
                StepView::One(CharClass::Digit),
                StepView::Many(CharClass::Digit),
            ],
        ),
        StepView::Maybe(
            seq![
                StepView::One(CharClass::Either('e', 'E')),
                sign(),
                StepView::One(CharClass::Digit),
                StepView::Many(CharClass::Digit),
            ],
        ),
    ]
}

/// `quoted`: text between two quotes of the kind `quote`, the quotes included. The text
/// ends at the first quote after the one that opens it.
pub open spec fn quoted_pattern(quote: char) -> Seq<StepView> {
    seq![
        StepView::One(CharClass::Is(quote)),
        StepView::Many(CharClass::Except(quote)),
        StepView::One(CharClass::Is(quote)),
    ]
}

/// The tokens of a message definition.
pub open spec fn message_grammar() -> GrammarView {
    GrammarView {
        itype: itype_pattern(),
        identifier: identifier_pattern(),
        value: seq![number_pattern(), quoted_pattern('"'), quoted_pattern('\'')],
    }
}

/// `itype`, where it ends.
pub open spec fn itype_end(g: GrammarView, s: Seq<char>, from: int) -> Option<int> {
    pattern_end(g.itype, s, from)
}

/// `identifier`, where it ends.
pub open spec fn identifier_end(g: GrammarView, s: Seq<char>, from: int) -> Option<int> {
    pattern_end(g.identifier, s, from)
}

/// `value`, where it ends.
pub open spec fn value_end(g: GrammarView, s: Seq<char>, from: int) -> Option<int> {
    choice_end(g.value, 0, s, from)
}

/// The length of `s` without the blanks at its end.
pub open spec fn trimmed_len(s: Seq<char>) -> int
    decreases s.len(),
{
    if s.len() > 0 && is_blank(s.last()) {
        trimmed_len(s.drop_last())
    } else {
        s.len() as int
    }
}

/// The text of `s` from `from` to the last character that is no blank.
pub open spec fn text_from(s: Seq<char>, from: int) -> Seq<char> {
    if 0 <= from < trimmed_len(s) {
        s.subrange(from, trimmed_len(s))
    } else {
        Seq::empty()
    }
}

/// The text of the comment whose `#` stands at `hash`: what follows the `#`, without the
/// blanks before and after it.
pub open spec fn comment_body(s: Seq<char>, hash: int) -> Seq<char> {
    text_from(s, run_end(s, hash + 1, CharClass::Blank))
}

/// The text of the comment of a line: that of the comment whose `#` was found, or the empty
/// text where the line has no comment.
pub open spec fn comment_of(s: Seq<char>, hash: Option<int>) -> Seq<char> {
    match hash {
        Some(h) => comment_body(s, h),
        None => Seq::empty(),
    }
}

/// A node without nodes inside it, for the text of `s` between two positions.
pub open spec fn token(rule: Rule, s: Seq<char>, from: int, to: int) -> PairView {
    PairView { rule, text: s.subrange(from, to), inner: Seq::empty() }
}

/// The node of the comment whose `#` stands at `hash`.
pub open spec fn comment_node(s: Seq<char>, hash: int) -> PairView {
    PairView { rule: Rule::Comment, text: comment_body(s, hash), inner: Seq::empty() }
}

/// Where the parts of a definition stand in its line: each part from its first character
/// to the position after its last, the value for a constant alone, and the `#` of the
/// comment where one follows.
pub ghost struct Layout {
    pub typ: (int, int),
    pub name: (int, int),
    pub val: Option<(int, int)>,
    pub hash: Option<int>,
}

/// What follows a definition that ends at `from`: nothing but blanks, or a comment, whose
/// `#` is found. Anything else is an error, and a comment was expected.
pub open spec fn trailer(s: Seq<char>, from: int) -> Result<Option<int>, Rule> {
    let at = run_end(s, from, CharClass::Blank);
    if at >= s.len() {
        Ok(None)
    } else if s[at] == '#' {
        Ok(Some(at))
    } else {
        Err(Rule::Comment)
    }
}

/// `definition`, from `start` to the end of the line `s`: where the parts of a constant or
/// of a field stand, or the production that was expected where the line went wrong.
pub open spec fn layout_at(g: GrammarView, s: Seq<char>, start: int) -> Result<Layout, Rule> {
    match itype_end(g, s, start) {
        None => Err(Rule::Definition),
        Some(type_end) => {
            let name_start = run_end(s, type_end, CharClass::Blank);
            if name_start == type_end {
                Err(Rule::Identifier)
            } else {
                match identifier_end(g, s, name_start) {
                    None => Err(Rule::Identifier),
                    Some(name_end) => {
                        let typ = (start, type_end);
                        let name = (name_start, name_end);
                        let sign = run_end(s, name_end, CharClass::Blank);
                        if sign < s.len() && s[sign] == '=' {
                            let value_start = run_end(s, sign + 1, CharClass::Blank);
                            match value_end(g, s, value_start) {
                                None => Err(Rule::Value),
                                Some(end) => match trailer(s, end) {
                                    Err(rule) => Err(rule),
                                    Ok(hash) => Ok(
                                        Layout { typ, name, val: Some((value_start, end)), hash },
                                    ),
                                },
                            }
                        } else {
                            match trailer(s, name_end) {
                                Err(rule) => Err(rule),
                                Ok(hash) => Ok(Layout { typ, name, val: None, hash }),
                            }
                        }
                    },
                }
            }
        },
    }
}

/// The nodes of the parts of a definition, in the order in which they stand in the line.
pub open spec fn part_nodes(s: Seq<char>, layout: Layout) -> Seq<PairView> {
    let named = seq![
        token(Rule::IType, s, layout.typ.0, layout.typ.1),
        token(Rule::Identifier, s, layout.name.0, layout.name.1),
    ];
    let valued = match layout.val {
        Some(val) => named.push(token(Rule::Value, s, val.0, val.1)),
        None => named,
    };
    match layout.hash {
        Some(hash) => valued.push(comment_node(s, hash)),
        None => valued,
    }
}

/// The node of a definition: a constant where there is a value, else a field. Its text is
/// the line from the type on, without the blanks at the end.
pub open spec fn definition_node(s: Seq<char>, layout: Layout) -> PairView {
    PairView {
        rule: if layout.val is Some {
            Rule::Constant
        } else {
            Rule::Variable
        },
        text: text_from(s, layout.typ.0),
        inner: part_nodes(s, layout),
    }
}

/// `line`: no node for a blank line, the node of a comment or of a definition, or the
/// production that was expected where the line went wrong.
pub open spec fn line_node(g: GrammarView, s: Seq<char>) -> Result<Option<PairView>, Rule> {
    let start = run_end(s, 0, CharClass::Blank);
    if start >= s.len() {
        Ok(None)
    } else if s[start] == '#' {
        Ok(Some(comment_node(s, start)))
    } else {
        match layout_at(g, s, start) {
            Ok(layout) => Ok(Some(definition_node(s, layout))),
            Err(rule) => Err(rule),
        }
    }
}

/// Where the line that starts at `from` ends: at the next line feed, or at the end of `s`.
pub open spec fn line_end(s: Seq<char>, from: int) -> int {
    run_end(s, from, CharClass::Except('\n'))
}

/// The nodes of the lines of `s` from the position `from` on, where the line with the number
/// `line` starts; or the error of the first line that the grammar does not recognise.
pub open spec fn nodes_from(g: GrammarView, s: Seq<char>, from: int, line: nat) -> Result<
    Seq<PairView>,
    SyntaxErrorView,
>
    decreases s.len() + 1 - from,
    via nodes_from_ends
{
    if from < 0 || from >= s.len() {
        Ok(Seq::empty())
    } else {
        let end = line_end(s, from);
        let text = s.subrange(from, end);
        match line_node(g, text) {
            Err(rule) => Err(SyntaxErrorView { line, rule, text }),
            Ok(node) => match nodes_from(g, s, end + 1, line + 1) {
                Err(e) => Err(e),
                Ok(rest) => Ok(
                    match node {
                        Some(n) => seq![n] + rest,
                        None => rest,
                    },
                ),
            },
        }
    }
}

#[via_fn]
proof fn nodes_from_ends(g: GrammarView, s: Seq<char>, from: int, line: nat) {
    if 0 <= from < s.len() {
        lemma_run_end(s, from, CharClass::Except('\n'));
    }
}

/// `file`: the tree of the text `s`, whose root holds the nodes of its lines in order.
pub open spec fn tree_with(g: GrammarView, s: Seq<char>) -> Result<PairView, SyntaxErrorView> {
    match nodes_from(g, s, 0, 1) {
        Err(e) => Err(e),
        Ok(nodes) => Ok(PairView { rule: Rule::File, text: s, inner: nodes }),
    }
}

/// The tree of the message definition `s`.
pub open spec fn tree_of(s: Seq<char>) -> Result<PairView, SyntaxErrorView> {
    tree_with(message_grammar(), s)
}

/// The step that takes one character of `class`.
fn one(class: CharClass) -> (step: Step)
    ensures
        step@ == StepView::One(class),
{
    Step::One(class)
}

/// The step that takes all the characters of `class` that follow.
fn many(class: CharClass) -> (step: Step)
    ensures
        step@ == StepView::Many(class),
{
    Step::Many(class)
}

/// The step that takes the steps of `group`, or nothing.
fn maybe(group: Vec<Step>) -> (step: Step)
    ensures
        step@ == StepView::Maybe(pattern_of(group@)),
{
    proof {
        lemma_group_view(group);
    }
    Step::Maybe(group)
}

/// The step of a sign.
fn sign_step() -> (step: Step)
    ensures
        step@ == sign(),
{
    let mut group: Vec<Step> = Vec::new();
    group.push(one(CharClass::Either('+', '-')));
    assert(pattern_of(group@) =~= seq![StepView::One(CharClass::Either('+', '-'))]);
    maybe(group)
}

/// The pattern of `itype`.
fn itype_steps() -> (steps: Vec<Step>)
    ensures
        pattern_of(steps@) == itype_pattern(),
{
    let mut brackets: Vec<Step> = Vec::new();
    brackets.push(one(CharClass::Is('[')));
    brackets.push(many(CharClass::Digit));
    brackets.push(one(CharClass::Is(']')));
    assert(pattern_of(brackets@) =~= seq![
        StepView::One(CharClass::Is('[')),
        StepView::Many(CharClass::Digit),
        StepView::One(CharClass::Is(']')),
    ]);
    let mut steps: Vec<Step> = Vec::new();
    steps.push(one(CharClass::NameStart));
    steps.push(many(CharClass::TypeName));
    steps.push(maybe(brackets));
    assert(pattern_of(steps@) =~= itype_pattern());
    steps
}

/// The pattern of `identifier`.
fn identifier_steps() -> (steps: Vec<Step>)
    ensures
        pattern_of(steps@) == identifier_pattern(),
{
    let mut steps: Vec<Step> = Vec::new();
    steps.push(one(CharClass::NameStart));
    steps.push(many(CharClass::Name));
    assert(pattern_of(steps@) =~= identifier_pattern());
    steps
}

/// The pattern of `number`.
fn number_steps() -> (steps: Vec<Step>)
    ensures
        pattern_of(steps@) == number_pattern(),
{
    let mut fraction: Vec<Step> = Vec::new();
    fraction.push(one(CharClass::Is('.')));
    fraction.push(one(CharClass::Digit));
    fraction.push(many(CharClass::Digit));
    assert(pattern_of(fraction@) =~= seq![
        StepView::One(CharClass::Is('.')),
        StepView::One(CharClass::Digit),
        StepView::Many(CharClass::Digit),
    ]);
    let mut exponent: Vec<Step> = Vec::new();
    exponent.push(one(CharClass::Either('e', 'E')));
    exponent.push(sign_step());
    exponent.push(one(CharClass::Digit));
    exponent.push(many(CharClass::Digit));
    assert(pattern_of(exponent@) =~= seq![
        StepView::One(CharClass::Either('e', 'E')),
        sign(),
        StepView::One(CharClass::Digit),
        StepView::Many(CharClass::Digit),
    ]);
    let mut steps: Vec<Step> = Vec::new();
    steps.push(sign_step());
    steps.push(one(CharClass::Digit));
    steps.push(many(CharClass::Digit));
    steps.push(maybe(fraction));
    steps.push(maybe(exponent));
    assert(pattern_of(steps@) =~= number_pattern());
    steps
}

/// The pattern of `quoted` for one kind of quote.
fn quoted_steps(quote: char) -> (steps: Vec<Step>)
    ensures
        pattern_of(steps@) == quoted_pattern(quote),
{
    let mut steps: Vec<Step> = Vec::new();
    steps.push(one(CharClass::Is(quote)));
    steps.push(many(CharClass::Except(quote)));
    steps.push(one(CharClass::Is(quote)));
    assert(pattern_of(steps@) =~= quoted_pattern(quote));
    steps
}

impl Grammar {
    /// The grammar of a message definition.
    pub fn message() -> (grammar: Grammar)
        ensures
            grammar@ == message_grammar(),
    {
        let mut value: Vec<Vec<Step>> = Vec::new();
        value.push(number_steps());
        value.push(quoted_steps('"'));
        value.push(quoted_steps('\''));
        assert(choices_of(value@) =~= seq![
            number_pattern(),
            quoted_pattern('"'),
            quoted_pattern('\''),
        ]);
        Grammar { itype: itype_steps(), identifier: identifier_steps(), value }
    }
}

/// The lines of `s` from the position `from` on: the texts between its line feeds. A line
/// feed at the very end of the text ends the last line and starts no other.
pub open spec fn lines_from(s: Seq<char>, from: int) -> Seq<Seq<char>>
    decreases s.len() + 1 - from,
    via lines_from_ends
{
    if from < 0 || from >= s.len() {
        Seq::empty()
    } else {
        seq![s.subrange(from, line_end(s, from))] + lines_from(s, line_end(s, from) + 1)
    }
}

#[via_fn]
proof fn lines_from_ends(s: Seq<char>, from: int) {
    if 0 <= from < s.len() {
        lemma_run_end(s, from, CharClass::Except('\n'));
    }
}

/// The node of a line, if the line has one.
pub open spec fn node_at(g: GrammarView, line: Seq<char>) -> Option<PairView> {
    match line_node(g, line) {
        Ok(node) => node,
        Err(_) => None,
    }
}

/// The nodes of the lines that have one, in the order of the lines.
pub open spec fn nodes_among(g: GrammarView, lines: Seq<Seq<char>>) -> Seq<PairView> {
    lines.filter_map(|line: Seq<char>| node_at(g, line))
}

/// Whether the line `k` of `lines` is the first that the grammar does not recognise, and
/// `e` the error that says so when the first of the lines has the number `first`.
pub open spec fn is_first_error(
    g: GrammarView,
    lines: Seq<Seq<char>>,
    first: nat,
    k: int,
    e: SyntaxErrorView,
) -> bool {
    &&& 0 <= k < lines.len()
    &&& line_node(g, lines[k]) == Err::<Option<PairView>, Rule>(e.rule)
    &&& e.line == first + k
    &&& e.text == lines[k]
    &&& forall|j: int| 0 <= j < k ==> line_node(g, #[trigger] lines[j]) is Ok
}

/// The nodes of a line and of the lines after it are the node of the line, if it has one,
/// and then the nodes of the others.
proof fn lemma_nodes_among_first(g: GrammarView, line: Seq<char>, rest: Seq<Seq<char>>)
    ensures
        nodes_among(g, seq![line] + rest) == match node_at(g, line) {
            Some(node) => seq![node] + nodes_among(g, rest),
            None => nodes_among(g, rest),
        },
    decreases rest.len(),
{
    let all = seq![line] + rest;
    if rest.len() == 0 {
        assert(all.drop_last() =~= Seq::<Seq<char>>::empty());
        assert(nodes_among(g, all.drop_last()) =~= Seq::<PairView>::empty());
        assert(nodes_among(g, rest) =~= Seq::<PairView>::empty());
        assert(nodes_among(g, all) =~= match node_at(g, line) {
            Some(node) => seq![node] + nodes_among(g, rest),
            None => nodes_among(g, rest),
        });
    } else {
        assert(all.drop_last() =~= seq![line] + rest.drop_last());
        assert(all.last() == rest.last());
        lemma_nodes_among_first(g, line, rest.drop_last());
        assert(nodes_among(g, all) =~= match node_at(g, line) {
            Some(node) => seq![node] + nodes_among(g, rest),
            None => nodes_among(g, rest),
        });
    }
}

/// A text is parsed line by line. Where the grammar recognises every line, the nodes are
/// those of the lines in their order; else the error is that of the first line that it
/// does not recognise, with the number and the text of that line.
pub proof fn lemma_nodes_are_those_of_lines(g: GrammarView, s: Seq<char>, from: int, line: nat)
    ensures
        match nodes_from(g, s, from, line) {
            Ok(nodes) => {
                &&& nodes == nodes_among(g, lines_from(s, from))
                &&& forall|k: int|
                    0 <= k < lines_from(s, from).len() ==> line_node(
                        g,
                        #[trigger] lines_from(s, from)[k],
                    ) is Ok
            },
            Err(e) => exists|k: int| is_first_error(g, lines_from(s, from), line, k, e),
        },
    decreases s.len() + 1 - from,
{
    if 0 <= from < s.len() {
        lemma_run_end(s, from, CharClass::Except('\n'));
        let end = line_end(s, from);
        let text = s.subrange(from, end);
        let rest = lines_from(s, end + 1);
        let lines = lines_from(s, from);
        assert(lines == seq![text] + rest);
        let next = line + 1;
        lemma_nodes_are_those_of_lines(g, s, end + 1, next);
        lemma_nodes_among_first(g, text, rest);
        match line_node(g, text) {
            Err(rule) => {
                let e = SyntaxErrorView { line, rule, text };
                assert(is_first_error(g, lines, line, 0, e));
            },
            Ok(node) => {
                match nodes_from(g, s, end + 1, next) {
                    Err(e) => {
                        let k = choose|k: int| is_first_error(g, rest, next, k, e);
                        assert(lines[k + 1] == rest[k]);
                        assert forall|j: int| 0 <= j < k + 1 implies line_node(
                            g,
                            #[trigger] lines[j],
                        ) is Ok by {
                            if j > 0 {
                                assert(lines[j] == rest[j - 1]);
                            }
                        }
                        assert(is_first_error(g, lines, line, k + 1, e));
                    },
                    Ok(others) => {
                        assert forall|k: int| 0 <= k < lines.len() implies line_node(
                            g,
                            #[trigger] lines[k],
                        ) is Ok by {
                            if k > 0 {
                                assert(lines[k] == rest[k - 1]);
                            }
                        }
                    },
                }
            },
        }
    } else {
        assert(nodes_among(g, Seq::<Seq<char>>::empty()) =~= Seq::<PairView>::empty());
    }
}

} // verus!
