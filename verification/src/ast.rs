//! The abstract syntax of a message, and how it is read off a parse tree.

use crate::tree::{lemma_inner_views, Pair, PairView, Rule};
use vstd::prelude::*;

verus! {

/// A constant as its definition states it.
#[derive(Debug, PartialEq, Eq)]
pub struct ConstDef {
    pub typ: String,
    pub name: String,
    pub val: String,
    pub comment: String,
}

/// A field as its definition states it.
#[derive(Debug, PartialEq, Eq)]
pub struct FieldDef {
    pub typ: String,
    pub name: String,
    pub comment: String,
}

/// A message: its constants and its fields, each in the order of their definitions.
#[derive(Debug, PartialEq, Eq)]
pub struct ASTDef {
    pub consts: Vec<ConstDef>,
    pub fields: Vec<FieldDef>,
}

/// The view of a constant: its texts as sequences of characters.
pub ghost struct ConstDefView {
    pub typ: Seq<char>,
    pub name: Seq<char>,
    pub val: Seq<char>,
    pub comment: Seq<char>,
}

/// The view of a field: its texts as sequences of characters.
pub ghost struct FieldDefView {
    pub typ: Seq<char>,
    pub name: Seq<char>,
    pub comment: Seq<char>,
}

/// The view of a message: the views of its constants and of its fields.
pub ghost struct ASTDefView {
    pub consts: Seq<ConstDefView>,
    pub fields: Seq<FieldDefView>,
}

impl View for ConstDef {
    type V = ConstDefView;

    open spec fn view(&self) -> ConstDefView {
        ConstDefView { typ: self.typ@, name: self.name@, val: self.val@, comment: self.comment@ }
    }
}

impl View for FieldDef {
    type V = FieldDefView;

    open spec fn view(&self) -> FieldDefView {
        FieldDefView { typ: self.typ@, name: self.name@, comment: self.comment@ }
    }
}

impl View for ASTDef {
    type V = ASTDefView;

    open spec fn view(&self) -> ASTDefView {
        ASTDefView {
            consts: self.consts@.map_values(|c: ConstDef| c@),
            fields: self.fields@.map_values(|f: FieldDef| f@),
        }
    }
}

/// A parse tree that is no message.
#[derive(Debug, PartialEq, Eq)]
pub enum StructuralError {
    /// A node of a production that has no place where it stands, with the text it matched.
    UnexpectedRule { rule: Rule, text: String },
    /// A definition without a part that it must have, with the text of the definition.
    MissingElement { definition: Rule, missing: Rule, text: String },
}

/// The view of a structural error.
pub ghost enum StructuralErrorView {
    UnexpectedRule { rule: Rule, text: Seq<char> },
    MissingElement { definition: Rule, missing: Rule, text: Seq<char> },
}

impl View for StructuralError {
    type V = StructuralErrorView;

    open spec fn view(&self) -> StructuralErrorView {
        match *self {
            StructuralError::UnexpectedRule { rule, text } => StructuralErrorView::UnexpectedRule {
                rule,
                text: text@,
            },
            StructuralError::MissingElement {
                definition,
                missing,
                text,
            } => StructuralErrorView::MissingElement { definition, missing, text: text@ },
        }
    }
}

/// Whether a node of the production `part` may stand in a definition: a type, a name and a
/// comment in both kinds, a value in a constant alone.
pub open spec fn is_part_of(definition: Rule, part: Rule) -> bool {
    ||| part == Rule::IType
    ||| part == Rule::Identifier
    ||| part == Rule::Comment
    ||| (part == Rule::Value && definition == Rule::Constant)
}

/// The first node at or after `from` that may not stand in the definition.
pub open spec fn stranger_from(parts: Seq<PairView>, definition: Rule, from: int) -> Option<int>
    decreases parts.len() - from,
{
    if from < 0 || from >= parts.len() {
        None
    } else if !is_part_of(definition, parts[from].rule) {
        Some(from)
    } else {
        stranger_from(parts, definition, from + 1)
    }
}

/// The text of the last node of the production `rule` among `parts`.
pub open spec fn last_text(parts: Seq<PairView>, rule: Rule) -> Option<Seq<char>>
    decreases parts.len(),
{
    if parts.len() == 0 {
        None
    } else if parts.last().rule == rule {
        Some(parts.last().text)
    } else {
        last_text(parts.drop_last(), rule)
    }
}

/// The text of a comment, or the empty text where there is none.
pub open spec fn comment_text(comment: Option<Seq<char>>) -> Seq<char> {
    match comment {
        Some(c) => c,
        None => Seq::empty(),
    }
}

/// The part that a definition of the kind `definition` must have and `node` lacks, if any:
/// its type before its name, its name before the value of a constant.
pub open spec fn missing_part(node: PairView, definition: Rule) -> Option<Rule> {
    if last_text(node.inner, Rule::IType) is None {
        Some(Rule::IType)
    } else if last_text(node.inner, Rule::Identifier) is None {
        Some(Rule::Identifier)
    } else if definition == Rule::Constant && last_text(node.inner, Rule::Value) is None {
        Some(Rule::Value)
    } else {
        None
    }
}

/// What is wrong with `node` as a definition of the kind `definition`, if anything: the
/// first node in it that may not stand there, else the first part that it lacks.
pub open spec fn definition_error(node: PairView, definition: Rule) -> Option<StructuralErrorView> {
    match stranger_from(node.inner, definition, 0) {
        Some(i) => Some(
            StructuralErrorView::UnexpectedRule {
                rule: node.inner[i].rule,
                text: node.inner[i].text,
            },
        ),
        None => match missing_part(node, definition) {
            Some(missing) => Some(
                StructuralErrorView::MissingElement { definition, missing, text: node.text },
            ),
            None => None,
        },
    }
}

/// The constant that a sound node states. Where a part occurs more than once, the last
/// occurrence counts.
pub open spec fn constant_of(node: PairView) -> ConstDefView {
    ConstDefView {
        typ: last_text(node.inner, Rule::IType)->0,
        name: last_text(node.inner, Rule::Identifier)->0,
        val: last_text(node.inner, Rule::Value)->0,
        comment: comment_text(last_text(node.inner, Rule::Comment)),
    }
}

/// The field that a sound node states.
pub open spec fn field_of(node: PairView) -> FieldDefView {
    FieldDefView {
        typ: last_text(node.inner, Rule::IType)->0,
        name: last_text(node.inner, Rule::Identifier)->0,
        comment: comment_text(last_text(node.inner, Rule::Comment)),
    }
}

/// What is wrong with `node` as a node of a file, if anything. Comments are passed over,
/// constants and fields are held to their parts, and nothing else may stand there.
pub open spec fn node_error(node: PairView) -> Option<StructuralErrorView> {
    match node.rule {
        Rule::Comment => None,
        Rule::Constant => definition_error(node, Rule::Constant),
        Rule::Variable => definition_error(node, Rule::Variable),
        _ => Some(StructuralErrorView::UnexpectedRule { rule: node.rule, text: node.text }),
    }
}

/// The message that `nodes` state, or what is wrong with the first node that is not sound.
/// Constants and fields keep the order in which their nodes stand.
pub open spec fn ast_of_nodes(nodes: Seq<PairView>) -> Result<ASTDefView, StructuralErrorView>
    decreases nodes.len(),
{
    if nodes.len() == 0 {
        Ok(ASTDefView { consts: Seq::empty(), fields: Seq::empty() })
    } else {
        match ast_of_nodes(nodes.drop_last()) {
            Err(e) => Err(e),
            Ok(ast) => match node_error(nodes.last()) {
                Some(e) => Err(e),
                None => match nodes.last().rule {
                    Rule::Constant => Ok(
                        ASTDefView { consts: ast.consts.push(constant_of(nodes.last())), ..ast },
                    ),
                    Rule::Variable => Ok(
                        ASTDefView { fields: ast.fields.push(field_of(nodes.last())), ..ast },
                    ),
                    _ => Ok(ast),
                },
            },
        }
    }
}

/// The message that the tree of a file states.
pub open spec fn ast_of(tree: PairView) -> Result<ASTDefView, StructuralErrorView> {
    ast_of_nodes(tree.inner)
}

/// The parts of a definition as they are gathered from its nodes.
struct Parts {
    typ: Option<String>,
    name: Option<String>,
    val: Option<String>,
    comment: Option<String>,
}

/// The view of a text that may be missing.
spec fn text_view(text: Option<String>) -> Option<Seq<char>> {
    match text {
        Some(t) => Some(t@),
        None => None,
    }
}

impl Parts {
    /// Whether each part is the text of the last node of its production among `parts`.
    spec fn gathered_from(self, parts: Seq<PairView>) -> bool {
        &&& text_view(self.typ) == last_text(parts, Rule::IType)
        &&& text_view(self.name) == last_text(parts, Rule::Identifier)
        &&& text_view(self.val) == last_text(parts, Rule::Value)
        &&& text_view(self.comment) == last_text(parts, Rule::Comment)
    }
}

/// Gathers the parts of the definition `node`, and stops at a node that may not stand in it.
fn gather_parts(node: &Pair, definition: Rule) -> (r: Result<Parts, StructuralError>)
    requires
        definition == Rule::Constant || definition == Rule::Variable,
    ensures
        match r {
            Ok(parts) => stranger_from(node@.inner, definition, 0) is None && parts.gathered_from(
                node@.inner,
            ),
            Err(e) => stranger_from(node@.inner, definition, 0) matches Some(i) && e@ == (
            StructuralErrorView::UnexpectedRule {
                rule: node@.inner[i].rule,
                text: node@.inner[i].text,
            }),
        },
{
    let mut parts = Parts { typ: None, name: None, val: None, comment: None };
    let ghost inner = node@.inner;
    let mut i: usize = 0;
    proof {
        lemma_inner_views(*node);
    }
    assert(inner.take(0) =~= Seq::empty());
    while i < node.inner.len()
        invariant
            i <= node.inner@.len(),
            inner == node@.inner,
            inner.len() == node.inner@.len(),
            forall|k: int| 0 <= k < inner.len() ==> inner[k] == (#[trigger] node.inner@[k])@,
            stranger_from(inner, definition, 0) == stranger_from(inner, definition, i as int),
            parts.gathered_from(inner.take(i as int)),
        decreases node.inner@.len() - i,
    {
        let part = &node.inner[i];
        proof {
            assert(inner[i as int] == part@);
            assert(inner.take(i + 1).drop_last() =~= inner.take(i as int));
            assert(inner.take(i + 1).last() == part@);
        }
        match part.rule {
            Rule::IType => {
                parts.typ = Some(part.text.clone());
            },
            Rule::Identifier => {
                parts.name = Some(part.text.clone());
            },
            Rule::Comment => {
                parts.comment = Some(part.text.clone());
            },
            Rule::Value => {
                if definition == Rule::Constant {
                    parts.val = Some(part.text.clone());
                } else {
                    return Err(
                        StructuralError::UnexpectedRule { rule: part.rule, text: part.text.clone() },
                    );
                }
            },
            _ => {
                return Err(
                    StructuralError::UnexpectedRule { rule: part.rule, text: part.text.clone() },
                );
            },
        }
        i += 1;
    }
    assert(inner.take(i as int) =~= inner);
    Ok(parts)
}

/// The error of the definition `node` that lacks the part `missing`.
fn lacks(definition: Rule, missing: Rule, node: &Pair) -> (e: StructuralError)
    ensures
        e@ == (StructuralErrorView::MissingElement { definition, missing, text: node@.text }),
{
    StructuralError::MissingElement { definition, missing, text: node.text.clone() }
}

/// The comment, or the empty text where there is none.
fn or_empty(comment: Option<String>) -> (text: String)
    ensures
        text@ == comment_text(text_view(comment)),
{
    match comment {
        Some(c) => c,
        None => String::new(),
    }
}

/// Reads a constant off its node.
pub fn constant_from(node: &Pair) -> (r: Result<ConstDef, StructuralError>)
    ensures
        match r {
            Ok(c) => definition_error(node@, Rule::Constant) is None && c@ == constant_of(node@),
            Err(e) => definition_error(node@, Rule::Constant) == Some(e@),
        },
{
    let parts = gather_parts(node, Rule::Constant)?;
    let Parts { typ, name, val, comment } = parts;
    match typ {
        None => Err(lacks(Rule::Constant, Rule::IType, node)),
        Some(typ) => match name {
            None => Err(lacks(Rule::Constant, Rule::Identifier, node)),
            Some(name) => match val {
                None => Err(lacks(Rule::Constant, Rule::Value, node)),
                Some(val) => Ok(ConstDef { typ, name, val, comment: or_empty(comment) }),
            },
        },
    }
}

/// Reads a field off its node.
pub fn field_from(node: &Pair) -> (r: Result<FieldDef, StructuralError>)
    ensures
        match r {
            Ok(f) => definition_error(node@, Rule::Variable) is None && f@ == field_of(node@),
            Err(e) => definition_error(node@, Rule::Variable) == Some(e@),
        },
{
    let parts = gather_parts(node, Rule::Variable)?;
    let Parts { typ, name, val, comment } = parts;
    match typ {
        None => Err(lacks(Rule::Variable, Rule::IType, node)),
        Some(typ) => match name {
            None => Err(lacks(Rule::Variable, Rule::Identifier, node)),
            Some(name) => Ok(FieldDef { typ, name, comment: or_empty(comment) }),
        },
    }
}

/// Reads the message off the tree of a file. The nodes directly under `tree` are taken in
/// order: a comment is passed over, a constant and a field are read with their parts, and
/// any other node, or a definition that is not sound, ends the reading with an error and
/// without a message.
pub fn tree_to_ast(tree: &Pair) -> (r: Result<ASTDef, StructuralError>)
    ensures
        match r {
            Ok(ast) => ast_of(tree@) == Ok::<ASTDefView, StructuralErrorView>(ast@),
            Err(e) => ast_of(tree@) == Err::<ASTDefView, StructuralErrorView>(e@),
        },
{
    let mut ast = ASTDef { consts: Vec::new(), fields: Vec::new() };
    let ghost nodes = tree@.inner;
    let mut i: usize = 0;
    proof {
        lemma_inner_views(*tree);
    }
    assert(nodes.take(0) =~= Seq::empty());
    assert(ast@.consts =~= Seq::empty() && ast@.fields =~= Seq::empty());
    while i < tree.inner.len()
        invariant
            i <= tree.inner@.len(),
            nodes == tree@.inner,
            nodes.len() == tree.inner@.len(),
            forall|k: int| 0 <= k < nodes.len() ==> nodes[k] == (#[trigger] tree.inner@[k])@,
            ast_of_nodes(nodes.take(i as int)) == Ok::<ASTDefView, StructuralErrorView>(ast@),
        decreases tree.inner@.len() - i,
    {
        let node = &tree.inner[i];
        let ghost before = ast@;
        proof {
            assert(nodes[i as int] == node@);
            assert(nodes.take(i + 1).drop_last() =~= nodes.take(i as int));
            assert(nodes.take(i + 1).last() == node@);
        }
        match node.rule {
            Rule::Constant => {
                match constant_from(node) {
                    Ok(c) => {
                        ast.consts.push(c);
                        assert(ast@.consts =~= before.consts.push(c@));
                        assert(ast@.fields =~= before.fields);
                    },
                    Err(e) => {
                        proof {
                            lemma_error_stays(nodes, i + 1);
                        }
                        return Err(e);
                    },
                }
            },
            Rule::Variable => {
                match field_from(node) {
                    Ok(f) => {
                        ast.fields.push(f);
                        assert(ast@.fields =~= before.fields.push(f@));
                        assert(ast@.consts =~= before.consts);
                    },
                    Err(e) => {
                        proof {
                            lemma_error_stays(nodes, i + 1);
                        }
                        return Err(e);
                    },
                }
            },
            Rule::Comment => {},
            _ => {
                proof {
                    lemma_error_stays(nodes, i + 1);
                }
                return Err(
                    StructuralError::UnexpectedRule { rule: node.rule, text: node.text.clone() },
                );
            },
        }
        i += 1;
    }
    assert(nodes.take(i as int) =~= nodes);
    Ok(ast)
}

/// An error among the first `n` nodes is the error of all the nodes.
pub proof fn lemma_error_stays(nodes: Seq<PairView>, n: int)
    requires
        0 <= n <= nodes.len(),
        ast_of_nodes(nodes.take(n)) is Err,
    ensures
        ast_of_nodes(nodes) == ast_of_nodes(nodes.take(n)),
    decreases nodes.len() - n,
{
    if n < nodes.len() {
        assert(nodes.take(n + 1).drop_last() =~= nodes.take(n));
        lemma_error_stays(nodes, n + 1);
    } else {
        assert(nodes.take(n) =~= nodes);
    }
}

/// How many of `nodes` are constants or fields.
pub open spec fn definition_count(nodes: Seq<PairView>) -> nat
    decreases nodes.len(),
{
    if nodes.len() == 0 {
        0
    } else {
        definition_count(nodes.drop_last()) + if nodes.last().rule == Rule::Constant
            || nodes.last().rule == Rule::Variable {
            1nat
        } else {
            0nat
        }
    }
}

/// Nodes of which none is unsound state a message, and nodes of which one is unsound do
/// not.
pub proof fn lemma_sound_nodes_are_message(nodes: Seq<PairView>)
    ensures
        ast_of_nodes(nodes) is Ok <==> forall|k: int|
            0 <= k < nodes.len() ==> node_error(#[trigger] nodes[k]) is None,
    decreases nodes.len(),
{
    if nodes.len() > 0 {
        let front = nodes.drop_last();
        lemma_sound_nodes_are_message(front);
        assert(forall|k: int| 0 <= k < front.len() ==> front[k] == nodes[k]);
        if ast_of_nodes(nodes) is Ok {
            assert forall|k: int| 0 <= k < nodes.len() implies node_error(#[trigger] nodes[k])
                is None by {
                if k < front.len() {
                    assert(front[k] == nodes[k]);
                }
            }
        }
    }
}

/// A message has as many constants and fields together as its tree has nodes of constants
/// and of fields: every definition is kept, and nothing else comes in.
pub proof fn lemma_every_definition_counts(nodes: Seq<PairView>)
    requires
        ast_of_nodes(nodes) is Ok,
    ensures
        ast_of_nodes(nodes)->Ok_0.consts.len() + ast_of_nodes(nodes)->Ok_0.fields.len()
            == definition_count(nodes),
    decreases nodes.len(),
{
    if nodes.len() > 0 {
        lemma_every_definition_counts(nodes.drop_last());
    }
}

/// There is no definition among `nodes` exactly when none of them is a constant or a field.
pub proof fn lemma_no_definition(nodes: Seq<PairView>)
    ensures
        definition_count(nodes) == 0 <==> forall|k: int|
            0 <= k < nodes.len() ==> (#[trigger] nodes[k]).rule != Rule::Constant && nodes[k].rule
                != Rule::Variable,
    decreases nodes.len(),
{
    if nodes.len() > 0 {
        let front = nodes.drop_last();
        lemma_no_definition(front);
        assert(forall|k: int| 0 <= k < front.len() ==> front[k] == nodes[k]);
        if definition_count(nodes) == 0 {
            assert forall|k: int| 0 <= k < nodes.len() implies (#[trigger] nodes[k]).rule
                != Rule::Constant && nodes[k].rule != Rule::Variable by {
                if k < front.len() {
                    assert(front[k] == nodes[k]);
                }
            }
        }
    }
}

/// The constant that a node states, if it is the node of a constant.
pub open spec fn constant_at(node: PairView) -> Option<ConstDefView> {
    if node.rule == Rule::Constant {
        Some(constant_of(node))
    } else {
        None
    }
}

/// The field that a node states, if it is the node of a field.
pub open spec fn field_at(node: PairView) -> Option<FieldDefView> {
    if node.rule == Rule::Variable {
        Some(field_of(node))
    } else {
        None
    }
}

/// The constants that the nodes of constants among `nodes` state, in the order of the nodes.
pub open spec fn constants_among(nodes: Seq<PairView>) -> Seq<ConstDefView> {
    nodes.filter_map(|node: PairView| constant_at(node))
}

/// The fields that the nodes of fields among `nodes` state, in the order of the nodes.
pub open spec fn fields_among(nodes: Seq<PairView>) -> Seq<FieldDefView> {
    nodes.filter_map(|node: PairView| field_at(node))
}

/// A message holds the constants of its tree and the fields of its tree, each kind in the
/// order in which its nodes stand, and nothing besides.
pub proof fn lemma_message_is_its_definitions(nodes: Seq<PairView>)
    requires
        ast_of_nodes(nodes) is Ok,
    ensures
        ast_of_nodes(nodes)->Ok_0.consts == constants_among(nodes),
        ast_of_nodes(nodes)->Ok_0.fields == fields_among(nodes),
    decreases nodes.len(),
{
    if nodes.len() > 0 {
        lemma_message_is_its_definitions(nodes.drop_last());
        let front = ast_of_nodes(nodes.drop_last())->Ok_0;
        let last = nodes.last();
        assert(constants_among(nodes) == match constant_at(last) {
            Some(c) => constants_among(nodes.drop_last()) + seq![c],
            None => constants_among(nodes.drop_last()),
        });
        assert(fields_among(nodes) == match field_at(last) {
            Some(f) => fields_among(nodes.drop_last()) + seq![f],
            None => fields_among(nodes.drop_last()),
        });
        assert(front.consts + seq![constant_of(last)] =~= front.consts.push(constant_of(last)));
        assert(front.fields + seq![field_of(last)] =~= front.fields.push(field_of(last)));
    }
}

} // verus!
