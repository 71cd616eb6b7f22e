//! From the text of a message definition to the record of its schema.

use crate::ast::{
    ast_of, constant_of, constants_among, definition_count, field_of, fields_among, last_text,
    lemma_every_definition_counts, lemma_message_is_its_definitions, lemma_no_definition,
    lemma_sound_nodes_are_message, node_error, stranger_from, tree_to_ast, ConstDefView,
    FieldDefView,
};
use crate::error::{CompileError, CompileErrorView};
use crate::grammar::{
    comment_of, definition_node, layout_at, lemma_nodes_are_those_of_lines, line_end, line_node,
    lines_from, message_grammar, nodes_among, nodes_from, tree_of, tree_with, GrammarView, Layout,
};
use crate::lower::{
    camel_case_of, compile_file, const_out_with, field_out_with, is_numbered, lemma_consts_out,
    lemma_fields_out, lemma_record_not_empty, record_of, ConstOutView, FieldOutView, SchemaRecord,
    SchemaRecordView,
};
use crate::mapping::{mapped_type, MappingErrorView};
use crate::parser::parse_file;
use crate::text::{lemma_run_end, run_end, CharClass};
use crate::tree::Rule;
use vstd::prelude::*;

verus! {

/// The record that the text `input` compiles to. The text is parsed, the message is read
/// off the tree and lowered; a text that defines neither a constant nor a field is refused
/// as empty. Each stage ends the compilation with its own error, and no record is given.
pub open spec fn compiled(
    input: Seq<char>,
    filename: Seq<char>,
    msg_name: Seq<char>,
    namespace: Seq<char>,
) -> Result<SchemaRecordView, CompileErrorView> {
    match tree_of(input) {
        Err(e) => Err(CompileErrorView::Syntax(e)),
        Ok(tree) => match ast_of(tree) {
            Err(e) => Err(CompileErrorView::Structure(e)),
            Ok(ast) => if ast.consts.len() == 0 && ast.fields.len() == 0 {
                Err(CompileErrorView::EmptyInput)
            } else {
                record_of(filename, msg_name, namespace, ast)
            },
        },
    }
}

/// Compiles the message definition `input`, which was read from the file `filename` and
/// defines the message `msg_name`, into the record of its schema in `namespace`.
pub fn compile_source(input: &str, filename: &str, msg_name: &str, namespace: &str) -> (r: Result<
    SchemaRecord,
    CompileError,
>)
    ensures
        match r {
            Ok(record) => compiled(input@, filename@, msg_name@, namespace@) == Ok::<
                SchemaRecordView,
                CompileErrorView,
            >(record@),
            Err(e) => compiled(input@, filename@, msg_name@, namespace@) == Err::<
                SchemaRecordView,
                CompileErrorView,
            >(e@),
        },
        r matches Ok(record) ==> is_numbered(record@),
{
    let tree = match parse_file(input) {
        Ok(tree) => tree,
        Err(e) => {
            return Err(CompileError::Syntax(e));
        },
    };
    let ast = match tree_to_ast(&tree) {
        Ok(ast) => ast,
        Err(e) => {
            return Err(CompileError::Structure(e));
        },
    };
    if ast.consts.len() == 0 && ast.fields.len() == 0 {
        return Err(CompileError::EmptyInput);
    }
    compile_file(filename, msg_name, namespace, &ast)
}

/// The node of a definition is sound, whatever its line holds, and the message has from it
/// the type, the name and the value exactly as they stand in the line, and the comment of
/// the line without its `#` and the blanks around it. A line without a comment gives the
/// empty comment and no error.
pub proof fn lemma_definition_reads_back(s: Seq<char>, layout: Layout)
    ensures
        node_error(definition_node(s, layout)) is None,
        layout.val matches Some(val) ==> definition_node(s, layout).rule == Rule::Constant
            && constant_of(definition_node(s, layout)) == (ConstDefView {
            typ: s.subrange(layout.typ.0, layout.typ.1),
            name: s.subrange(layout.name.0, layout.name.1),
            val: s.subrange(val.0, val.1),
            comment: comment_of(s, layout.hash),
        }),
        layout.val is None ==> definition_node(s, layout).rule == Rule::Variable && field_of(
            definition_node(s, layout),
        ) == (FieldDefView {
            typ: s.subrange(layout.typ.0, layout.typ.1),
            name: s.subrange(layout.name.0, layout.name.1),
            comment: comment_of(s, layout.hash),
        }),
{
    let node = definition_node(s, layout);
    let parts = node.inner;
    reveal_with_fuel(stranger_from, 5);
    reveal_with_fuel(last_text, 5);
    assert(stranger_from(parts, node.rule, 0) is None);
    if layout.val is Some {
        if layout.hash is Some {
            assert(parts.drop_last().drop_last().drop_last() =~= seq![parts[0]]);
            assert(parts.drop_last().drop_last() =~= seq![parts[0], parts[1]]);
            assert(parts.drop_last() =~= seq![parts[0], parts[1], parts[2]]);
        } else {
            assert(parts.drop_last().drop_last() =~= seq![parts[0]]);
            assert(parts.drop_last() =~= seq![parts[0], parts[1]]);
        }
    } else {
        if layout.hash is Some {
            assert(parts.drop_last().drop_last() =~= seq![parts[0]]);
            assert(parts.drop_last() =~= seq![parts[0], parts[1]]);
        } else {
            assert(parts.drop_last() =~= seq![parts[0]]);
        }
    }
}

/// Every node that a grammar gives for a line is sound, whatever the forms of its tokens:
/// it is a comment, or a definition with all its parts.
pub proof fn lemma_line_node_is_sound(g: GrammarView, s: Seq<char>)
    ensures
        line_node(g, s) matches Ok(Some(node)) ==> node_error(node) is None,
{
    let start = run_end(s, 0, CharClass::Blank);
    if let Ok(layout) = layout_at(g, s, start) {
        lemma_definition_reads_back(s, layout);
    }
}

/// Every node of the lines of a text is sound.
pub proof fn lemma_parsed_nodes_are_sound(g: GrammarView, s: Seq<char>, from: int, line: nat)
    ensures
        nodes_from(g, s, from, line) matches Ok(nodes) ==> forall|k: int|
            0 <= k < nodes.len() ==> node_error(#[trigger] nodes[k]) is None,
    decreases s.len() + 1 - from,
{
    if 0 <= from < s.len() {
        lemma_run_end(s, from, CharClass::Except('\n'));
        let end = line_end(s, from);
        let text = s.subrange(from, end);
        lemma_line_node_is_sound(g, text);
        lemma_parsed_nodes_are_sound(g, s, end + 1, line + 1);
    }
}

/// The tree of a text that a grammar recognises is the tree of a message: reading the
/// message off it does not fail.
pub proof fn lemma_parsed_tree_is_message(g: GrammarView, input: Seq<char>)
    ensures
        tree_with(g, input) matches Ok(tree) ==> ast_of(tree) is Ok,
{
    lemma_parsed_nodes_are_sound(g, input, 0, 1);
    if let Ok(tree) = tree_with(g, input) {
        lemma_sound_nodes_are_message(tree.inner);
    }
}

/// On its way from the text to the record a compilation stops for a line that the grammar
/// does not recognise, for a text without definitions, for a type that cannot be mapped or
/// for more definitions than ordinals: never for the shape of the tree.
pub proof fn lemma_no_structural_error(
    input: Seq<char>,
    filename: Seq<char>,
    msg_name: Seq<char>,
    namespace: Seq<char>,
)
    ensures
        !(compiled(input, filename, msg_name, namespace) matches Err(
            CompileErrorView::Structure(_),
        )),
{
    lemma_parsed_tree_is_message(message_grammar(), input);
}

/// A text is refused as empty exactly when the grammar recognises it and finds neither a
/// constant nor a field in it.
pub proof fn lemma_empty_means_no_definition(
    input: Seq<char>,
    filename: Seq<char>,
    msg_name: Seq<char>,
    namespace: Seq<char>,
)
    ensures
        compiled(input, filename, msg_name, namespace) == Err::<
            SchemaRecordView,
            CompileErrorView,
        >(CompileErrorView::EmptyInput) <==> (tree_of(input) matches Ok(tree) && forall|k: int|
            0 <= k < tree.inner.len() ==> (#[trigger] tree.inner[k]).rule == Rule::Comment),
{
    lemma_parsed_tree_is_message(message_grammar(), input);
    lemma_parsed_nodes_are_sound(message_grammar(), input, 0, 1);
    if let Ok(tree) = tree_of(input) {
        let ast = ast_of(tree)->Ok_0;
        lemma_every_definition_counts(tree.inner);
        lemma_no_definition(tree.inner);
        lemma_record_not_empty(filename, msg_name, namespace, ast);
        if forall|k: int|
            0 <= k < tree.inner.len() ==> (#[trigger] tree.inner[k]).rule == Rule::Comment {
            assert(definition_count(tree.inner) == 0);
        }
        if definition_count(tree.inner) == 0 {
            assert forall|k: int| 0 <= k < tree.inner.len() implies (#[trigger] tree.inner[k]).rule
                == Rule::Comment by {
                assert(node_error(tree.inner[k]) is None);
            }
        }
    }
}

/// The empty text is refused as empty.
pub proof fn lemma_empty_text_is_refused(
    filename: Seq<char>,
    msg_name: Seq<char>,
    namespace: Seq<char>,
)
    ensures
        compiled(Seq::empty(), filename, msg_name, namespace) == Err::<
            SchemaRecordView,
            CompileErrorView,
        >(CompileErrorView::EmptyInput),
{
    let tree = tree_of(Seq::<char>::empty())->Ok_0;
    assert(tree.inner =~= Seq::empty());
}

/// The record of a text follows its lines. Its constants are those of the lines that define
/// a constant, in the order of the lines and numbered from 0 in that order, and its fields
/// are those of the lines that define a field, in their order and numbered by themselves.
/// Each has the name of its line in camel case, the schema type that the type of its line
/// maps to, and the value and the comment of its line as they stand there.
pub proof fn lemma_record_follows_the_lines(
    input: Seq<char>,
    filename: Seq<char>,
    msg_name: Seq<char>,
    namespace: Seq<char>,
)
    requires
        compiled(input, filename, msg_name, namespace) is Ok,
    ensures
        ({
            let record = compiled(input, filename, msg_name, namespace)->Ok_0;
            let nodes = nodes_among(message_grammar(), lines_from(input, 0));
            let consts = constants_among(nodes);
            let fields = fields_among(nodes);
            &&& record.consts.len() == consts.len()
            &&& record.fields.len() == fields.len()
            &&& forall|i: int|
                0 <= i < consts.len() ==> #[trigger] record.consts[i] == (ConstOutView {
                    name: camel_case_of(consts[i].name),
                    typ: mapped_type(consts[i].typ)->0,
                    val: consts[i].val,
                    comment: consts[i].comment,
                    id: i as nat,
                })
            &&& forall|i: int|
                0 <= i < fields.len() ==> #[trigger] record.fields[i] == (FieldOutView {
                    name: camel_case_of(fields[i].name),
                    typ: mapped_type(fields[i].typ)->0,
                    comment: fields[i].comment,
                    id: i as nat,
                })
        }),
{
    let record = compiled(input, filename, msg_name, namespace)->Ok_0;
    let tree = tree_of(input)->Ok_0;
    let ast = ast_of(tree)->Ok_0;
    lemma_nodes_are_those_of_lines(message_grammar(), input, 0, 1);
    lemma_message_is_its_definitions(tree.inner);
    lemma_consts_out(ast.consts);
    lemma_fields_out(ast.fields);
    assert forall|i: int| 0 <= i < ast.consts.len() implies #[trigger] record.consts[i] == (
    ConstOutView {
        name: camel_case_of(ast.consts[i].name),
        typ: mapped_type(ast.consts[i].typ)->0,
        val: ast.consts[i].val,
        comment: ast.consts[i].comment,
        id: i as nat,
    }) by {
        assert(const_out_with(ast.consts[i], camel_case_of(ast.consts[i].name), i as nat) == Ok::<
            ConstOutView,
            MappingErrorView,
        >(record.consts[i]));
    }
    assert forall|i: int| 0 <= i < ast.fields.len() implies #[trigger] record.fields[i] == (
    FieldOutView {
        name: camel_case_of(ast.fields[i].name),
        typ: mapped_type(ast.fields[i].typ)->0,
        comment: ast.fields[i].comment,
        id: i as nat,
    }) by {
        assert(field_out_with(ast.fields[i], camel_case_of(ast.fields[i].name), i as nat) == Ok::<
            FieldOutView,
            MappingErrorView,
        >(record.fields[i]));
    }
}

} // verus!
