//! The parser: from the text of a message definition to its tree, as the grammar says.

use crate::error::{SyntaxError, SyntaxErrorView};
use crate::grammar::{
    comment_node, definition_node, layout_at, line_node, nodes_from, part_nodes, text_from, token,
    trailer, tree_of, tree_with, trimmed_len, Grammar, Layout,
};
use crate::pattern::{match_choice, match_steps};
use crate::text::{chars_of, position, scan_run, string_of, CharClass};
use crate::tree::{views_of, Pair, PairView, Rule};
use vstd::prelude::*;
use vstd::string::StringExecFns;

verus! {

/// Finds where the line ends when the blanks at its end are left off.
fn trimmed_end(s: &Vec<char>) -> (end: usize)
    ensures
        end == trimmed_len(s@),
        end <= s@.len(),
{
    let mut end: usize = s.len();
    assert(s@.take(end as int) =~= s@);
    while end > 0 && CharClass::Blank.contains(s[end - 1])
        invariant
            end <= s@.len(),
            trimmed_len(s@) == trimmed_len(s@.take(end as int)),
        decreases end,
    {
        assert(s@.take(end as int).drop_last() =~= s@.take(end - 1));
        end -= 1;
    }
    end
}

/// The text of the line from `from` to `stop`, the end of the line without its blanks.
fn text_after(s: &Vec<char>, from: usize, stop: usize) -> (text: String)
    requires
        from <= s@.len(),
        stop == trimmed_len(s@),
        stop <= s@.len(),
    ensures
        text@ == text_from(s@, from as int),
{
    if from < stop {
        string_of(s, from, stop)
    } else {
        String::new()
    }
}

/// The node of the comment whose `#` stands at `hash`.
fn comment_pair(s: &Vec<char>, hash: usize, stop: usize) -> (pair: Pair)
    requires
        hash < s@.len(),
        stop == trimmed_len(s@),
        stop <= s@.len(),
    ensures
        pair@ == comment_node(s@, hash as int),
{
    assert(hash < s.len());
    let from = scan_run(s, hash + 1, CharClass::Blank);
    Pair::leaf(Rule::Comment, text_after(s, from, stop))
}

/// The node of a token that was found between two positions.
fn token_pair(rule: Rule, s: &Vec<char>, from: usize, to: usize) -> (pair: Pair)
    requires
        from <= to <= s@.len(),
    ensures
        pair@ == token(rule, s@, from as int, to as int),
{
    Pair::leaf(rule, string_of(s, from, to))
}

/// Looks at what follows a definition: blanks to the end of the line, or a comment.
fn scan_trailer(s: &Vec<char>, from: usize) -> (r: Result<Option<usize>, Rule>)
    requires
        from <= s@.len(),
    ensures
        match r {
            Ok(hash) => trailer(s@, from as int) == Ok::<Option<int>, Rule>(position(hash)),
            Err(rule) => trailer(s@, from as int) == Err::<Option<int>, Rule>(rule),
        },
        r matches Ok(Some(hash)) ==> hash < s@.len(),
{
    let at = scan_run(s, from, CharClass::Blank);
    if at >= s.len() {
        Ok(None)
    } else if s[at] == '#' {
        Ok(Some(at))
    } else {
        Err(Rule::Comment)
    }
}

/// Where the parts of a definition were found.
struct Spans {
    typ: (usize, usize),
    name: (usize, usize),
    val: Option<(usize, usize)>,
    hash: Option<usize>,
}

impl Spans {
    /// The same positions as integers without bounds.
    spec fn layout(self) -> Layout {
        Layout {
            typ: (self.typ.0 as int, self.typ.1 as int),
            name: (self.name.0 as int, self.name.1 as int),
            val: match self.val {
                Some(val) => Some((val.0 as int, val.1 as int)),
                None => None,
            },
            hash: position(self.hash),
        }
    }

    /// Whether every part lies within the line `s`.
    spec fn within(self, s: Seq<char>) -> bool {
        &&& self.typ.0 <= self.typ.1 <= s.len()
        &&& self.name.0 <= self.name.1 <= s.len()
        &&& self.val matches Some(val) ==> val.0 <= val.1 <= s.len()
        &&& self.hash matches Some(hash) ==> hash < s.len()
    }
}

/// Finds the parts of the definition that starts at `start`.
fn scan_definition(grammar: &Grammar, s: &Vec<char>, start: usize) -> (r: Result<Spans, Rule>)
    requires
        start <= s@.len(),
    ensures
        match r {
            Ok(spans) => layout_at(grammar@, s@, start as int) == Ok::<Layout, Rule>(
                spans.layout(),
            ) && spans.within(s@),
            Err(rule) => layout_at(grammar@, s@, start as int) == Err::<Layout, Rule>(rule),
        },
{
    let type_end = match match_steps(&grammar.itype, s, start) {
        Some(end) => end,
        None => {
            return Err(Rule::Definition);
        },
    };
    let name_start = scan_run(s, type_end, CharClass::Blank);
    if name_start == type_end {
        return Err(Rule::Identifier);
    }
    let name_end = match match_steps(&grammar.identifier, s, name_start) {
        Some(end) => end,
        None => {
            return Err(Rule::Identifier);
        },
    };
    let sign = scan_run(s, name_end, CharClass::Blank);
    if sign < s.len() && s[sign] == '=' {
        let value_start = scan_run(s, sign + 1, CharClass::Blank);
        let end = match match_choice(&grammar.value, s, value_start) {
            Some(end) => end,
            None => {
                return Err(Rule::Value);
            },
        };
        match scan_trailer(s, end) {
            Err(rule) => Err(rule),
            Ok(hash) => Ok(
                Spans {
                    typ: (start, type_end),
                    name: (name_start, name_end),
                    val: Some((value_start, end)),
                    hash,
                },
            ),
        }
    } else {
        match scan_trailer(s, name_end) {
            Err(rule) => Err(rule),
            Ok(hash) => Ok(
                Spans { typ: (start, type_end), name: (name_start, name_end), val: None, hash },
            ),
        }
    }
}

/// Builds the node of a definition from its parts.
fn definition_pair(s: &Vec<char>, spans: &Spans, stop: usize) -> (pair: Pair)
    requires
        spans.within(s@),
        stop == trimmed_len(s@),
        stop <= s@.len(),
    ensures
        pair@ == definition_node(s@, spans.layout()),
{
    let mut parts: Vec<Pair> = Vec::new();
    parts.push(token_pair(Rule::IType, s, spans.typ.0, spans.typ.1));
    parts.push(token_pair(Rule::Identifier, s, spans.name.0, spans.name.1));
    let rule = match spans.val {
        Some(val) => {
            parts.push(token_pair(Rule::Value, s, val.0, val.1));
            Rule::Constant
        },
        None => Rule::Variable,
    };
    match spans.hash {
        Some(hash) => {
            parts.push(comment_pair(s, hash, stop));
        },
        None => {},
    }
    assert(views_of(parts@) =~= part_nodes(s@, spans.layout()));
    Pair::node(rule, text_after(s, spans.typ.0, stop), parts)
}

/// Parses one line, given as its characters without the line feed, with the tokens of
/// `grammar`.
pub fn parse_line(grammar: &Grammar, s: &Vec<char>) -> (r: Result<Option<Pair>, Rule>)
    ensures
        match r {
            Ok(Some(pair)) => line_node(grammar@, s@) == Ok::<Option<PairView>, Rule>(
                Some(pair@),
            ),
            Ok(None) => line_node(grammar@, s@) == Ok::<Option<PairView>, Rule>(None),
            Err(rule) => line_node(grammar@, s@) == Err::<Option<PairView>, Rule>(rule),
        },
{
    let start = scan_run(s, 0, CharClass::Blank);
    if start >= s.len() {
        return Ok(None);
    }
    let stop = trimmed_end(s);
    if s[start] == '#' {
        Ok(Some(comment_pair(s, start, stop)))
    } else {
        match scan_definition(grammar, s, start) {
            Ok(spans) => Ok(Some(definition_pair(s, &spans, stop))),
            Err(rule) => Err(rule),
        }
    }
}

/// The result of a text whose first lines gave the nodes `before` and whose other lines
/// give `rest`.
pub open spec fn after(before: Seq<PairView>, rest: Result<Seq<PairView>, SyntaxErrorView>) -> Result<
    Seq<PairView>,
    SyntaxErrorView,
> {
    match rest {
        Err(e) => Err(e),
        Ok(nodes) => Ok(before + nodes),
    }
}

/// The characters of one line.
fn line_of(s: &Vec<char>, from: usize, to: usize) -> (line: Vec<char>)
    requires
        from <= to <= s@.len(),
    ensures
        line@ == s@.subrange(from as int, to as int),
{
    let mut line: Vec<char> = Vec::new();
    let mut i: usize = from;
    while i < to
        invariant
            from <= i <= to <= s@.len(),
            line@ == s@.subrange(from as int, i as int),
        decreases to - i,
    {
        line.push(s[i]);
        assert(s@.subrange(from as int, i as int).push(s@[i as int]) == s@.subrange(
            from as int,
            i + 1,
        ));
        i += 1;
    }
    line
}

/// Parses the text `input` with the tokens of `grammar`. The tree has the rule `File` and
/// the whole text at its root, and under it one node for each comment line and each
/// definition, in the order of the lines. The first line that the grammar does not
/// recognise ends the parsing with its number, its text and the production that was
/// expected.
pub fn parse_with(grammar: &Grammar, input: &str) -> (r: Result<Pair, SyntaxError>)
    ensures
        match r {
            Ok(tree) => tree_with(grammar@, input@) == Ok::<PairView, SyntaxErrorView>(tree@),
            Err(e) => tree_with(grammar@, input@) == Err::<PairView, SyntaxErrorView>(e@),
        },
{
    let s = chars_of(input);
    let n = s.len();
    let mut nodes: Vec<Pair> = Vec::new();
    let mut from: usize = 0;
    let mut line: usize = 1;
    assert(views_of(nodes@) =~= Seq::empty());
    assert(Seq::<PairView>::empty() + Seq::<PairView>::empty() =~= Seq::<PairView>::empty());
    while from < n
        invariant
            s@ == input@,
            n == s@.len(),
            from <= n,
            1 <= line <= from + 1,
            nodes_from(grammar@, s@, 0, 1) == after(
                views_of(nodes@),
                nodes_from(grammar@, s@, from as int, line as nat),
            ),
        decreases n - from,
    {
        let end = scan_run(&s, from, CharClass::Except('\n'));
        let text = line_of(&s, from, end);
        let ghost before = views_of(nodes@);
        let ghost rest = nodes_from(grammar@, s@, end + 1, (line + 1) as nat);
        match parse_line(grammar, &text) {
            Err(rule) => {
                return Err(SyntaxError { line, rule, text: string_of(&s, from, end) });
            },
            Ok(Some(pair)) => {
                nodes.push(pair);
                assert(views_of(nodes@) =~= before.push(pair@));
                assert(rest matches Ok(others) ==> before + (seq![pair@] + others)
                    =~= before.push(pair@) + others);
            },
            Ok(None) => {},
        }
        if end >= n - 1 {
            assert(rest == Ok::<Seq<PairView>, SyntaxErrorView>(Seq::empty()));
            assert(views_of(nodes@) + Seq::<PairView>::empty() =~= views_of(nodes@));
            from = n;
        } else {
            from = end + 1;
            line = line + 1;
        }
    }
    assert(views_of(nodes@) + Seq::<PairView>::empty() =~= views_of(nodes@));
    Ok(Pair::node(Rule::File, String::from_str(input), nodes))
}

/// Parses a message definition.
pub fn parse_file(input: &str) -> (r: Result<Pair, SyntaxError>)
    ensures
        match r {
            Ok(tree) => tree_of(input@) == Ok::<PairView, SyntaxErrorView>(tree@),
            Err(e) => tree_of(input@) == Err::<PairView, SyntaxErrorView>(e@),
        },
{
    parse_with(&Grammar::message(), input)
}

} // verus!
