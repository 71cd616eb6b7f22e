//! The parse tree: what the grammar recognises in a message definition, before any of it
//! is interpreted.

use vstd::prelude::*;

verus! {

/// The productions of the grammar.
#[derive(Clone, Copy, PartialEq, Eq, Debug, Structural)]
pub enum Rule {
    /// A whole message definition: comments and definitions, in order.
    File,
    /// A constant or a field. It is recognised but leaves no node of its own.
    Definition,
    /// A type, a name, `=` and a value, with or without a comment after them.
    Constant,
    /// A type and a name, with or without a comment after them.
    Variable,
    /// The type of a constant or a field, as written.
    IType,
    /// The name of a constant or a field.
    Identifier,
    /// The literal that a constant stands for.
    Value,
    /// A remark from `#` to the end of its line.
    Comment,
}

/// A node of the parse tree: the production that matched, the text it matched, and the
/// nodes of the productions that matched inside it.
#[derive(Debug, PartialEq, Eq)]
pub struct Pair {
    pub rule: Rule,
    pub text: String,
    pub inner: Vec<Pair>,
}

/// The view of a node: its text as a sequence of characters, and the views of the nodes
/// inside it.
pub ghost struct PairView {
    pub rule: Rule,
    pub text: Seq<char>,
    pub inner: Seq<PairView>,
}

/// The view of a node: its rule, the characters of its text, and the views of the nodes
/// inside it.
pub open spec fn view_of(pair: Pair) -> PairView
    decreases pair,
{
    PairView {
        rule: pair.rule,
        text: pair.text@,
        inner: Seq::new(
            pair.inner@.len(),
            |i: int|
                if 0 <= i < pair.inner@.len() {
                    view_of(pair.inner[i])
                } else {
                    arbitrary()
                },
        ),
    }
}

impl View for Pair {
    type V = PairView;

    open spec fn view(&self) -> PairView {
        view_of(*self)
    }
}

impl Pair {
    /// A node without nodes inside it.
    pub fn leaf(rule: Rule, text: String) -> (pair: Pair)
        ensures
            pair@ == (PairView { rule, text: text@, inner: Seq::empty() }),
    {
        let pair = Pair { rule, text, inner: Vec::new() };
        assert(pair@.inner =~= Seq::empty());
        pair
    }

    /// A node around the nodes `inner`.
    pub fn node(rule: Rule, text: String, inner: Vec<Pair>) -> (pair: Pair)
        ensures
            pair@.rule == rule,
            pair@.text == text@,
            pair@.inner == views_of(inner@),
    {
        let pair = Pair { rule, text, inner };
        proof {
            lemma_inner_views(pair);
        }
        pair
    }
}

/// The nodes inside a view are the views of the nodes inside.
pub proof fn lemma_inner_views(pair: Pair)
    ensures
        pair@.inner == views_of(pair.inner@),
        pair@.inner.len() == pair.inner@.len(),
        forall|i: int| 0 <= i < pair.inner@.len() ==> pair@.inner[i] == (#[trigger] pair.inner@[i])@,
{
    assert forall|i: int| 0 <= i < pair.inner@.len() implies pair@.inner[i] == (
    #[trigger] pair.inner@[i])@ by {
        assert(decreases_to!(pair.inner => pair.inner[i]));
    }
    assert(pair@.inner =~= views_of(pair.inner@));
}

/// The views of a sequence of nodes.
pub open spec fn views_of(pairs: Seq<Pair>) -> Seq<PairView> {
    pairs.map_values(|p: Pair| p@)
}

} // verus!
