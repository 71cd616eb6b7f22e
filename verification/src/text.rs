//! Characters, character classes and the runs they form: the lexical layer under the grammar.

use vstd::prelude::*;

verus! {

/// `String::push` of the standard library. Taken on trust from its documentation: the string
/// after the call is the string before it with `c` appended.
pub assume_specification[ String::push ](s: &mut String, c: char)
    ensures
        final(s)@ == old(s)@.push(c),
;

/// A set of characters, from which a step of a pattern takes its characters.
#[derive(Clone, Copy, PartialEq, Eq, Debug, Structural)]
pub enum CharClass {
    /// Space, tab and carriage return.
    Blank,
    /// The decimal digits.
    Digit,
    /// Letters and the underscore: what a name starts with.
    NameStart,
    /// Letters, digits and the underscore: what a name continues with.
    Name,
    /// What a name continues with, and the slash that parts a package from a type.
    TypeName,
    /// The one character given.
    Is(char),
    /// The two characters given.
    Either(char, char),
    /// Every character but the one given.
    Except(char),
}

/// The blanks that may stand between the tokens of a line: space, tab and carriage return.
pub open spec fn is_blank(c: char) -> bool {
    c == ' ' || c == '\t' || c == '\r'
}

/// The decimal digits.
pub open spec fn is_digit(c: char) -> bool {
    '0' <= c <= '9'
}

/// The letters from `a` to `z`, small or capital.
pub open spec fn is_letter(c: char) -> bool {
    'a' <= c <= 'z' || 'A' <= c <= 'Z'
}

/// A name starts with a letter or an underscore.
pub open spec fn is_name_start(c: char) -> bool {
    is_letter(c) || c == '_'
}

impl CharClass {
    /// Whether `c` belongs to the class.
    pub open spec fn holds(self, c: char) -> bool {
        match self {
            CharClass::Blank => is_blank(c),
            CharClass::Digit => is_digit(c),
            CharClass::NameStart => is_name_start(c),
            CharClass::Name => is_name_start(c) || is_digit(c),
            CharClass::TypeName => is_name_start(c) || is_digit(c) || c == '/',
            CharClass::Is(x) => c == x,
            CharClass::Either(x, y) => c == x || c == y,
            CharClass::Except(x) => c != x,
        }
    }

    /// Tells whether `c` belongs to the class.
    pub fn contains(self, c: char) -> (b: bool)
        ensures
            b == self.holds(c),
    {
        let letter = ('a' <= c && c <= 'z') || ('A' <= c && c <= 'Z') || c == '_';
        let digit = '0' <= c && c <= '9';
        match self {
            CharClass::Blank => c == ' ' || c == '\t' || c == '\r',
            CharClass::Digit => digit,
            CharClass::NameStart => letter,
            CharClass::Name => letter || digit,
            CharClass::TypeName => letter || digit || c == '/',
            CharClass::Is(x) => c == x,
            CharClass::Either(x, y) => c == x || c == y,
            CharClass::Except(x) => c != x,
        }
    }
}

/// Where the longest run of characters of `class` that starts at `from` ends: the first
/// position at or after `from` that holds a character outside the class, or the end of `s`.
pub open spec fn run_end(s: Seq<char>, from: int, class: CharClass) -> int
    decreases s.len() - from,
{
    if 0 <= from < s.len() && class.holds(s[from]) {
        run_end(s, from + 1, class)
    } else {
        from
    }
}

/// A run ends at or after its start and within the text, every character in it belongs to
/// the class, and the character after it, if there is one, does not.
pub proof fn lemma_run_end(s: Seq<char>, from: int, class: CharClass)
    requires
        0 <= from <= s.len(),
    ensures
        from <= run_end(s, from, class) <= s.len(),
        forall|k: int| from <= k < run_end(s, from, class) ==> class.holds(#[trigger] s[k]),
        run_end(s, from, class) < s.len() ==> !class.holds(s[run_end(s, from, class)]),
    decreases s.len() - from,
{
    if from < s.len() && class.holds(s[from]) {
        lemma_run_end(s, from + 1, class);
    }
}

/// A position that stops a run and is reached through the class alone is where the run ends.
pub proof fn lemma_run_end_is(s: Seq<char>, from: int, class: CharClass, end: int)
    requires
        0 <= from <= end <= s.len(),
        forall|k: int| from <= k < end ==> class.holds(#[trigger] s[k]),
        end < s.len() ==> !class.holds(s[end]),
    ensures
        run_end(s, from, class) == end,
    decreases end - from,
{
    if from < end {
        lemma_run_end_is(s, from + 1, class, end);
    }
}

/// A position that was found, as an integer without bounds.
pub open spec fn position(end: Option<usize>) -> Option<int> {
    match end {
        Some(e) => Some(e as int),
        None => None,
    }
}

/// Scans the longest run of `class` from `from`. From a position beyond the text there is
/// no run, and the scan ends where it starts.
pub fn scan_run(s: &Vec<char>, from: usize, class: CharClass) -> (end: usize)
    ensures
        end == run_end(s@, from as int, class),
        from <= end,
        from <= s@.len() ==> end <= s@.len(),
{
    let mut i: usize = from;
    while i < s.len() && class.contains(s[i])
        invariant
            from <= i,
            i <= s@.len() || i == from,
            run_end(s@, from as int, class) == run_end(s@, i as int, class),
        decreases s@.len() - i,
    {
        i += 1;
    }
    i
}

/// The characters of `s`, in order.
pub fn chars_of(s: &str) -> (v: Vec<char>)
    ensures
        v@ == s@,
{
    let mut v: Vec<char> = Vec::new();
    for c in it: s.chars()
        invariant
            it.seq() == s@,
            v@ == s@.take(it.index()),
    {
        assert(s@.take(it.index()).push(c) == s@.take(it.index() + 1));
        v.push(c);
    }
    assert(s@.take(s@.len() as int) == s@);
    v
}

/// The text that `s` holds between two positions.
pub fn string_of(s: &Vec<char>, from: usize, to: usize) -> (t: String)
    requires
        from <= to <= s@.len(),
    ensures
        t@ == s@.subrange(from as int, to as int),
{
    let mut t = String::new();
    let mut i: usize = from;
    while i < to
        invariant
            from <= i <= to <= s@.len(),
            t@ == s@.subrange(from as int, i as int),
        decreases to - i,
    {
        t.push(s[i]);
        assert(s@.subrange(from as int, i as int).push(s@[i as int]) == s@.subrange(
            from as int,
            i + 1,
        ));
        i += 1;
    }
    t
}

} // verus!
