//! The type mapper: from a type as a message definition writes it to the type expression
//! that the schema holds.

use crate::text::{chars_of, lemma_run_end_is, run_end, scan_run, string_of, CharClass};
use vstd::prelude::*;
use vstd::string::StringExecFns;

verus! {

/// One row of a mapping table: the source type `from` becomes the schema type `to`.
#[derive(Debug, PartialEq, Eq)]
pub struct TypeTransformRule {
    pub from: String,
    pub to: String,
}

/// The view of a row of a mapping table.
pub ghost struct TypeTransformRuleView {
    pub from: Seq<char>,
    pub to: Seq<char>,
}

impl View for TypeTransformRule {
    type V = TypeTransformRuleView;

    open spec fn view(&self) -> TypeTransformRuleView {
        TypeTransformRuleView { from: self.from@, to: self.to@ }
    }
}

/// A type that no rule maps.
#[derive(Debug, PartialEq, Eq)]
pub struct MappingError {
    /// The type as it was written.
    pub token: String,
    /// The constant or field that has this type; empty when a type was mapped on its own.
    pub name: String,
}

/// The view of a mapping error.
pub ghost struct MappingErrorView {
    pub token: Seq<char>,
    pub name: Seq<char>,
}

impl View for MappingError {
    type V = MappingErrorView;

    open spec fn view(&self) -> MappingErrorView {
        MappingErrorView { token: self.token@, name: self.name@ }
    }
}

/// The views of a table's rows.
pub open spec fn table_of(rules: Seq<TypeTransformRule>) -> Seq<TypeTransformRuleView> {
    rules.map_values(|r: TypeTransformRule| r@)
}

/// The row that maps `from` to `to`.
pub open spec fn row(from: &str, to: &str) -> TypeTransformRuleView {
    TypeTransformRuleView { from: from@, to: to@ }
}

/// The types with a fixed mapping: the scalars, text, and the references to the schemas of
/// time, duration and the standard header.
pub open spec fn builtin_table() -> Seq<TypeTransformRuleView> {
    seq![
        row("bool", "Bool"),
        row("int8", "Int8"),
        row("int16", "Int16"),
        row("int32", "Int32"),
        row("int64", "Int64"),
        row("uint8", "UInt8"),
        row("uint16", "UInt16"),
        row("uint32", "UInt32"),
        row("uint64", "UInt64"),
        row("float32", "Float32"),
        row("float64", "Float64"),
        row("string", "Text"),
        row("time", "import \"/Time.capnp\".Time"),
        row("duration", "import \"/Duration.capnp\".Time"),
        row("Header", "import \"/std_msgs/Header.capnp\".Header"),
    ]
}

/// What the first row for `token` at or after the row `from` maps it to.
pub open spec fn lookup_from(
    table: Seq<TypeTransformRuleView>,
    token: Seq<char>,
    from: int,
) -> Option<Seq<char>>
    decreases table.len() - from,
{
    if from < 0 || from >= table.len() {
        None
    } else if table[from].from == token {
        Some(table[from].to)
    } else {
        lookup_from(table, token, from + 1)
    }
}

/// What the first row for `token` maps it to; the match is exact and sensitive to case.
pub open spec fn lookup(table: Seq<TypeTransformRuleView>, token: Seq<char>) -> Option<Seq<char>> {
    lookup_from(table, token, 0)
}

/// Where the package of a reference ends: at its first slash.
pub open spec fn package_end(token: Seq<char>) -> int {
    run_end(token, 0, CharClass::Except('/'))
}

/// Whether `token` has the shape `package/Type`: one slash, with text on both sides.
pub open spec fn is_reference(token: Seq<char>) -> bool {
    let slash = package_end(token);
    &&& 0 < slash < token.len() - 1
    &&& run_end(token, slash + 1, CharClass::Except('/')) == token.len()
}

/// The import that a reference `package/Type` stands for: the whole token names the schema
/// file, and what follows the slash names the type in it.
pub open spec fn import_of(token: Seq<char>) -> Seq<char> {
    "import \"/"@ + token + ".capnp\"."@ + token.subrange(
        package_end(token) + 1,
        token.len() as int,
    )
}

/// The schema type of one element: by the table, else as a reference to another schema.
pub open spec fn element_type(token: Seq<char>) -> Option<Seq<char>> {
    match lookup(builtin_table(), token) {
        Some(to) => Some(to),
        None => if is_reference(token) {
            Some(import_of(token))
        } else {
            None
        },
    }
}

/// The element type of an array type `T[]`: the text before the final pair of brackets,
/// which is not empty.
pub open spec fn array_element(token: Seq<char>) -> Option<Seq<char>> {
    let n = token.len() as int;
    if n >= 3 && token[n - 2] == '[' && token[n - 1] == ']' {
        Some(token.subrange(0, n - 2))
    } else {
        None
    }
}

/// The schema type of a list of `element`.
pub open spec fn list_of(element: Seq<char>) -> Seq<char> {
    "List("@ + element + ")"@
}

/// The schema type that `token` maps to, if any: a list of the element type for an array,
/// else the type of the token as one element.
pub open spec fn mapped_type(token: Seq<char>) -> Option<Seq<char>> {
    match array_element(token) {
        Some(element) => match element_type(element) {
            Some(t) => Some(list_of(t)),
            None => None,
        },
        None => element_type(token),
    }
}

/// The pattern of an array type: any text, then `[]`, and nothing after it.
pub const ARRAY_PATTERN: &'static str = "(?s)^(.+)\\[\\]$";

/// Compiles `pattern` with `regex::Regex::new`, searches `text` with `Regex::captures` and
/// hands out what the first group matched. It is meant for `ARRAY_PATTERN` alone, and the
/// contract claims what the syntax of that pattern says: with `(?s)` the dot takes every
/// character, the anchors hold the match to the whole text, so there is a match when the
/// text is at least one character followed by `[]`, and the group is all that precedes
/// these brackets.
#[verifier::external_body]
fn capture_element(pattern: &str, text: &str) -> (element: Option<String>)
    requires
        pattern@ == ARRAY_PATTERN@,
    ensures
        match element {
            Some(e) => array_element(text@) == Some(e@),
            None => array_element(text@) is None,
        },
{
    let re = regex::Regex::new(pattern).ok()?;
    let groups = re.captures(text)?;
    let first = groups.get(1)?;
    Some(first.as_str().to_string())
}

/// The row that maps `from` to `to`.
fn rule(from: &str, to: &str) -> (r: TypeTransformRule)
    ensures
        r@ == row(from, to),
{
    TypeTransformRule { from: String::from_str(from), to: String::from_str(to) }
}

/// The table of the types with a fixed mapping.
pub fn builtin_rules() -> (rules: Vec<TypeTransformRule>)
    ensures
        table_of(rules@) == builtin_table(),
{
    let mut rules: Vec<TypeTransformRule> = Vec::new();
    rules.push(rule("bool", "Bool"));
    rules.push(rule("int8", "Int8"));
    rules.push(rule("int16", "Int16"));
    rules.push(rule("int32", "Int32"));
    rules.push(rule("int64", "Int64"));
    rules.push(rule("uint8", "UInt8"));
    rules.push(rule("uint16", "UInt16"));
    rules.push(rule("uint32", "UInt32"));
    rules.push(rule("uint64", "UInt64"));
    rules.push(rule("float32", "Float32"));
    rules.push(rule("float64", "Float64"));
    rules.push(rule("string", "Text"));
    rules.push(rule("time", "import \"/Time.capnp\".Time"));
    rules.push(rule("duration", "import \"/Duration.capnp\".Time"));
    rules.push(rule("Header", "import \"/std_msgs/Header.capnp\".Header"));
    assert(table_of(rules@) =~= builtin_table());
    rules
}

/// Looks `token` up in `rules`: the first row whose `from` is the token decides.
pub fn find_rule(rules: &Vec<TypeTransformRule>, token: &String) -> (to: Option<String>)
    ensures
        match to {
            Some(t) => lookup(table_of(rules@), token@) == Some(t@),
            None => lookup(table_of(rules@), token@) is None,
        },
{
    let ghost table = table_of(rules@);
    let mut i: usize = 0;
    while i < rules.len()
        invariant
            i <= rules@.len(),
            table == table_of(rules@),
            lookup(table, token@) == lookup_from(table, token@, i as int),
        decreases rules@.len() - i,
    {
        assert(table[i as int] == rules@[i as int]@);
        if rules[i].from == *token {
            return Some(rules[i].to.clone());
        }
        i += 1;
    }
    None
}

/// Reads `token` as a reference `package/Type` to another schema.
pub fn import_reference(token: &String) -> (import: Option<String>)
    ensures
        match import {
            Some(t) => is_reference(token@) && t@ == import_of(token@),
            None => !is_reference(token@),
        },
{
    let chars = chars_of(token.as_str());
    let slash = scan_run(&chars, 0, CharClass::Except('/'));
    if slash == 0 || slash >= chars.len() - 1 {
        return None;
    }
    if scan_run(&chars, slash + 1, CharClass::Except('/')) != chars.len() {
        return None;
    }
    let local = string_of(&chars, slash + 1, chars.len());
    let mut import = String::from_str("import \"/");
    import.append(token.as_str());
    import.append(".capnp\".");
    import.append(local.as_str());
    Some(import)
}

/// Maps one element type.
pub fn map_element(token: &String) -> (mapped: Option<String>)
    ensures
        match mapped {
            Some(t) => element_type(token@) == Some(t@),
            None => element_type(token@) is None,
        },
{
    let rules = builtin_rules();
    match find_rule(&rules, token) {
        Some(to) => Some(to),
        None => import_reference(token),
    }
}

/// Maps the type `typ` of a constant or a field. An array `T[]` becomes a list of what `T`
/// maps to; a type that neither the table nor the shape `package/Type` covers is refused,
/// and the error names it.
pub fn type_mapping(typ: &str) -> (mapped: Result<String, MappingError>)
    ensures
        match mapped {
            Ok(t) => mapped_type(typ@) == Some(t@),
            Err(e) => mapped_type(typ@) is None && e@ == (MappingErrorView {
                token: typ@,
                name: Seq::empty(),
            }),
        },
{
    let mapped = match capture_element(ARRAY_PATTERN, typ) {
        Some(element) => match map_element(&element) {
            Some(t) => {
                let mut list = String::from_str("List(");
                list.append(t.as_str());
                list.append(")");
                Some(list)
            },
            None => None,
        },
        None => map_element(&String::from_str(typ)),
    };
    match mapped {
        Some(t) => Ok(t),
        None => Err(MappingError { token: String::from_str(typ), name: String::new() }),
    }
}

/// Reveals what the names of the table are made of.
proof fn reveal_table_names()
    ensures
        "bool"@ == seq!['b', 'o', 'o', 'l'],
        "int8"@ == seq!['i', 'n', 't', '8'],
        "int16"@ == seq!['i', 'n', 't', '1', '6'],
        "int32"@ == seq!['i', 'n', 't', '3', '2'],
        "int64"@ == seq!['i', 'n', 't', '6', '4'],
        "uint8"@ == seq!['u', 'i', 'n', 't', '8'],
        "uint16"@ == seq!['u', 'i', 'n', 't', '1', '6'],
        "uint32"@ == seq!['u', 'i', 'n', 't', '3', '2'],
        "uint64"@ == seq!['u', 'i', 'n', 't', '6', '4'],
        "float32"@ == seq!['f', 'l', 'o', 'a', 't', '3', '2'],
        "float64"@ == seq!['f', 'l', 'o', 'a', 't', '6', '4'],
        "string"@ == seq!['s', 't', 'r', 'i', 'n', 'g'],
        "time"@ == seq!['t', 'i', 'm', 'e'],
        "duration"@ == seq!['d', 'u', 'r', 'a', 't', 'i', 'o', 'n'],
        "Header"@ == seq!['H', 'e', 'a', 'd', 'e', 'r'],
{
    reveal_strlit("bool");
    reveal_strlit("int8");
    reveal_strlit("int16");
    reveal_strlit("int32");
    reveal_strlit("int64");
    reveal_strlit("uint8");
    reveal_strlit("uint16");
    reveal_strlit("uint32");
    reveal_strlit("uint64");
    reveal_strlit("float32");
    reveal_strlit("float64");
    reveal_strlit("string");
    reveal_strlit("time");
    reveal_strlit("duration");
    reveal_strlit("Header");
    assert("bool"@ =~= seq!['b', 'o', 'o', 'l']);
    assert("int8"@ =~= seq!['i', 'n', 't', '8']);
    assert("int16"@ =~= seq!['i', 'n', 't', '1', '6']);
    assert("int32"@ =~= seq!['i', 'n', 't', '3', '2']);
    assert("int64"@ =~= seq!['i', 'n', 't', '6', '4']);
    assert("uint8"@ =~= seq!['u', 'i', 'n', 't', '8']);
    assert("uint16"@ =~= seq!['u', 'i', 'n', 't', '1', '6']);
    assert("uint32"@ =~= seq!['u', 'i', 'n', 't', '3', '2']);
    assert("uint64"@ =~= seq!['u', 'i', 'n', 't', '6', '4']);
    assert("float32"@ =~= seq!['f', 'l', 'o', 'a', 't', '3', '2']);
    assert("float64"@ =~= seq!['f', 'l', 'o', 'a', 't', '6', '4']);
    assert("string"@ =~= seq!['s', 't', 'r', 'i', 'n', 'g']);
    assert("time"@ =~= seq!['t', 'i', 'm', 'e']);
    assert("duration"@ =~= seq!['d', 'u', 'r', 'a', 't', 'i', 'o', 'n']);
    assert("Header"@ =~= seq!['H', 'e', 'a', 'd', 'e', 'r']);
}

/// No row of the table hides another: every name in it is found with its own schema type.
pub proof fn lemma_table_rows_are_found()
    ensures
        builtin_table().len() == 15,
        forall|i: int|
            0 <= i < 15 ==> lookup(builtin_table(), (#[trigger] builtin_table()[i]).from) == Some(
                builtin_table()[i].to,
            ),
{
    reveal_table_names();
    let table = builtin_table();
    assert forall|i: int| 0 <= i < 15 implies lookup(table, (#[trigger] table[i]).from) == Some(
        table[i].to,
    ) by {
        let name = table[i].from;
        assert forall|j: int| 0 <= j < i implies (#[trigger] table[j]).from != name by {
            if table[j].from.len() == name.len() {
                assert(table[j].from[name.len() - 2] != name[name.len() - 2]
                    || table[j].from[name.len() - 1] != name[name.len() - 1]
                    || table[j].from[0] != name[0]);
            }
        }
        lemma_lookup_first(table, name, i);
    }
}

/// A name that stands in the row `at` and in no row before it is found there.
pub proof fn lemma_lookup_first(table: Seq<TypeTransformRuleView>, token: Seq<char>, at: int)
    requires
        0 <= at < table.len(),
        table[at].from == token,
        forall|j: int| 0 <= j < at ==> (#[trigger] table[j]).from != token,
    ensures
        lookup(table, token) == Some(table[at].to),
{
    lemma_lookup_from(table, token, 0, at);
}

/// A name that stands in the row `at` and in no row from `from` to it is found there.
proof fn lemma_lookup_from(table: Seq<TypeTransformRuleView>, token: Seq<char>, from: int, at: int)
    requires
        0 <= from <= at < table.len(),
        table[at].from == token,
        forall|j: int| from <= j < at ==> (#[trigger] table[j]).from != token,
    ensures
        lookup_from(table, token, from) == Some(table[at].to),
    decreases at - from,
{
    if from < at {
        lemma_lookup_from(table, token, from + 1, at);
    }
}

/// A name that stands in no row is not found.
pub proof fn lemma_lookup_none(table: Seq<TypeTransformRuleView>, token: Seq<char>)
    requires
        forall|j: int| 0 <= j < table.len() ==> (#[trigger] table[j]).from != token,
    ensures
        lookup(table, token) is None,
{
    lemma_lookup_none_from(table, token, 0);
}

/// A name that stands in no row from `from` on is not found from there.
proof fn lemma_lookup_none_from(table: Seq<TypeTransformRuleView>, token: Seq<char>, from: int)
    requires
        0 <= from <= table.len(),
        forall|j: int| from <= j < table.len() ==> (#[trigger] table[j]).from != token,
    ensures
        lookup_from(table, token, from) is None,
    decreases table.len() - from,
{
    if from < table.len() {
        lemma_lookup_none_from(table, token, from + 1);
    }
}

/// An array of `element` maps to the list of what `element` maps to, and to nothing where
/// `element` maps to nothing.
pub proof fn lemma_array_is_list(element: Seq<char>)
    requires
        element.len() > 0,
    ensures
        array_element(element + "[]"@) == Some(element),
        mapped_type(element + "[]"@) == match element_type(element) {
            Some(t) => Some(list_of(t)),
            None => None,
        },
{
    reveal_strlit("[]");
    let token = element + "[]"@;
    assert(token.subrange(0, token.len() - 2) =~= element);
}

/// A type that does not end in `[]` maps as one element, and so does `[]` by itself.
pub proof fn lemma_plain_is_element(token: Seq<char>)
    requires
        token.len() < 3 || token[token.len() - 2] != '[' || token[token.len() - 1] != ']',
    ensures
        mapped_type(token) == element_type(token),
{
}

/// A reference `package/Type` that the table does not hold maps to the import of `Type`
/// from the schema file `/package/Type.capnp`.
pub proof fn lemma_reference_is_import(package: Seq<char>, name: Seq<char>)
    requires
        package.len() > 0,
        name.len() > 0,
        forall|i: int| 0 <= i < package.len() ==> package[i] != '/',
        forall|i: int| 0 <= i < name.len() ==> name[i] != '/',
    ensures
        element_type(package + "/"@ + name) == Some(
            "import \"/"@ + package + "/"@ + name + ".capnp\"."@ + name,
        ),
{
    reveal_strlit("/");
    let token = package + "/"@ + name;
    let slash = package.len() as int;
    assert(token[slash] == '/');
    lemma_run_end_is(token, 0, CharClass::Except('/'), slash);
    lemma_run_end_is(token, slash + 1, CharClass::Except('/'), token.len() as int);
    assert(token.subrange(slash + 1, token.len() as int) =~= name);
    lemma_no_slash_in_table(token, slash);
}

/// A type with a slash in it stands in no row of the table.
pub proof fn lemma_no_slash_in_table(token: Seq<char>, slash: int)
    requires
        0 <= slash < token.len(),
        token[slash] == '/',
    ensures
        lookup(builtin_table(), token) is None,
{
    reveal_table_names();
    let table = builtin_table();
    assert forall|j: int| 0 <= j < table.len() implies (#[trigger] table[j]).from != token by {
        let name = table[j].from;
        if name == token {
            assert(forall|k: int| 0 <= k < name.len() ==> name[k] != '/');
            assert(name[slash] == '/');
        }
    }
    lemma_lookup_none(table, token);
}

} // verus!
