//! Lowering: from the abstract syntax of a message to the record that a schema is rendered
//! from, with ordinals, schema types, names in camel case and the schema identifier.

use crate::ast::{ASTDef, ASTDefView, ConstDef, ConstDefView, FieldDef, FieldDefView};
use crate::error::{CompileError, CompileErrorView};
use crate::mapping::{mapped_type, type_mapping, MappingError, MappingErrorView};
use crate::schema_id::{schema_identifier, schema_identifier_of};
use vstd::prelude::*;
use vstd::string::StringExecFns;

verus! {

/// A constant of the schema.
#[derive(Debug, PartialEq, Eq)]
pub struct ConstOut {
    pub name: String,
    pub typ: String,
    pub val: String,
    pub comment: String,
    /// The ordinal: the place of the constant among the constants, counted from 0.
    pub id: u32,
}

/// A field of the schema.
#[derive(Debug, PartialEq, Eq)]
pub struct FieldOut {
    pub name: String,
    pub typ: String,
    pub comment: String,
    /// The ordinal: the place of the field among the fields, counted from 0.
    pub id: u32,
}

/// All that the schema of one message is rendered from.
#[derive(Debug, PartialEq, Eq)]
pub struct SchemaRecord {
    pub msg_name: String,
    pub namespace: String,
    /// The schema identifier.
    pub id: String,
    /// The file that the message was read from.
    pub filename: String,
    pub consts: Vec<ConstOut>,
    pub fields: Vec<FieldOut>,
}

/// The view of a constant of the schema.
pub ghost struct ConstOutView {
    pub name: Seq<char>,
    pub typ: Seq<char>,
    pub val: Seq<char>,
    pub comment: Seq<char>,
    pub id: nat,
}

/// The view of a field of the schema.
pub ghost struct FieldOutView {
    pub name: Seq<char>,
    pub typ: Seq<char>,
    pub comment: Seq<char>,
    pub id: nat,
}

/// The view of a record: its texts, and the views of its constants and of its fields.
pub ghost struct SchemaRecordView {
    pub msg_name: Seq<char>,
    pub namespace: Seq<char>,
    pub id: Seq<char>,
    pub filename: Seq<char>,
    pub consts: Seq<ConstOutView>,
    pub fields: Seq<FieldOutView>,
}

impl View for ConstOut {
    type V = ConstOutView;

    open spec fn view(&self) -> ConstOutView {
        ConstOutView {
            name: self.name@,
            typ: self.typ@,
            val: self.val@,
            comment: self.comment@,
            id: self.id as nat,
        }
    }
}

impl View for FieldOut {
    type V = FieldOutView;

    open spec fn view(&self) -> FieldOutView {
        FieldOutView {
            name: self.name@,
            typ: self.typ@,
            comment: self.comment@,
            id: self.id as nat,
        }
    }
}

impl View for SchemaRecord {
    type V = SchemaRecordView;

    open spec fn view(&self) -> SchemaRecordView {
        SchemaRecordView {
            msg_name: self.msg_name@,
            namespace: self.namespace@,
            id: self.id@,
            filename: self.filename@,
            consts: self.consts@.map_values(|c: ConstOut| c@),
            fields: self.fields@.map_values(|f: FieldOut| f@),
        }
    }
}

/// The name `name` in camel case.
pub uninterp spec fn camel_case_of(name: Seq<char>) -> Seq<char>;

/// Calls `inflector::cases::camelcase::to_camel_case`. The contract names the result and
/// claims no more than that it depends on the name alone.
#[verifier::external_body]
fn camel_case(name: &str) -> (camel: String)
    ensures
        camel@ == camel_case_of(name@),
{
    inflector::cases::camelcase::to_camel_case(name)
}

/// The constant of the schema that `def` becomes with the name `name` and the ordinal
/// `ordinal`, or the error that names its type where that type cannot be mapped. Value and
/// comment are kept as they are.
pub open spec fn const_out_with(def: ConstDefView, name: Seq<char>, ordinal: nat) -> Result<
    ConstOutView,
    MappingErrorView,
> {
    match mapped_type(def.typ) {
        Some(typ) => Ok(
            ConstOutView { name, typ, val: def.val, comment: def.comment, id: ordinal },
        ),
        None => Err(MappingErrorView { token: def.typ, name: def.name }),
    }
}

/// The field of the schema that `def` becomes with the name `name` and the ordinal
/// `ordinal`, or the error that names its type where that type cannot be mapped.
pub open spec fn field_out_with(def: FieldDefView, name: Seq<char>, ordinal: nat) -> Result<
    FieldOutView,
    MappingErrorView,
> {
    match mapped_type(def.typ) {
        Some(typ) => Ok(FieldOutView { name, typ, comment: def.comment, id: ordinal }),
        None => Err(MappingErrorView { token: def.typ, name: def.name }),
    }
}

/// The constants of the schema for `consts`: each with its name in camel case and its place
/// as its ordinal; or the error of the first constant whose type cannot be mapped.
pub open spec fn consts_out(consts: Seq<ConstDefView>) -> Result<
    Seq<ConstOutView>,
    MappingErrorView,
>
    decreases consts.len(),
{
    if consts.len() == 0 {
        Ok(Seq::empty())
    } else {
        match consts_out(consts.drop_last()) {
            Err(e) => Err(e),
            Ok(out) => match const_out_with(
                consts.last(),
                camel_case_of(consts.last().name),
                (consts.len() - 1) as nat,
            ) {
                Err(e) => Err(e),
                Ok(c) => Ok(out.push(c)),
            },
        }
    }
}

/// The fields of the schema for `fields`, as `consts_out` gives the constants.
pub open spec fn fields_out(fields: Seq<FieldDefView>) -> Result<
    Seq<FieldOutView>,
    MappingErrorView,
>
    decreases fields.len(),
{
    if fields.len() == 0 {
        Ok(Seq::empty())
    } else {
        match fields_out(fields.drop_last()) {
            Err(e) => Err(e),
            Ok(out) => match field_out_with(
                fields.last(),
                camel_case_of(fields.last().name),
                (fields.len() - 1) as nat,
            ) {
                Err(e) => Err(e),
                Ok(f) => Ok(out.push(f)),
            },
        }
    }
}

/// Whether the ordinals of a record are the places of its constants among the constants
/// and of its fields among the fields, counted from 0.
pub open spec fn is_numbered(record: SchemaRecordView) -> bool {
    &&& forall|i: int| 0 <= i < record.consts.len() ==> (#[trigger] record.consts[i]).id == i
    &&& forall|i: int| 0 <= i < record.fields.len() ==> (#[trigger] record.fields[i]).id == i
}

/// Whether a message has more constants, or more fields, than an ordinal can count.
pub open spec fn too_many(ast: ASTDefView) -> bool {
    ast.consts.len() > u32::MAX || ast.fields.len() > u32::MAX
}

/// The record of a message: the constants are lowered before the fields, and the first
/// type that cannot be mapped ends the lowering.
pub open spec fn record_of(
    filename: Seq<char>,
    msg_name: Seq<char>,
    namespace: Seq<char>,
    ast: ASTDefView,
) -> Result<SchemaRecordView, CompileErrorView> {
    if too_many(ast) {
        Err(CompileErrorView::TooManyDefinitions)
    } else {
        match consts_out(ast.consts) {
            Err(e) => Err(CompileErrorView::Mapping(e)),
            Ok(consts) => match fields_out(ast.fields) {
                Err(e) => Err(CompileErrorView::Mapping(e)),
                Ok(fields) => Ok(
                    SchemaRecordView {
                        msg_name,
                        namespace,
                        id: schema_identifier_of(namespace, msg_name),
                        filename,
                        consts,
                        fields,
                    },
                ),
            },
        }
    }
}

/// The error `e` with the name of the constant or field whose type it is about.
fn unmapped(e: MappingError, name: &String) -> (named: MappingError)
    ensures
        named@ == (MappingErrorView { token: e@.token, name: name@ }),
{
    MappingError { token: e.token, name: name.clone() }
}

/// Lowers one constant, given its name in camel case and its ordinal.
pub fn lower_const(def: &ConstDef, name: String, ordinal: u32) -> (r: Result<
    ConstOut,
    MappingError,
>)
    ensures
        match r {
            Ok(c) => const_out_with(def@, name@, ordinal as nat) == Ok::<
                ConstOutView,
                MappingErrorView,
            >(c@),
            Err(e) => const_out_with(def@, name@, ordinal as nat) == Err::<
                ConstOutView,
                MappingErrorView,
            >(e@),
        },
{
    match type_mapping(def.typ.as_str()) {
        Ok(typ) => Ok(
            ConstOut { name, typ, val: def.val.clone(), comment: def.comment.clone(), id: ordinal },
        ),
        Err(e) => Err(unmapped(e, &def.name)),
    }
}

/// Lowers one field, given its name in camel case and its ordinal.
pub fn lower_field(def: &FieldDef, name: String, ordinal: u32) -> (r: Result<
    FieldOut,
    MappingError,
>)
    ensures
        match r {
            Ok(f) => field_out_with(def@, name@, ordinal as nat) == Ok::<
                FieldOutView,
                MappingErrorView,
            >(f@),
            Err(e) => field_out_with(def@, name@, ordinal as nat) == Err::<
                FieldOutView,
                MappingErrorView,
            >(e@),
        },
{
    match type_mapping(def.typ.as_str()) {
        Ok(typ) => Ok(FieldOut { name, typ, comment: def.comment.clone(), id: ordinal }),
        Err(e) => Err(unmapped(e, &def.name)),
    }
}

/// The views of the constants of a message.
pub open spec fn const_views(consts: Seq<ConstDef>) -> Seq<ConstDefView> {
    consts.map_values(|c: ConstDef| c@)
}

/// The views of the fields of a message.
pub open spec fn field_views(fields: Seq<FieldDef>) -> Seq<FieldDefView> {
    fields.map_values(|f: FieldDef| f@)
}

/// An error among the first `n` constants is the error of all of them.
pub proof fn lemma_const_error_stays(consts: Seq<ConstDefView>, n: int)
    requires
        0 <= n <= consts.len(),
        consts_out(consts.take(n)) is Err,
    ensures
        consts_out(consts) == consts_out(consts.take(n)),
    decreases consts.len() - n,
{
    if n < consts.len() {
        assert(consts.take(n + 1).drop_last() =~= consts.take(n));
        lemma_const_error_stays(consts, n + 1);
    } else {
        assert(consts.take(n) =~= consts);
    }
}

/// An error among the first `n` fields is the error of all of them.
pub proof fn lemma_field_error_stays(fields: Seq<FieldDefView>, n: int)
    requires
        0 <= n <= fields.len(),
        fields_out(fields.take(n)) is Err,
    ensures
        fields_out(fields) == fields_out(fields.take(n)),
    decreases fields.len() - n,
{
    if n < fields.len() {
        assert(fields.take(n + 1).drop_last() =~= fields.take(n));
        lemma_field_error_stays(fields, n + 1);
    } else {
        assert(fields.take(n) =~= fields);
    }
}

/// Lowers the constants of a message in their order.
fn lower_consts(consts: &Vec<ConstDef>) -> (r: Result<Vec<ConstOut>, MappingError>)
    requires
        consts@.len() <= u32::MAX,
    ensures
        match r {
            Ok(out) => consts_out(const_views(consts@)) == Ok::<
                Seq<ConstOutView>,
                MappingErrorView,
            >(out@.map_values(|c: ConstOut| c@)),
            Err(e) => consts_out(const_views(consts@)) == Err::<
                Seq<ConstOutView>,
                MappingErrorView,
            >(e@),
        },
{
    let ghost defs = const_views(consts@);
    let mut out: Vec<ConstOut> = Vec::new();
    let mut i: usize = 0;
    assert(defs.take(0) =~= Seq::empty());
    assert(out@.map_values(|c: ConstOut| c@) =~= Seq::empty());
    while i < consts.len()
        invariant
            i <= consts@.len() <= u32::MAX,
            defs == const_views(consts@),
            consts_out(defs.take(i as int)) == Ok::<Seq<ConstOutView>, MappingErrorView>(
                out@.map_values(|c: ConstOut| c@),
            ),
        decreases consts@.len() - i,
    {
        let def = &consts[i];
        let ghost before = out@.map_values(|c: ConstOut| c@);
        proof {
            assert(defs.take(i + 1).drop_last() =~= defs.take(i as int));
            assert(defs.take(i + 1).last() == def@);
        }
        match lower_const(def, camel_case(def.name.as_str()), i as u32) {
            Ok(c) => {
                out.push(c);
                assert(out@.map_values(|c: ConstOut| c@) =~= before.push(c@));
            },
            Err(e) => {
                proof {
                    lemma_const_error_stays(defs, i + 1);
                }
                return Err(e);
            },
        }
        i += 1;
    }
    assert(defs.take(i as int) =~= defs);
    Ok(out)
}

/// Lowers the fields of a message in their order.
fn lower_fields(fields: &Vec<FieldDef>) -> (r: Result<Vec<FieldOut>, MappingError>)
    requires
        fields@.len() <= u32::MAX,
    ensures
        match r {
            Ok(out) => fields_out(field_views(fields@)) == Ok::<
                Seq<FieldOutView>,
                MappingErrorView,
            >(out@.map_values(|f: FieldOut| f@)),
            Err(e) => fields_out(field_views(fields@)) == Err::<
                Seq<FieldOutView>,
                MappingErrorView,
            >(e@),
        },
{
    let ghost defs = field_views(fields@);
    let mut out: Vec<FieldOut> = Vec::new();
    let mut i: usize = 0;
    assert(defs.take(0) =~= Seq::empty());
    assert(out@.map_values(|f: FieldOut| f@) =~= Seq::empty());
    while i < fields.len()
        invariant
            i <= fields@.len() <= u32::MAX,
            defs == field_views(fields@),
            fields_out(defs.take(i as int)) == Ok::<Seq<FieldOutView>, MappingErrorView>(
                out@.map_values(|f: FieldOut| f@),
            ),
        decreases fields@.len() - i,
    {
        let def = &fields[i];
        let ghost before = out@.map_values(|f: FieldOut| f@);
        proof {
            assert(defs.take(i + 1).drop_last() =~= defs.take(i as int));
            assert(defs.take(i + 1).last() == def@);
        }
        match lower_field(def, camel_case(def.name.as_str()), i as u32) {
            Ok(f) => {
                out.push(f);
                assert(out@.map_values(|f: FieldOut| f@) =~= before.push(f@));
            },
            Err(e) => {
                proof {
                    lemma_field_error_stays(defs, i + 1);
                }
                return Err(e);
            },
        }
        i += 1;
    }
    assert(defs.take(i as int) =~= defs);
    Ok(out)
}

/// Lowers the message `ast`, read from the file `filename` and named `msg_name`, into the
/// record of its schema in `namespace`. The constants and the fields keep their order and
/// are numbered from 0, each kind by itself.
pub fn compile_file(filename: &str, msg_name: &str, namespace: &str, ast: &ASTDef) -> (r: Result<
    SchemaRecord,
    CompileError,
>)
    ensures
        match r {
            Ok(record) => record_of(filename@, msg_name@, namespace@, ast@) == Ok::<
                SchemaRecordView,
                CompileErrorView,
            >(record@),
            Err(e) => record_of(filename@, msg_name@, namespace@, ast@) == Err::<
                SchemaRecordView,
                CompileErrorView,
            >(e@),
        },
        r matches Ok(record) ==> is_numbered(record@) && record@.consts.len() == ast@.consts.len()
            && record@.fields.len() == ast@.fields.len(),
{
    proof {
        if record_of(filename@, msg_name@, namespace@, ast@) is Ok {
            lemma_ordinals_are_places(filename@, msg_name@, namespace@, ast@);
        }
    }
    if ast.consts.len() > u32::MAX as usize || ast.fields.len() > u32::MAX as usize {
        return Err(CompileError::TooManyDefinitions);
    }
    let consts = match lower_consts(&ast.consts) {
        Ok(consts) => consts,
        Err(e) => {
            return Err(CompileError::Mapping(e));
        },
    };
    let fields = match lower_fields(&ast.fields) {
        Ok(fields) => fields,
        Err(e) => {
            return Err(CompileError::Mapping(e));
        },
    };
    Ok(
        SchemaRecord {
            msg_name: String::from_str(msg_name),
            namespace: String::from_str(namespace),
            id: schema_identifier(namespace, msg_name),
            filename: String::from_str(filename),
            consts,
            fields,
        },
    )
}

/// The constants of a schema stand for the constants of the message one for one and in
/// their order: each is what its definition becomes with its name in camel case and its
/// place as its ordinal. Where there is an error, it is that of the first constant whose
/// type cannot be mapped.
pub proof fn lemma_consts_out(consts: Seq<ConstDefView>)
    ensures
        match consts_out(consts) {
            Ok(out) => {
                &&& out.len() == consts.len()
                &&& forall|i: int|
                    0 <= i < consts.len() ==> const_out_with(
                        #[trigger] consts[i],
                        camel_case_of(consts[i].name),
                        i as nat,
                    ) == Ok::<ConstOutView, MappingErrorView>(out[i])
            },
            Err(e) => exists|i: int|
                {
                    &&& 0 <= i < consts.len()
                    &&& mapped_type(#[trigger] consts[i].typ) is None
                    &&& e == MappingErrorView { token: consts[i].typ, name: consts[i].name }
                    &&& forall|j: int| 0 <= j < i ==> mapped_type(#[trigger] consts[j].typ) is Some
                },
        },
    decreases consts.len(),
{
    if consts.len() > 0 {
        let front = consts.drop_last();
        lemma_consts_out(front);
        match consts_out(front) {
            Ok(out) => {
                let n = consts.len() - 1;
                assert(forall|j: int| 0 <= j < n ==> front[j] == consts[j]);
                if mapped_type(consts[n].typ) is None {
                    assert(consts[n] == consts.last());
                    assert forall|j: int| 0 <= j < n implies mapped_type(
                        #[trigger] consts[j].typ,
                    ) is Some by {
                        assert(const_out_with(front[j], camel_case_of(front[j].name), j as nat)
                            is Ok);
                    }
                }
            },
            Err(e) => {
                let i = choose|i: int|
                    {
                        &&& 0 <= i < front.len()
                        &&& mapped_type(#[trigger] front[i].typ) is None
                        &&& e == MappingErrorView { token: front[i].typ, name: front[i].name }
                        &&& forall|j: int|
                            0 <= j < i ==> mapped_type(#[trigger] front[j].typ) is Some
                    };
                assert(front[i] == consts[i]);
                assert forall|j: int| 0 <= j < i implies mapped_type(
                    #[trigger] consts[j].typ,
                ) is Some by {
                    assert(front[j] == consts[j]);
                }
            },
        }
    }
}

/// The fields of a schema stand for the fields of the message one for one and in their
/// order, as `lemma_consts_out` says of the constants.
pub proof fn lemma_fields_out(fields: Seq<FieldDefView>)
    ensures
        match fields_out(fields) {
            Ok(out) => {
                &&& out.len() == fields.len()
                &&& forall|i: int|
                    0 <= i < fields.len() ==> field_out_with(
                        #[trigger] fields[i],
                        camel_case_of(fields[i].name),
                        i as nat,
                    ) == Ok::<FieldOutView, MappingErrorView>(out[i])
            },
            Err(e) => exists|i: int|
                {
                    &&& 0 <= i < fields.len()
                    &&& mapped_type(#[trigger] fields[i].typ) is None
                    &&& e == MappingErrorView { token: fields[i].typ, name: fields[i].name }
                    &&& forall|j: int| 0 <= j < i ==> mapped_type(#[trigger] fields[j].typ) is Some
                },
        },
    decreases fields.len(),
{
    if fields.len() > 0 {
        let front = fields.drop_last();
        lemma_fields_out(front);
        match fields_out(front) {
            Ok(out) => {
                let n = fields.len() - 1;
                assert(forall|j: int| 0 <= j < n ==> front[j] == fields[j]);
                if mapped_type(fields[n].typ) is None {
                    assert(fields[n] == fields.last());
                    assert forall|j: int| 0 <= j < n implies mapped_type(
                        #[trigger] fields[j].typ,
                    ) is Some by {
                        assert(field_out_with(front[j], camel_case_of(front[j].name), j as nat)
                            is Ok);
                    }
                }
            },
            Err(e) => {
                let i = choose|i: int|
                    {
                        &&& 0 <= i < front.len()
                        &&& mapped_type(#[trigger] front[i].typ) is None
                        &&& e == MappingErrorView { token: front[i].typ, name: front[i].name }
                        &&& forall|j: int|
                            0 <= j < i ==> mapped_type(#[trigger] front[j].typ) is Some
                    };
                assert(front[i] == fields[i]);
                assert forall|j: int| 0 <= j < i implies mapped_type(
                    #[trigger] fields[j].typ,
                ) is Some by {
                    assert(front[j] == fields[j]);
                }
            },
        }
    }
}

/// A message has a record exactly when its constants and its fields can be counted and
/// every one of their types can be mapped.
pub proof fn lemma_record_exists(
    filename: Seq<char>,
    msg_name: Seq<char>,
    namespace: Seq<char>,
    ast: ASTDefView,
)
    ensures
        record_of(filename, msg_name, namespace, ast) is Ok <==> {
            &&& !too_many(ast)
            &&& forall|i: int|
                0 <= i < ast.consts.len() ==> mapped_type(#[trigger] ast.consts[i].typ) is Some
            &&& forall|i: int|
                0 <= i < ast.fields.len() ==> mapped_type(#[trigger] ast.fields[i].typ) is Some
        },
{
    lemma_consts_out(ast.consts);
    lemma_fields_out(ast.fields);
    if consts_out(ast.consts) is Ok {
        assert forall|i: int| 0 <= i < ast.consts.len() implies mapped_type(
            #[trigger] ast.consts[i].typ,
        ) is Some by {
            assert(const_out_with(ast.consts[i], camel_case_of(ast.consts[i].name), i as nat)
                is Ok);
        }
    }
    if fields_out(ast.fields) is Ok {
        assert forall|i: int| 0 <= i < ast.fields.len() implies mapped_type(
            #[trigger] ast.fields[i].typ,
        ) is Some by {
            assert(field_out_with(ast.fields[i], camel_case_of(ast.fields[i].name), i as nat)
                is Ok);
        }
    }
}

/// The ordinals of the constants of a record are 0, 1, 2 and so on in the order of the
/// definitions, one for each constant of the message, and so are those of its fields,
/// counted by themselves.
pub proof fn lemma_ordinals_are_places(
    filename: Seq<char>,
    msg_name: Seq<char>,
    namespace: Seq<char>,
    ast: ASTDefView,
)
    requires
        record_of(filename, msg_name, namespace, ast) is Ok,
    ensures
        ({
            let record = record_of(filename, msg_name, namespace, ast)->Ok_0;
            &&& record.consts.len() == ast.consts.len()
            &&& record.fields.len() == ast.fields.len()
            &&& forall|i: int| 0 <= i < record.consts.len() ==> (#[trigger] record.consts[i]).id == i
            &&& forall|i: int| 0 <= i < record.fields.len() ==> (#[trigger] record.fields[i]).id == i
        }),
{
    let record = record_of(filename, msg_name, namespace, ast)->Ok_0;
    lemma_consts_out(ast.consts);
    lemma_fields_out(ast.fields);
    assert forall|i: int| 0 <= i < record.consts.len() implies (#[trigger] record.consts[i]).id
        == i by {
        assert(const_out_with(ast.consts[i], camel_case_of(ast.consts[i].name), i as nat) == Ok::<
            ConstOutView,
            MappingErrorView,
        >(record.consts[i]));
    }
    assert forall|i: int| 0 <= i < record.fields.len() implies (#[trigger] record.fields[i]).id
        == i by {
        assert(field_out_with(ast.fields[i], camel_case_of(ast.fields[i].name), i as nat) == Ok::<
            FieldOutView,
            MappingErrorView,
        >(record.fields[i]));
    }
}

/// Every constant and every field of a record has the name of its definition in camel
/// case and the schema type that its type maps to, and carries the value and the comment
/// of its definition as they are; a definition without a comment gives an empty comment.
pub proof fn lemma_record_keeps_definitions(
    filename: Seq<char>,
    msg_name: Seq<char>,
    namespace: Seq<char>,
    ast: ASTDefView,
)
    requires
        record_of(filename, msg_name, namespace, ast) is Ok,
    ensures
        ({
            let record = record_of(filename, msg_name, namespace, ast)->Ok_0;
            &&& record.msg_name == msg_name
            &&& record.namespace == namespace
            &&& record.filename == filename
            &&& record.id == schema_identifier_of(namespace, msg_name)
            &&& forall|i: int|
                0 <= i < ast.consts.len() ==> {
                    &&& (#[trigger] record.consts[i]).name == camel_case_of(ast.consts[i].name)
                    &&& mapped_type(ast.consts[i].typ) == Some(record.consts[i].typ)
                    &&& record.consts[i].val == ast.consts[i].val
                    &&& record.consts[i].comment == ast.consts[i].comment
                }
            &&& forall|i: int|
                0 <= i < ast.fields.len() ==> {
                    &&& (#[trigger] record.fields[i]).name == camel_case_of(ast.fields[i].name)
                    &&& mapped_type(ast.fields[i].typ) == Some(record.fields[i].typ)
                    &&& record.fields[i].comment == ast.fields[i].comment
                }
        }),
{
    let record = record_of(filename, msg_name, namespace, ast)->Ok_0;
    lemma_consts_out(ast.consts);
    lemma_fields_out(ast.fields);
    assert forall|i: int| 0 <= i < ast.consts.len() implies {
        &&& (#[trigger] record.consts[i]).name == camel_case_of(ast.consts[i].name)
        &&& mapped_type(ast.consts[i].typ) == Some(record.consts[i].typ)
        &&& record.consts[i].val == ast.consts[i].val
        &&& record.consts[i].comment == ast.consts[i].comment
    } by {
        assert(const_out_with(ast.consts[i], camel_case_of(ast.consts[i].name), i as nat) == Ok::<
            ConstOutView,
            MappingErrorView,
        >(record.consts[i]));
    }
    assert forall|i: int| 0 <= i < ast.fields.len() implies {
        &&& (#[trigger] record.fields[i]).name == camel_case_of(ast.fields[i].name)
        &&& mapped_type(ast.fields[i].typ) == Some(record.fields[i].typ)
        &&& record.fields[i].comment == ast.fields[i].comment
    } by {
        assert(field_out_with(ast.fields[i], camel_case_of(ast.fields[i].name), i as nat) == Ok::<
            FieldOutView,
            MappingErrorView,
        >(record.fields[i]));
    }
}

/// Lowering never refuses a message as empty.
pub proof fn lemma_record_not_empty(
    filename: Seq<char>,
    msg_name: Seq<char>,
    namespace: Seq<char>,
    ast: ASTDefView,
)
    ensures
        record_of(filename, msg_name, namespace, ast) != Err::<SchemaRecordView, CompileErrorView>(
            CompileErrorView::EmptyInput,
        ),
{
}

} // verus!
