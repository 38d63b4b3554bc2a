//! Reading a schema document into the resolved `Schema` model.
use vstd::prelude::*;
use vstd::string::StringExecFns;
use crate::accounts::AccountIndexTable;
use crate::dispatch::{Decoder, EntryDecl, InstructionDef, Schema, SchemaError, linked, schema_valid};
use crate::compile::schema_defect;
use crate::idl::{Json, get_member, map_idl_type, member_index, names_view, resolve, text_eq};
use crate::schema::{Field, TypeBody, TypeDef};

verus! {

/// Why a schema document cannot be read; each names the item concerned.
#[derive(Debug, PartialEq, Eq)]
pub enum IdlError {
    /// A required property is absent or has the wrong shape.
    Missing(String),
    /// A type reference names a type that is neither defined nor supplied.
    UnknownType(String),
    /// The document reads, but its tables would be ambiguous or incomplete.
    Invalid(SchemaError),
}

/// The value of member `key` when `j` is an object that has one.
pub open spec fn member(j: Json, key: Seq<char>) -> Option<Json> {
    match j {
        Json::Obj(ms) => match member_index(ms@, key, 0) {
            Some(i) => Some(ms@[i].value),
            None => None,
        },
        _ => None,
    }
}

/// The string held by member `key`, if it is one.
pub open spec fn str_member(j: Json, key: Seq<char>) -> Option<Seq<char>> {
    match member(j, key) {
        Some(Json::Str(s)) => Some(s@),
        _ => None,
    }
}

/// The items of an array.
pub open spec fn arr_items(j: Option<Json>) -> Option<Seq<Json>> {
    match j {
        Some(Json::Arr(v)) => Some(v@),
        _ => None,
    }
}

/// The bytes of a discriminator: an array of integers below 256.
pub open spec fn disc_bytes(j: Option<Json>) -> Option<Seq<u8>> {
    match arr_items(j) {
        Some(items) => if forall|i: int| 0 <= i < items.len() ==> (#[trigger] items[i] matches Json::Num(n) && n < 256) {
            Some(items.map_values(|x: Json| match x {
                Json::Num(n) => n as u8,
                _ => 0u8,
            }))
        } else {
            None
        },
        None => None,
    }
}

pub open spec fn key_name() -> Seq<char> {
    seq!['n', 'a', 'm', 'e']
}

pub open spec fn key_type() -> Seq<char> {
    seq!['t', 'y', 'p', 'e']
}

/// `f` is what the `{"name", "type"}` object `j` declares.
pub open spec fn field_read(j: Json, names: Seq<Seq<char>>, f: Field) -> bool {
    &&& str_member(j, key_name()) == Some(f.name@)
    &&& member(j, key_type()) matches Some(t) && resolve(t, names) == Some(f.ty)
}

/// Reads the string member `key` of `j`.
fn get_str<'a>(j: &'a Json, key: &str) -> (r: Option<&'a String>)
    ensures
        match str_member(*j, key@) {
            Some(s) => r matches Some(x) && x@ == s,
            None => r is None,
        },
{
    match get_member(j, key) {
        Some(Json::Str(s)) => Some(s),
        _ => None,
    }
}

/// Reads the array member `key` of `j`.
fn get_arr<'a>(j: &'a Json, key: &str) -> (r: Option<&'a Vec<Json>>)
    ensures
        match arr_items(member(*j, key@)) {
            Some(items) => r matches Some(x) && x@ == items,
            None => r is None,
        },
{
    match get_member(j, key) {
        Some(Json::Arr(v)) => Some(v),
        _ => None,
    }
}

/// Reads a discriminator: an array of integers below 256.
pub fn read_disc(j: Option<&Json>) -> (r: Option<Vec<u8>>)
    ensures
        match disc_bytes(match j { Some(x) => Some(*x), None => None }) {
            Some(d) => r matches Some(v) && v@ == d,
            None => r is None,
        },
{
    let items = match j {
        Some(Json::Arr(v)) => v,
        _ => {
            return None;
        },
    };
    let ghost spec_j = match j { Some(x) => Some(*x), None => None::<Json> };
    assert(arr_items(spec_j) == Some(items@));
    let mut out: Vec<u8> = Vec::new();
    let mut i: usize = 0;
    while i < items.len()
        invariant
            i <= items@.len(),
            arr_items(spec_j) == Some(items@),
            spec_j == match j { Some(x) => Some(*x), None => None::<Json> },
            out@.len() == i,
            forall|k: int| 0 <= k < i ==> (#[trigger] items@[k] matches Json::Num(n) && n < 256 && out@[k] == n as u8),
        decreases items@.len() - i,
    {
        match &items[i] {
            Json::Num(n) => {
                if *n >= 256 {
                    assert(!(items@[i as int] matches Json::Num(m) && m < 256));
                    assert(disc_bytes(spec_j) is None);
                    return None;
                }
                out.push(*n as u8);
            },
            _ => {
                assert(!(items@[i as int] matches Json::Num(m) && m < 256));
                    assert(disc_bytes(spec_j) is None);
                return None;
            },
        }
        i = i + 1;
    }
    proof {
        let items_s = items@;
        assert(arr_items(spec_j) == Some(items_s));
        assert(out@ =~= items_s.map_values(|x: Json| match x {
            Json::Num(n) => n as u8,
            _ => 0u8,
        }));
    }
    Some(out)
}

pub open spec fn key_kind() -> Seq<char> {
    seq!['k', 'i', 'n', 'd']
}

pub open spec fn key_fields() -> Seq<char> {
    seq!['f', 'i', 'e', 'l', 'd', 's']
}

pub open spec fn key_variants() -> Seq<char> {
    seq!['v', 'a', 'r', 'i', 'a', 'n', 't', 's']
}

/// `j` declares a field whose type resolves.
pub open spec fn field_ok(j: Json, names: Seq<Seq<char>>) -> bool {
    &&& str_member(j, key_name()) is Some
    &&& member(j, key_type()) matches Some(t) && resolve(t, names) is Some
}

/// Reads a `{"name", "type"}` field declaration of the item named `owner`.
pub fn read_field(j: &Json, names: &Vec<String>, owner: &String) -> (r: Result<Field, IdlError>)
    ensures
        r matches Err(e) ==> !(e is Invalid),
        r is Ok == field_ok(*j, names_view(names@)),
        r matches Ok(f) ==> field_read(*j, names_view(names@), f),
{
    proof {
        reveal_strlit("name");
        reveal_strlit("type");
        assert("name"@ =~= key_name());
        assert("type"@ =~= key_type());
    }
    let name = match get_str(j, "name") {
        Some(n) => n.clone(),
        None => {
            return Err(IdlError::Missing(owner.clone()));
        },
    };
    let t = match get_member(j, "type") {
        Some(t) => t,
        None => {
            return Err(IdlError::Missing(owner.clone()));
        },
    };
    match map_idl_type(t, names) {
        Some(ty) => Ok(Field { name, ty }),
        None => Err(IdlError::UnknownType(owner.clone())),
    }
}

/// Every item of `items` declares a field whose type resolves.
pub open spec fn fields_ok(items: Seq<Json>, names: Seq<Seq<char>>) -> bool {
    forall|i: int| 0 <= i < items.len() ==> field_ok(#[trigger] items[i], names)
}

/// `fs` are the fields that `items` declare, in order.
pub open spec fn fields_read(items: Seq<Json>, names: Seq<Seq<char>>, fs: Seq<Field>) -> bool {
    &&& fs.len() == items.len()
    &&& forall|i: int| 0 <= i < items.len() ==> field_read(#[trigger] items[i], names, fs[i])
}

/// Reads a list of field declarations of the item named `owner`.
pub fn read_fields(items: &Vec<Json>, names: &Vec<String>, owner: &String) -> (r: Result<Vec<Field>, IdlError>)
    ensures
        r matches Err(e) ==> !(e is Invalid),
        r is Ok == fields_ok(items@, names_view(names@)),
        r matches Ok(fs) ==> fields_read(items@, names_view(names@), fs@),
{
    let mut out: Vec<Field> = Vec::new();
    let mut i: usize = 0;
    while i < items.len()
        invariant
            i <= items@.len(),
            out@.len() == i,
            forall|k: int| 0 <= k < i ==> field_read(#[trigger] items@[k], names_view(names@), out@[k]),
            forall|k: int| 0 <= k < i ==> field_ok(#[trigger] items@[k], names_view(names@)),
        decreases items@.len() - i,
    {
        match read_field(&items[i], names, owner) {
            Ok(f) => {
                out.push(f);
            },
            Err(e) => {
                return Err(e);
            },
        }
        i = i + 1;
    }
    Ok(out)
}

/// The names held by the `"name"` members of `items`, when each has one.
pub open spec fn names_read(items: Seq<Json>, ns: Seq<Seq<char>>) -> bool {
    &&& ns.len() == items.len()
    &&& forall|i: int| 0 <= i < items.len() ==> str_member(#[trigger] items[i], key_name()) == Some(ns[i])
}

/// Reads the `"name"` member of each of `items`; `what` names the list in an error.
pub fn read_names(items: &Vec<Json>, what: &String) -> (r: Result<Vec<String>, IdlError>)
    ensures
        r matches Err(e) ==> !(e is Invalid),
        r is Ok == all_named(items@),
        r matches Ok(ns) ==> names_read(items@, names_view(ns@)),
        r matches Ok(ns) ==> ns@.len() == items@.len(),
{
    proof {
        reveal_strlit("name");
        assert("name"@ =~= key_name());
    }
    let mut out: Vec<String> = Vec::new();
    let mut i: usize = 0;
    while i < items.len()
        invariant
            i <= items@.len(),
            out@.len() == i,
            forall|k: int| 0 <= k < i ==> str_member(#[trigger] items@[k], key_name()) == Some(out@[k]@),
            "name"@ == key_name(),
        decreases items@.len() - i,
    {
        match get_str(&items[i], "name") {
            Some(n) => {
                out.push(n.clone());
            },
            None => {
                return Err(IdlError::Missing(what.clone()));
            },
        }
        i = i + 1;
    }
    Ok(out)
}

/// `td` is what the entry `j` of the `"types"` list declares.
pub open spec fn type_def_read(j: Json, names: Seq<Seq<char>>, td: TypeDef) -> bool {
    &&& str_member(j, key_name()) == Some(td.name@)
    &&& member(j, key_type()) matches Some(t) && (match td.body {
        TypeBody::Struct(fs) => str_member(t, key_kind()) == Some(seq!['s', 't', 'r', 'u', 'c', 't'])
            && match arr_items(member(t, key_fields())) {
            Some(items) => fields_read(items, names, fs@),
            None => fs@.len() == 0,
        },
        TypeBody::Enum(vs) => str_member(t, key_kind()) == Some(seq!['e', 'n', 'u', 'm'])
            && (arr_items(member(t, key_variants())) matches Some(items) && names_read(items, names_view(vs@))),
    })
}

/// Every item of `items` has a string `"name"`.
pub open spec fn all_named(items: Seq<Json>) -> bool {
    forall|i: int| 0 <= i < items.len() ==> str_member(#[trigger] items[i], key_name()) is Some
}

/// `j` is a well-formed entry of the `"types"` list whose field types resolve.
pub open spec fn type_def_ok(j: Json, names: Seq<Seq<char>>) -> bool {
    &&& str_member(j, key_name()) is Some
    &&& member(j, key_type()) matches Some(t) && ((str_member(t, key_kind()) == Some(seq!['s', 't', 'r', 'u', 'c', 't'])
        && match arr_items(member(t, key_fields())) {
        Some(items) => fields_ok(items, names),
        None => true,
    }) || (str_member(t, key_kind()) == Some(seq!['e', 'n', 'u', 'm']) && (arr_items(member(t, key_variants())) matches Some(
        items,
    ) && all_named(items))))
}

/// Reads one entry of the `"types"` list: a struct with optional `"fields"`, or an enum with
/// `"variants"`.
pub fn read_type_def(j: &Json, names: &Vec<String>) -> (r: Result<TypeDef, IdlError>)
    ensures
        r matches Err(e) ==> !(e is Invalid),
        r is Ok == type_def_ok(*j, names_view(names@)),
        r matches Ok(td) ==> type_def_read(*j, names_view(names@), td),
{
    proof {
        reveal_strlit("name");
        reveal_strlit("type");
        reveal_strlit("kind");
        reveal_strlit("fields");
        reveal_strlit("variants");
        reveal_strlit("struct");
        reveal_strlit("enum");
        assert("name"@ =~= key_name());
        assert("type"@ =~= key_type());
        assert("kind"@ =~= key_kind());
        assert("fields"@ =~= key_fields());
        assert("variants"@ =~= key_variants());
        assert("struct"@ =~= seq!['s', 't', 'r', 'u', 'c', 't']);
        assert("enum"@ =~= seq!['e', 'n', 'u', 'm']);
    }
    let name = match get_str(j, "name") {
        Some(n) => n.clone(),
        None => {
            return Err(IdlError::Missing(String::from_str("types")));
        },
    };
    let t = match get_member(j, "type") {
        Some(t) => t,
        None => {
            return Err(IdlError::Missing(name));
        },
    };
    let kind = match get_str(t, "kind") {
        Some(k) => k,
        None => {
            return Err(IdlError::Missing(name));
        },
    };
    if text_eq(kind.as_str(), "struct") {
        let fields = match get_arr(t, "fields") {
            Some(items) => match read_fields(items, names, &name) {
                Ok(fs) => fs,
                Err(e) => {
                    return Err(e);
                },
            },
            None => Vec::new(),
        };
        Ok(TypeDef { name, body: TypeBody::Struct(fields) })
    } else if text_eq(kind.as_str(), "enum") {
        let variants = match get_arr(t, "variants") {
            Some(items) => match read_names(items, &name) {
                Ok(vs) => vs,
                Err(e) => {
                    return Err(e);
                },
            },
            None => {
                return Err(IdlError::Missing(name));
            },
        };
        Ok(TypeDef { name, body: TypeBody::Enum(variants) })
    } else {
        Err(IdlError::Missing(name))
    }
}

pub open spec fn key_disc() -> Seq<char> {
    seq!['d', 'i', 's', 'c', 'r', 'i', 'm', 'i', 'n', 'a', 't', 'o', 'r']
}

pub open spec fn key_args() -> Seq<char> {
    seq!['a', 'r', 'g', 's']
}

pub open spec fn key_accounts() -> Seq<char> {
    seq!['a', 'c', 'c', 'o', 'u', 'n', 't', 's']
}

/// `ins` is what the entry `j` of the `"instructions"` list declares.
pub open spec fn instruction_read(j: Json, names: Seq<Seq<char>>, ins: InstructionDef) -> bool {
    &&& str_member(j, key_name()) == Some(ins.name@)
    &&& disc_bytes(member(j, key_disc())) == Some(ins.disc@)
    &&& arr_items(member(j, key_args())) matches Some(items) && fields_read(items, names, ins.args@)
    &&& match arr_items(member(j, key_accounts())) {
        Some(items) => names_read(items, names_view(ins.accounts.names@)),
        None => ins.accounts.names@.len() == 0,
    }
}

/// `j` is a well-formed entry of the `"instructions"` list whose argument types resolve.
pub open spec fn instruction_ok(j: Json, names: Seq<Seq<char>>) -> bool {
    &&& str_member(j, key_name()) is Some
    &&& disc_bytes(member(j, key_disc())) is Some
    &&& arr_items(member(j, key_args())) matches Some(items) && fields_ok(items, names)
    &&& match arr_items(member(j, key_accounts())) {
        Some(items) => all_named(items),
        None => true,
    }
}

/// Reads one entry of the `"instructions"` list.
pub fn read_instruction(j: &Json, names: &Vec<String>) -> (r: Result<InstructionDef, IdlError>)
    ensures
        r matches Err(e) ==> !(e is Invalid),
        r is Ok == instruction_ok(*j, names_view(names@)),
        r matches Ok(ins) ==> instruction_read(*j, names_view(names@), ins),
{
    proof {
        reveal_strlit("name");
        reveal_strlit("discriminator");
        reveal_strlit("args");
        reveal_strlit("accounts");
        assert("name"@ =~= key_name());
        assert("discriminator"@ =~= key_disc());
        assert("args"@ =~= key_args());
        assert("accounts"@ =~= key_accounts());
    }
    let name = match get_str(j, "name") {
        Some(n) => n.clone(),
        None => {
            return Err(IdlError::Missing(String::from_str("instructions")));
        },
    };
    let disc = match read_disc(get_member(j, "discriminator")) {
        Some(d) => d,
        None => {
            return Err(IdlError::Missing(name));
        },
    };
    let args = match get_arr(j, "args") {
        Some(items) => match read_fields(items, names, &name) {
            Ok(fs) => fs,
            Err(e) => {
                return Err(e);
            },
        },
        None => {
            return Err(IdlError::Missing(name));
        },
    };
    let accounts = match get_arr(j, "accounts") {
        Some(items) => match read_names(items, &name) {
            Ok(ns) => ns,
            Err(e) => {
                return Err(e);
            },
        },
        None => Vec::new(),
    };
    Ok(InstructionDef { name, disc, args, accounts: AccountIndexTable::new(accounts) })
}

/// `d` is what the entry `j` of the `"accounts"` or `"events"` list declares.
pub open spec fn decl_read(j: Json, d: EntryDecl) -> bool {
    &&& str_member(j, key_name()) == Some(d.name@)
    &&& disc_bytes(member(j, key_disc())) == Some(d.disc@)
}

/// `j` is a well-formed entry of the `"accounts"` or `"events"` list.
pub open spec fn decl_ok(j: Json) -> bool {
    str_member(j, key_name()) is Some && disc_bytes(member(j, key_disc())) is Some
}

/// Every entry of the optional list `items` is well formed.
pub open spec fn decls_ok(items: Option<Seq<Json>>) -> bool {
    match items {
        Some(sq) => all_decls_ok(sq),
        None => true,
    }
}

pub open spec fn all_decls_ok(sq: Seq<Json>) -> bool {
    forall|i: int| 0 <= i < sq.len() ==> decl_ok(#[trigger] sq[i])
}

/// Reads one entry of the `"accounts"` or `"events"` list.
pub fn read_decl(j: &Json) -> (r: Result<EntryDecl, IdlError>)
    ensures
        r matches Err(e) ==> !(e is Invalid),
        r is Ok == decl_ok(*j),
        r matches Ok(d) ==> decl_read(*j, d),
{
    proof {
        reveal_strlit("name");
        reveal_strlit("discriminator");
        assert("name"@ =~= key_name());
        assert("discriminator"@ =~= key_disc());
    }
    let name = match get_str(j, "name") {
        Some(n) => n.clone(),
        None => {
            return Err(IdlError::Missing(String::from_str("accounts or events")));
        },
    };
    match read_disc(get_member(j, "discriminator")) {
        Some(disc) => Ok(EntryDecl { name, disc }),
        None => Err(IdlError::Missing(name)),
    }
}

/// `ds` are the declarations that the optional list `items` holds.
pub open spec fn decls_read(items: Option<Seq<Json>>, ds: Seq<EntryDecl>) -> bool {
    match items {
        Some(items) => ds.len() == items.len() && forall|i: int| 0 <= i < items.len() ==> decl_read(#[trigger] items[i], ds[i]),
        None => ds.len() == 0,
    }
}

/// Reads the optional `"accounts"` or `"events"` list.
fn read_decls(list: Option<&Vec<Json>>) -> (r: Result<Vec<EntryDecl>, IdlError>)
    ensures
        r matches Err(e) ==> !(e is Invalid),
        r is Ok == decls_ok(match list { Some(v) => Some(v@), None => None }),
        r matches Ok(ds) ==> decls_read(match list { Some(v) => Some(v@), None => None }, ds@),
{
    let items = match list {
        Some(v) => v,
        None => {
            return Ok(Vec::new());
        },
    };
    let mut out: Vec<EntryDecl> = Vec::new();
    let mut i: usize = 0;
    while i < items.len()
        invariant
            i <= items@.len(),
            out@.len() == i,
            forall|k: int| 0 <= k < i ==> decl_read(#[trigger] items@[k], out@[k]) && decl_ok(items@[k]),
            list == Some(items),
        decreases items@.len() - i,
    {
        match read_decl(&items[i]) {
            Ok(d) => {
                out.push(d);
            },
            Err(e) => {
                assert(!decl_ok(items@[i as int]));
                assert(!all_decls_ok(items@));
                return Err(e);
            },
        }
        i = i + 1;
    }
    Ok(out)
}

pub open spec fn type_names(types: Seq<TypeDef>) -> Seq<Seq<char>> {
    types.map_values(|t: TypeDef| t.name@)
}

/// `s` is what the document `doc` declares, with `externals` supplied after the locally defined
/// types; type references resolve against the names of all of them.
pub open spec fn schema_read(doc: Json, externals: Seq<TypeDef>, s: Schema) -> bool {
    let names = type_names(s.types@);
    &&& str_member(doc, seq!['a', 'd', 'd', 'r', 'e', 's', 's']) == Some(s.address@)
    &&& match arr_items(member(doc, seq!['t', 'y', 'p', 'e', 's'])) {
        Some(items) => {
            &&& s.types@.len() == items.len() + externals.len()
            &&& forall|i: int| 0 <= i < items.len() ==> type_def_read(#[trigger] items[i], names, s.types@[i])
            &&& s.types@.subrange(items.len() as int, s.types@.len() as int) == externals
        },
        None => s.types@ == externals,
    }
    &&& arr_items(member(doc, key_instructions())) matches Some(items) && s.instructions@.len() == items.len()
        && forall|i: int| 0 <= i < items.len() ==> instruction_read(#[trigger] items[i], names, s.instructions@[i])
    &&& decls_read(arr_items(member(doc, key_accounts())), s.accounts@)
    &&& decls_read(arr_items(member(doc, seq!['e', 'v', 'e', 'n', 't', 's'])), s.events@)
}

/// The `"types"` list of `doc`, empty when there is none.
pub open spec fn doc_types(doc: Json) -> Seq<Json> {
    match arr_items(member(doc, seq!['t', 'y', 'p', 'e', 's'])) {
        Some(items) => items,
        None => Seq::empty(),
    }
}

/// The names of the entries of a `"types"` list in which every entry is named.
pub open spec fn local_names(items: Seq<Json>) -> Seq<Seq<char>> {
    items.map_values(|j: Json| str_member(j, key_name())->Some_0)
}

/// `doc` is a well-formed schema document whose type references all resolve, given the host's
/// `externals`.
pub open spec fn schema_ok(doc: Json, externals: Seq<TypeDef>) -> bool {
    let items = doc_types(doc);
    let names = local_names(items) + type_names(externals);
    &&& str_member(doc, seq!['a', 'd', 'd', 'r', 'e', 's', 's']) is Some
    &&& all_named(items)
    &&& all_type_defs_ok(items, names)
    &&& arr_items(member(doc, key_instructions())) matches Some(ins) && all_instructions_ok(ins, names)
    &&& decls_ok(arr_items(member(doc, key_accounts())))
    &&& decls_ok(arr_items(member(doc, seq!['e', 'v', 'e', 'n', 't', 's'])))
}

pub open spec fn all_type_defs_ok(items: Seq<Json>, names: Seq<Seq<char>>) -> bool {
    forall|i: int| 0 <= i < items.len() ==> type_def_ok(#[trigger] items[i], names)
}

pub open spec fn all_instructions_ok(items: Seq<Json>, names: Seq<Seq<char>>) -> bool {
    forall|i: int| 0 <= i < items.len() ==> instruction_ok(#[trigger] items[i], names)
}

pub open spec fn key_instructions() -> Seq<char> {
    seq!['i', 'n', 's', 't', 'r', 'u', 'c', 't', 'i', 'o', 'n', 's']
}

/// `names` followed by the names of `extra`.
fn append_names(names: Vec<String>, extra: &Vec<TypeDef>) -> (r: Vec<String>)
    ensures
        names_view(r@) == names_view(names@) + type_names(extra@),
{
    let ghost first = names@;
    let mut out = names;
    let mut k: usize = 0;
    while k < extra.len()
        invariant
            k <= extra@.len(),
            names_view(out@) == names_view(first) + type_names(extra@.subrange(0, k as int)),
        decreases extra@.len() - k,
    {
        let ghost before = out@;
        out.push(extra[k].name.clone());
        proof {
            assert(names_view(out@) =~= names_view(before).push(extra@[k as int].name@));
            assert(type_names(extra@.subrange(0, k + 1)) =~= type_names(extra@.subrange(0, k as int)).push(extra@[k as int].name@));
            assert(names_view(out@) =~= names_view(first) + type_names(extra@.subrange(0, k + 1)));
        }
        k = k + 1;
    }
    assert(extra@.subrange(0, extra@.len() as int) =~= extra@);
    out
}

/// Reads each entry of a `"types"` list.
fn read_type_defs(items: &Vec<Json>, names: &Vec<String>) -> (r: Result<Vec<TypeDef>, IdlError>)
    ensures
        r matches Err(e) ==> !(e is Invalid),
        r is Ok == all_type_defs_ok(items@, names_view(names@)),
        r matches Ok(ts) ==> ts@.len() == items@.len() && forall|x: int|
            0 <= x < items@.len() ==> type_def_read(#[trigger] items@[x], names_view(names@), ts@[x]),
{
    let mut types: Vec<TypeDef> = Vec::new();
    let mut i: usize = 0;
    while i < items.len()
        invariant
            i <= items@.len(),
            types@.len() == i,
            forall|x: int| 0 <= x < i ==> type_def_read(#[trigger] items@[x], names_view(names@), types@[x])
                && type_def_ok(items@[x], names_view(names@)),
        decreases items@.len() - i,
    {
        match read_type_def(&items[i], names) {
            Ok(td) => {
                types.push(td);
            },
            Err(e) => {
                assert(!type_def_ok(items@[i as int], names_view(names@)));
                return Err(e);
            },
        }
        i = i + 1;
    }
    Ok(types)
}

/// Reads each entry of the `"instructions"` list.
fn read_instructions(items: &Vec<Json>, names: &Vec<String>) -> (r: Result<Vec<InstructionDef>, IdlError>)
    ensures
        r matches Err(e) ==> !(e is Invalid),
        r is Ok == all_instructions_ok(items@, names_view(names@)),
        r matches Ok(v) ==> v@.len() == items@.len() && forall|x: int|
            0 <= x < items@.len() ==> instruction_read(#[trigger] items@[x], names_view(names@), v@[x]),
{
    let mut out: Vec<InstructionDef> = Vec::new();
    let mut i: usize = 0;
    while i < items.len()
        invariant
            i <= items@.len(),
            out@.len() == i,
            forall|x: int| 0 <= x < i ==> instruction_read(#[trigger] items@[x], names_view(names@), out@[x])
                && instruction_ok(items@[x], names_view(names@)),
        decreases items@.len() - i,
    {
        match read_instruction(&items[i], names) {
            Ok(ins) => {
                out.push(ins);
            },
            Err(e) => {
                assert(!instruction_ok(items@[i as int], names_view(names@)));
                return Err(e);
            },
        }
        i = i + 1;
    }
    Ok(out)
}

/// Reads a schema document. The types it defines come first, then `externals`, the types the
/// host supplies for names the document does not define.
pub fn read_schema(doc: &Json, externals: Vec<TypeDef>) -> (r: Result<Schema, IdlError>)
    ensures
        r matches Err(e) ==> !(e is Invalid),
        r is Ok == schema_ok(*doc, externals@),
        r matches Ok(s) ==> schema_read(*doc, externals@, s),
{
    proof {
        reveal_strlit("address");
        reveal_strlit("types");
        reveal_strlit("instructions");
        reveal_strlit("accounts");
        reveal_strlit("events");
        assert("address"@ =~= seq!['a', 'd', 'd', 'r', 'e', 's', 's']);
        assert("types"@ =~= seq!['t', 'y', 'p', 'e', 's']);
        assert("instructions"@ =~= key_instructions());
        assert("accounts"@ =~= key_accounts());
        assert("events"@ =~= seq!['e', 'v', 'e', 'n', 't', 's']);
    }
    let ghost ext = externals@;
    let mut supplied = externals;
    let address = match get_str(doc, "address") {
        Some(a) => a.clone(),
        None => {
            return Err(IdlError::Missing(String::from_str("address")));
        },
    };
    let empty: Vec<Json> = Vec::new();
    let type_items = match get_arr(doc, "types") {
        Some(items) => items,
        None => &empty,
    };
    assert(type_items@ == doc_types(*doc));
    let types_what = String::from_str("types");
    let local = match read_names(type_items, &types_what) {
        Ok(ns) => ns,
        Err(e) => {
            return Err(e);
        },
    };
    let ghost local_view = names_view(local@);
    let names = append_names(local, &supplied);
    let ghost all_names = local_names(type_items@) + type_names(ext);
    proof {
        assert(local_view =~= local_names(type_items@));
        assert(names_view(names@) =~= all_names);
    }
    let mut types = match read_type_defs(type_items, &names) {
        Ok(ts) => ts,
        Err(e) => {
            return Err(e);
        },
    };
    let ghost local_types = types@;
    types.append(&mut supplied);
    proof {
        assert forall|x: int| 0 <= x < types@.len() implies #[trigger] type_names(types@)[x] == all_names[x] by {
            if x < type_items@.len() {
                assert(type_def_read(type_items@[x], names_view(names@), local_types[x]));
            }
        }
        assert(type_names(types@) =~= all_names);
        assert(types@.subrange(type_items@.len() as int, types@.len() as int) =~= ext);
        assert forall|x: int| 0 <= x < type_items@.len() implies type_def_read(#[trigger] type_items@[x], all_names, types@[x]) by {
            assert(types@[x] == local_types[x]);
        }
    }
    let ins_items = match get_arr(doc, "instructions") {
        Some(items) => items,
        None => {
            return Err(IdlError::Missing(String::from_str("instructions")));
        },
    };
    let instructions = match read_instructions(ins_items, &names) {
        Ok(v) => v,
        Err(e) => {
            return Err(e);
        },
    };
    let accounts = match read_decls(get_arr(doc, "accounts")) {
        Ok(ds) => ds,
        Err(e) => {
            return Err(e);
        },
    };
    let events = match read_decls(get_arr(doc, "events")) {
        Ok(ds) => ds,
        Err(e) => {
            return Err(e);
        },
    };
    Ok(Schema { address, types, instructions, accounts, events })
}

/// Reads a schema document and compiles it into a decoder. `externals` are the types the host
/// supplies for names that the document does not define.
pub fn anchor_idl(doc: &Json, externals: Vec<TypeDef>) -> (r: Result<Decoder, IdlError>)
    ensures
        r matches Ok(d) ==> d.wf() && exists|s: Schema| #[trigger] schema_read(*doc, externals@, s) && schema_valid(s)
            && d.defs@ == s.types@ && d.instructions@ == s.instructions@ && linked(s.types@, s.accounts@, d.accounts@)
            && linked(s.types@, s.events@, d.events@),
        r matches Err(IdlError::Invalid(e)) ==> exists|s: Schema| #[trigger] schema_read(*doc, externals@, s) && schema_defect(s, e),
        (r matches Err(e) && !(e is Invalid)) == !schema_ok(*doc, externals@),
{
    let ghost ext = externals@;
    match read_schema(doc, externals) {
        Ok(s) => {
            let ghost sg = s;
            match Decoder::compile(s) {
                Ok(d) => {
                    assert(schema_read(*doc, ext, sg));
                    Ok(d)
                },
                Err(e) => {
                    assert(schema_read(*doc, ext, sg));
                    Err(IdlError::Invalid(e))
                },
            }
        },
        Err(e) => Err(e),
    }
}

} // verus!
