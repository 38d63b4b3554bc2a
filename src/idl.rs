//! The schema document's JSON shape, and how its type references resolve.
use vstd::prelude::*;
use vstd::string::StrSliceExecFns;
use crate::schema::{Layout, Primitive};

verus! {

/// A JSON value as the schema document holds it.
#[derive(Debug)]
pub enum Json {
    Null,
    Bool(bool),
    /// A non-negative integer.
    Num(u64),
    /// Any other number.
    OtherNum,
    Str(String),
    Arr(Vec<Json>),
    Obj(Vec<Member>),
}

/// One key of a JSON object with its value.
#[derive(Debug)]
pub struct Member {
    pub key: String,
    pub value: Json,
}

/// Position of the first member of `ms` whose key is `key`.
pub open spec fn member_index(ms: Seq<Member>, key: Seq<char>, k: nat) -> Option<int>
    decreases ms.len() - k,
{
    if k >= ms.len() {
        None
    } else if ms[k as int].key@ == key {
        Some(k as int)
    } else {
        member_index(ms, key, k + 1)
    }
}

/// Position of the first name in `names` equal to `name`.
pub open spec fn name_index(names: Seq<Seq<char>>, name: Seq<char>, k: nat) -> Option<int>
    decreases names.len() - k,
{
    if k >= names.len() {
        None
    } else if names[k as int] == name {
        Some(k as int)
    } else {
        name_index(names, name, k + 1)
    }
}

/// The primitive that the type name `s` denotes, if any.
pub open spec fn prim_named(s: Seq<char>) -> Option<Primitive> {
    if s == seq!['u', '8'] {
        Some(Primitive::U8)
    } else if s == seq!['u', '1', '6'] {
        Some(Primitive::U16)
    } else if s == seq!['u', '6', '4'] {
        Some(Primitive::U64)
    } else if s == seq!['i', '6', '4'] {
        Some(Primitive::I64)
    } else if s == seq!['b', 'o', 'o', 'l'] {
        Some(Primitive::Bool)
    } else if s == seq!['p', 'u', 'b', 'k', 'e', 'y'] {
        Some(Primitive::Pubkey)
    } else if s == seq!['s', 't', 'r', 'i', 'n', 'g'] {
        Some(Primitive::Str)
    } else {
        None
    }
}

/// The layout that a type reference denotes, given every type name that may be referred to
/// (`names[i]` is the name of definition `i`). Unknown shapes give the placeholder; a
/// reference to a name outside `names` gives `None`.
pub open spec fn resolve(j: Json, names: Seq<Seq<char>>) -> Option<Layout>
    decreases j,
{
    match j {
        Json::Str(s) => match prim_named(s@) {
            Some(p) => Some(Layout::Prim(p)),
            None => Some(Layout::Unknown),
        },
        Json::Obj(ms) => match member_index(ms@, seq!['a', 'r', 'r', 'a', 'y'], 0) {
            Some(i) => if 0 <= i < ms@.len() {
                match ms[i].value {
                    Json::Arr(items) => if items@.len() == 2 {
                        match items[1] {
                            Json::Num(n) => if n <= usize::MAX {
                                match resolve(items[0], names) {
                                    Some(inner) => Some(Layout::Array(Box::new(inner), n as usize)),
                                    None => None,
                                }
                            } else {
                                Some(Layout::Unknown)
                            },
                            _ => Some(Layout::Unknown),
                        }
                    } else {
                        Some(Layout::Unknown)
                    },
                    _ => Some(Layout::Unknown),
                }
            } else {
                None
            },
            None => match member_index(ms@, seq!['d', 'e', 'f', 'i', 'n', 'e', 'd'], 0) {
                Some(i) => if 0 <= i < ms@.len() {
                    resolve_defined(ms[i].value, names)
                } else {
                    None
                },
                None => Some(Layout::Unknown),
            },
        },
        _ => Some(Layout::Unknown),
    }
}

/// The layout of a `{"name": ...}` reference to a named type.
pub open spec fn resolve_defined(j: Json, names: Seq<Seq<char>>) -> Option<Layout> {
    match j {
        Json::Obj(dm) => match member_index(dm@, seq!['n', 'a', 'm', 'e'], 0) {
            Some(k) => match dm@[k].value {
                Json::Str(name) => match name_index(names, name@, 0) {
                    Some(t) => Some(Layout::Def(t as usize)),
                    None => None,
                },
                _ => Some(Layout::Unknown),
            },
            None => Some(Layout::Unknown),
        },
        _ => Some(Layout::Unknown),
    }
}

pub open spec fn names_view(names: Seq<String>) -> Seq<Seq<char>> {
    names.map_values(|s: String| s@)
}

/// Whether two strings hold the same characters.
pub fn text_eq(a: &str, b: &str) -> (r: bool)
    ensures
        r == (a@ == b@),
{
    let n = a.unicode_len();
    if n != b.unicode_len() {
        return false;
    }
    let mut i: usize = 0;
    while i < n
        invariant
            n == a@.len(),
            n == b@.len(),
            i <= n,
            forall|k: int| 0 <= k < i ==> a@[k] == b@[k],
        decreases n - i,
    {
        if a.get_char(i) != b.get_char(i) {
            return false;
        }
        i = i + 1;
    }
    assert(a@ =~= b@);
    true
}

/// The primitive that the type name `s` denotes, if any.
pub fn prim_of_name(s: &str) -> (r: Option<Primitive>)
    ensures
        r == prim_named(s@),
{
    proof {
        reveal_strlit("u8");
        assert("u8"@ =~= seq!['u', '8']);
        reveal_strlit("u16");
        assert("u16"@ =~= seq!['u', '1', '6']);
        reveal_strlit("u64");
        assert("u64"@ =~= seq!['u', '6', '4']);
        reveal_strlit("i64");
        assert("i64"@ =~= seq!['i', '6', '4']);
        reveal_strlit("bool");
        assert("bool"@ =~= seq!['b', 'o', 'o', 'l']);
        reveal_strlit("pubkey");
        assert("pubkey"@ =~= seq!['p', 'u', 'b', 'k', 'e', 'y']);
        reveal_strlit("string");
        assert("string"@ =~= seq!['s', 't', 'r', 'i', 'n', 'g']);
    }
    if text_eq(s, "u8") {
        Some(Primitive::U8)
    } else if text_eq(s, "u16") {
        Some(Primitive::U16)
    } else if text_eq(s, "u64") {
        Some(Primitive::U64)
    } else if text_eq(s, "i64") {
        Some(Primitive::I64)
    } else if text_eq(s, "bool") {
        Some(Primitive::Bool)
    } else if text_eq(s, "pubkey") {
        Some(Primitive::Pubkey)
    } else if text_eq(s, "string") {
        Some(Primitive::Str)
    } else {
        None
    }
}

/// Position of the first member of `ms` whose key is `key`.
pub fn find_member(ms: &Vec<Member>, key: &str) -> (r: Option<usize>)
    ensures
        match member_index(ms@, key@, 0) {
            Some(i) => r matches Some(x) && x == i,
            None => r is None,
        },
        r matches Some(x) ==> x < ms@.len(),
{
    let mut i: usize = 0;
    while i < ms.len()
        invariant
            i <= ms@.len(),
            member_index(ms@, key@, 0) == member_index(ms@, key@, i as nat),
        decreases ms@.len() - i,
    {
        if text_eq(ms[i].key.as_str(), key) {
            return Some(i);
        }
        i = i + 1;
    }
    None
}

/// The value of the first member named `key`, when `j` is an object that has one.
pub fn get_member<'a>(j: &'a Json, key: &str) -> (r: Option<&'a Json>)
    ensures
        match j {
            Json::Obj(ms) => match member_index(ms@, key@, 0) {
                Some(i) => r matches Some(v) && *v == ms@[i].value,
                None => r is None,
            },
            _ => r is None,
        },
{
    match j {
        Json::Obj(ms) => match find_member(ms, key) {
            Some(i) => Some(&ms[i].value),
            None => None,
        },
        _ => None,
    }
}

/// Position of the first name in `names` equal to `name`.
pub fn find_name(names: &Vec<String>, name: &str) -> (r: Option<usize>)
    ensures
        match name_index(names_view(names@), name@, 0) {
            Some(i) => r matches Some(x) && x == i,
            None => r is None,
        },
{
    let ghost nv = names_view(names@);
    let mut i: usize = 0;
    while i < names.len()
        invariant
            i <= names@.len(),
            nv == names_view(names@),
            name_index(nv, name@, 0) == name_index(nv, name@, i as nat),
        decreases names@.len() - i,
    {
        if text_eq(names[i].as_str(), name) {
            return Some(i);
        }
        i = i + 1;
    }
    None
}

/// Maps a type reference of the schema to a layout: a primitive name, `{"array": [inner, len]}`
/// or `{"defined": {"name": ...}}`. `names[i]` is the name of definition `i`, local ones first.
/// Shapes the grammar does not know give the placeholder; a name outside `names` gives `None`.
pub fn map_idl_type(arg_type: &Json, names: &Vec<String>) -> (r: Option<Layout>)
    ensures
        r == resolve(*arg_type, names_view(names@)),
    decreases arg_type,
{
    proof {
        reveal_strlit("array");
        assert("array"@ =~= seq!['a', 'r', 'r', 'a', 'y']);
        reveal_strlit("defined");
        assert("defined"@ =~= seq!['d', 'e', 'f', 'i', 'n', 'e', 'd']);
        reveal_strlit("name");
        assert("name"@ =~= seq!['n', 'a', 'm', 'e']);
    }
    match arg_type {
        Json::Str(s) => match prim_of_name(s.as_str()) {
            Some(p) => Some(Layout::Prim(p)),
            None => Some(Layout::Unknown),
        },
        Json::Obj(ms) => {
            match find_member(ms, "array") {
                Some(i) => {
                    match &ms[i].value {
                        Json::Arr(items) => {
                            if items.len() != 2 {
                                return Some(Layout::Unknown);
                            }
                            match &items[1] {
                                Json::Num(n) => {
                                    if *n as u128 > usize::MAX as u128 {
                                        return Some(Layout::Unknown);
                                    }
                                    proof {
                                        assert(decreases_to!(*arg_type => items@[0]));
                                    }
                                    match map_idl_type(&items[0], names) {
                                        Some(inner) => Some(Layout::Array(Box::new(inner), *n as usize)),
                                        None => None,
                                    }
                                },
                                _ => Some(Layout::Unknown),
                            }
                        },
                        _ => Some(Layout::Unknown),
                    }
                },
                None => match find_member(ms, "defined") {
                    Some(i) => resolve_defined_exec(&ms[i].value, names),
                    None => Some(Layout::Unknown),
                },
            }
        },
        _ => Some(Layout::Unknown),
    }
}

fn resolve_defined_exec(j: &Json, names: &Vec<String>) -> (r: Option<Layout>)
    ensures
        r == resolve_defined(*j, names_view(names@)),
{
    proof {
        reveal_strlit("name");
        assert("name"@ =~= seq!['n', 'a', 'm', 'e']);
    }
    match j {
        Json::Obj(dm) => match find_member(dm, "name") {
            Some(k) => match &dm[k].value {
                Json::Str(name) => match find_name(names, name.as_str()) {
                    Some(t) => Some(Layout::Def(t)),
                    None => None,
                },
                _ => Some(Layout::Unknown),
            },
            None => Some(Layout::Unknown),
        },
        _ => Some(Layout::Unknown),
    }
}

} // verus!
