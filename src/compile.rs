//! Compilation of a resolved schema into a `Decoder`, rejecting schemas whose tables
//! would be ambiguous.
use vstd::prelude::*;
use crate::dispatch::{
    Decoder, Entry, EntryDecl, InstructionDef, Schema, SchemaError, bytes_eq, decl_discs, discs_ok,
    entry_discs, instruction_discs, is_sentinel, linked, schema_valid, sentinel, type_index,
};
use crate::schema::TypeDef;
use crate::DISC_LEN;

verus! {

/// `e` names an instruction that has the defect `e` reports.
pub open spec fn instruction_defect(s: Seq<InstructionDef>, e: SchemaError) -> bool {
    match e {
        SchemaError::BadDiscriminator(n) => exists|i: int| 0 <= i < s.len() && #[trigger] s[i].name@ == n@ && s[i].disc@.len() != DISC_LEN,
        SchemaError::ReservedDiscriminator(n) => exists|i: int| 0 <= i < s.len() && #[trigger] s[i].name@ == n@ && s[i].disc@ == sentinel(),
        SchemaError::DuplicateDiscriminator(n) => exists|i: int, j: int|
            0 <= i < s.len() && 0 <= j < s.len() && i != j && #[trigger] s[i].name@ == n@ && s[i].disc@ == #[trigger] s[j].disc@,
        SchemaError::DuplicateAccount(n) => exists|i: int| 0 <= i < s.len() && #[trigger] s[i].name@ == n@ && !s[i].accounts.wf(),
        SchemaError::MissingType(_) => false,
    }
}

/// `e` names an account or event declaration that has the defect `e` reports.
pub open spec fn decl_defect(types: Seq<TypeDef>, s: Seq<EntryDecl>, e: SchemaError) -> bool {
    match e {
        SchemaError::BadDiscriminator(n) => exists|i: int| 0 <= i < s.len() && #[trigger] s[i].name@ == n@ && s[i].disc@.len() != DISC_LEN,
        SchemaError::DuplicateDiscriminator(n) => exists|i: int, j: int|
            0 <= i < s.len() && 0 <= j < s.len() && i != j && #[trigger] s[i].name@ == n@ && s[i].disc@ == #[trigger] s[j].disc@,
        SchemaError::MissingType(n) => exists|i: int| 0 <= i < s.len() && #[trigger] s[i].name@ == n@ && type_index(types, n@, 0) is None,
        _ => false,
    }
}

/// The defect that `e` reports is present in `s`.
pub open spec fn schema_defect(s: Schema, e: SchemaError) -> bool {
    instruction_defect(s.instructions@, e) || decl_defect(s.types@, s.accounts@, e) || decl_defect(s.types@, s.events@, e)
}

pub open spec fn distinct_upto(discs: Seq<Seq<u8>>, i: int) -> bool {
    forall|a: int, b: int| 0 <= a < i && 0 <= b < i && a != b ==> #[trigger] discs[a] != #[trigger] discs[b]
}

pub open spec fn instructions_ok_upto(ins: Seq<InstructionDef>, i: int) -> bool {
    forall|k: int| 0 <= k < i ==> (#[trigger] ins[k]).disc@.len() == DISC_LEN && ins[k].disc@ != sentinel() && ins[k].accounts.wf()
}

pub open spec fn decls_ok_upto(types: Seq<TypeDef>, ds: Seq<EntryDecl>, i: int) -> bool {
    forall|k: int| 0 <= k < i ==> (#[trigger] ds[k]).disc@.len() == DISC_LEN && type_index(types, ds[k].name@, 0) is Some
}

/// The first defect among the instructions, if any.
fn check_instructions(ins: &Vec<InstructionDef>) -> (r: Option<SchemaError>)
    ensures
        r is None == (discs_ok(instruction_discs(ins@)) && !instruction_discs(ins@).contains(sentinel())
            && forall|i: int| 0 <= i < ins@.len() ==> (#[trigger] ins@[i]).accounts.wf()),
        r matches Some(e) ==> instruction_defect(ins@, e),
{
    let ghost discs = instruction_discs(ins@);
    let n = ins.len();
    let mut i: usize = 0;
    while i < n
        invariant
            n == ins@.len(),
            i <= n,
            discs == instruction_discs(ins@),
            instructions_ok_upto(ins@, i as int),
            distinct_upto(discs, i as int),
        decreases n - i,
    {
        let d = ins[i].disc.as_slice();
        assert(discs[i as int] == ins@[i as int].disc@);
        if d.len() != DISC_LEN {
            assert(discs[i as int].len() != DISC_LEN);
            assert(ins@[i as int].name@ == ins@[i as int].name@);
            return Some(SchemaError::BadDiscriminator(ins[i].name.clone()));
        }
        if is_sentinel(d) {
            assert(discs[i as int] == sentinel());
            assert(ins@[i as int].name@ == ins@[i as int].name@);
            return Some(SchemaError::ReservedDiscriminator(ins[i].name.clone()));
        }
        let mut j: usize = 0;
        while j < i
            invariant
                n == ins@.len(),
                j <= i < n,
                discs == instruction_discs(ins@),
                d@ == discs[i as int],
                instructions_ok_upto(ins@, i as int),
                distinct_upto(discs, i as int),
                forall|b: int| 0 <= b < j ==> discs[b] != discs[i as int],
            decreases i - j,
        {
            if bytes_eq(ins[j].disc.as_slice(), d) {
                assert(ins@[i as int].name@ == ins@[i as int].name@ && ins@[i as int].disc@ == ins@[j as int].disc@);
                assert(discs[i as int] == discs[j as int]);
                return Some(SchemaError::DuplicateDiscriminator(ins[i].name.clone()));
            }
            j = j + 1;
        }
        if ins[i].accounts.has_duplicate() {
            assert(ins@[i as int].name@ == ins@[i as int].name@);
            return Some(SchemaError::DuplicateAccount(ins[i].name.clone()));
        }
        assert(discs[i as int].len() == DISC_LEN && discs[i as int] != sentinel() && ins@[i as int].accounts.wf());
        assert(distinct_upto(discs, i + 1));
        i = i + 1;
    }
    assert(discs.len() == n);
    assert forall|k: int| 0 <= k < ins@.len() implies (#[trigger] ins@[k]).accounts.wf() && discs[k].len() == DISC_LEN && discs[k] != sentinel() by {
        assert(ins@[k].disc@ == discs[k]);
    }
    None
}

/// Position of the first type definition named `name`.
fn find_type(types: &Vec<TypeDef>, name: &String) -> (r: Option<usize>)
    ensures
        match type_index(types@, name@, 0) {
            Some(i) => r matches Some(x) && x == i,
            None => r is None,
        },
{
    let mut i: usize = 0;
    while i < types.len()
        invariant
            i <= types@.len(),
            type_index(types@, name@, 0) == type_index(types@, name@, i as nat),
        decreases types@.len() - i,
    {
        if types[i].name == *name {
            return Some(i);
        }
        i = i + 1;
    }
    None
}

/// The first defect among account or event declarations, if any.
fn check_decls(types: &Vec<TypeDef>, ds: &Vec<EntryDecl>) -> (r: Option<SchemaError>)
    ensures
        r is None == (discs_ok(decl_discs(ds@)) && forall|i: int| 0 <= i < ds@.len() ==> type_index(types@, (#[trigger] ds@[i]).name@, 0) is Some),
        r matches Some(e) ==> decl_defect(types@, ds@, e),
{
    let ghost discs = decl_discs(ds@);
    let n = ds.len();
    let mut i: usize = 0;
    while i < n
        invariant
            n == ds@.len(),
            i <= n,
            discs == decl_discs(ds@),
            decls_ok_upto(types@, ds@, i as int),
            distinct_upto(discs, i as int),
        decreases n - i,
    {
        let d = ds[i].disc.as_slice();
        assert(discs[i as int] == ds@[i as int].disc@);
        if d.len() != DISC_LEN {
            assert(discs[i as int].len() != DISC_LEN);
            assert(ds@[i as int].name@ == ds@[i as int].name@);
            return Some(SchemaError::BadDiscriminator(ds[i].name.clone()));
        }
        let mut j: usize = 0;
        while j < i
            invariant
                n == ds@.len(),
                j <= i < n,
                discs == decl_discs(ds@),
                d@ == discs[i as int],
                decls_ok_upto(types@, ds@, i as int),
                distinct_upto(discs, i as int),
                forall|b: int| 0 <= b < j ==> discs[b] != discs[i as int],
            decreases i - j,
        {
            if bytes_eq(ds[j].disc.as_slice(), d) {
                assert(ds@[i as int].name@ == ds@[i as int].name@ && ds@[i as int].disc@ == ds@[j as int].disc@);
                assert(discs[i as int] == discs[j as int]);
                return Some(SchemaError::DuplicateDiscriminator(ds[i].name.clone()));
            }
            j = j + 1;
        }
        if find_type(types, &ds[i].name).is_none() {
            assert(type_index(types@, ds@[i as int].name@, 0) is None);
            return Some(SchemaError::MissingType(ds[i].name.clone()));
        }
        assert(discs[i as int].len() == DISC_LEN && type_index(types@, ds@[i as int].name@, 0) is Some);
        assert(distinct_upto(discs, i + 1));
        i = i + 1;
    }
    assert(discs.len() == n);
    assert forall|k: int| 0 <= k < ds@.len() implies type_index(types@, (#[trigger] ds@[k]).name@, 0) is Some && discs[k].len() == DISC_LEN by {
        assert(ds@[k].disc@ == discs[k]);
    }
    None
}

/// Links each declaration, in order, to its like-named type definition.
fn link_decls(types: &Vec<TypeDef>, ds: Vec<EntryDecl>) -> (r: Vec<Entry>)
    requires
        forall|i: int| 0 <= i < ds@.len() ==> type_index(types@, (#[trigger] ds@[i]).name@, 0) is Some,
    ensures
        linked(types@, ds@, r@),
{
    let ghost all = ds@;
    let mut rest = ds;
    let mut out: Vec<Entry> = Vec::new();
    while rest.len() > 0
        invariant
            out@.len() + rest@.len() == all.len(),
            rest@ == all.subrange(out@.len() as int, all.len() as int),
            forall|i: int| 0 <= i < all.len() ==> type_index(types@, (#[trigger] all[i]).name@, 0) is Some,
            linked(types@, all.subrange(0, out@.len() as int), out@),
        decreases rest@.len(),
    {
        let ghost k = out@.len() as int;
        let d = rest.remove(0);
        assert(d == all[k]);
        let def = match find_type(types, &d.name) {
            Some(x) => x,
            None => {
                assert(type_index(types@, all[k].name@, 0) is Some);
                0
            },
        };
        out.push(Entry { name: d.name, disc: d.disc, def });
        assert(rest@ =~= all.subrange(out@.len() as int, all.len() as int));
        assert forall|i: int| 0 <= i < out@.len() implies {
            &&& (#[trigger] out@[i]).name@ == all.subrange(0, out@.len() as int)[i].name@
            &&& out@[i].disc@ == all.subrange(0, out@.len() as int)[i].disc@
            &&& type_index(types@, all.subrange(0, out@.len() as int)[i].name@, 0) == Some(out@[i].def as int)
        } by {
            if i < k {
                assert(all.subrange(0, out@.len() as int)[i] == all.subrange(0, k)[i]);
            }
        }
    }
    assert(all.subrange(0, out@.len() as int) =~= all);
    out
}

impl Decoder {
    /// Compiles a schema. It succeeds exactly when each category's discriminators are eight
    /// bytes long and distinct, no instruction uses the self-emission sentinel, no instruction
    /// names an account twice, and every account and event has a like-named type definition.
    pub fn compile(schema: Schema) -> (r: Result<Decoder, SchemaError>)
        ensures
            r is Ok == schema_valid(schema),
            r matches Ok(d) ==> {
                &&& d.wf()
                &&& d.address@ == schema.address@
                &&& d.defs@ == schema.types@
                &&& d.instructions@ == schema.instructions@
                &&& linked(schema.types@, schema.accounts@, d.accounts@)
                &&& linked(schema.types@, schema.events@, d.events@)
            },
            r matches Err(e) ==> schema_defect(schema, e),
    {
        let ghost s = schema;
        let Schema { address, types, instructions, accounts, events } = schema;
        if let Some(e) = check_instructions(&instructions) {
            return Err(e);
        }
        if let Some(e) = check_decls(&types, &accounts) {
            return Err(e);
        }
        if let Some(e) = check_decls(&types, &events) {
            return Err(e);
        }
        let accounts = link_decls(&types, accounts);
        let events = link_decls(&types, events);
        proof {
            lemma_linked_discs(types@, s.accounts@, accounts@);
            lemma_linked_discs(types@, s.events@, events@);
        }
        Ok(Decoder { address, defs: types, instructions, accounts, events })
    }
}

proof fn lemma_linked_discs(types: Seq<TypeDef>, ds: Seq<EntryDecl>, es: Seq<Entry>)
    requires
        linked(types, ds, es),
    ensures
        entry_discs(es) == decl_discs(ds),
        forall|i: int| 0 <= i < es.len() ==> (#[trigger] es[i]).def < types.len(),
{
    assert(entry_discs(es) =~= decl_discs(ds));
    assert forall|i: int| 0 <= i < es.len() implies (#[trigger] es[i]).def < types.len() by {
        lemma_type_index_bound(types, ds[i].name@, 0);
    }
}

proof fn lemma_type_index_bound(types: Seq<TypeDef>, name: Seq<char>, k: nat)
    ensures
        type_index(types, name, k) matches Some(i) ==> k <= i < types.len() && types[i].name@ == name,
    decreases types.len() - k,
{
    if k < types.len() && types[k as int].name@ != name {
        lemma_type_index_bound(types, name, k + 1);
    }
}

} // verus!
