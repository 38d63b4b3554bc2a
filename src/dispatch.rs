//! Compilation of a schema into three discriminator tables, and the decode entry points.
use vstd::prelude::*;
use vstd::slice::slice_subrange;
use crate::accounts::AccountIndexTable;
use crate::decode::{
    Leaf, LeafV, decode_exact, decode_exact_fields, decode_exact_layout, decode_exact_layout_bytes,
    leaves_view,
};
use crate::schema::{Field, Layout, TypeDef};
use crate::DISC_LEN;

verus! {

/// A declared instruction: its arguments form an anonymous struct after the discriminator.
#[derive(Debug)]
pub struct InstructionDef {
    pub name: String,
    pub disc: Vec<u8>,
    pub args: Vec<Field>,
    pub accounts: AccountIndexTable,
}

/// A declared account or event: it decodes with the type definition of the same name.
#[derive(Debug)]
pub struct EntryDecl {
    pub name: String,
    pub disc: Vec<u8>,
}

/// A compiled account or event entry: `def` is the position of its type definition.
#[derive(Debug)]
pub struct Entry {
    pub name: String,
    pub disc: Vec<u8>,
    pub def: usize,
}

/// The schema with its type references resolved to positions in `types`.
#[derive(Debug)]
pub struct Schema {
    pub address: String,
    pub types: Vec<TypeDef>,
    pub instructions: Vec<InstructionDef>,
    pub accounts: Vec<EntryDecl>,
    pub events: Vec<EntryDecl>,
}

/// Why a schema does not compile; each names the offending item.
#[derive(Debug, PartialEq, Eq)]
pub enum SchemaError {
    /// A discriminator that is not exactly eight bytes long.
    BadDiscriminator(String),
    /// A discriminator already used by an earlier item of the same category.
    DuplicateDiscriminator(String),
    /// An instruction discriminator equal to the self-emission sentinel.
    ReservedDiscriminator(String),
    /// An instruction that declares one account name twice.
    DuplicateAccount(String),
    /// An account or event without a type definition of the same name.
    MissingType(String),
}

/// A decoded payload: the position of the matched item in its table and its leaves.
#[derive(Debug, PartialEq, Eq)]
pub struct Decoded {
    pub index: usize,
    pub values: Vec<Leaf>,
}

pub struct DecodedV {
    pub index: int,
    pub values: Seq<LeafV>,
}

impl View for Decoded {
    type V = DecodedV;

    open spec fn view(&self) -> DecodedV {
        DecodedV { index: self.index as int, values: leaves_view(self.values@) }
    }
}

/// A decoded instruction: an ordinary call, or an event emitted through a self-call.
#[derive(Debug, PartialEq, Eq)]
pub enum DecodedInstruction {
    Call(Decoded),
    EmitCpi(Decoded),
}

pub enum InstructionV {
    Call(DecodedV),
    EmitCpi(DecodedV),
}

impl View for DecodedInstruction {
    type V = InstructionV;

    open spec fn view(&self) -> InstructionV {
        match self {
            DecodedInstruction::Call(d) => InstructionV::Call(d@),
            DecodedInstruction::EmitCpi(d) => InstructionV::EmitCpi(d@),
        }
    }
}

/// The discriminator of the instruction through which a program emits events to itself.
pub open spec fn sentinel() -> Seq<u8> {
    seq![228u8, 69u8, 165u8, 46u8, 81u8, 203u8, 154u8, 29u8]
}

/// Position of the first discriminator in `discs[k..]` equal to `d`.
pub open spec fn first_disc(discs: Seq<Seq<u8>>, d: Seq<u8>, k: nat) -> Option<int>
    decreases discs.len() - k,
{
    if k >= discs.len() {
        None
    } else if discs[k as int] == d {
        Some(k as int)
    } else {
        first_disc(discs, d, k + 1)
    }
}

/// Every discriminator is eight bytes long and no two are equal.
pub open spec fn discs_ok(discs: Seq<Seq<u8>>) -> bool {
    &&& forall|i: int| 0 <= i < discs.len() ==> (#[trigger] discs[i]).len() == DISC_LEN
    &&& forall|i: int, j: int|
        0 <= i < discs.len() && 0 <= j < discs.len() && i != j ==> #[trigger] discs[i] != #[trigger] discs[j]
}

pub open spec fn instruction_discs(s: Seq<InstructionDef>) -> Seq<Seq<u8>> {
    s.map_values(|x: InstructionDef| x.disc@)
}

pub open spec fn decl_discs(s: Seq<EntryDecl>) -> Seq<Seq<u8>> {
    s.map_values(|x: EntryDecl| x.disc@)
}

pub open spec fn entry_discs(s: Seq<Entry>) -> Seq<Seq<u8>> {
    s.map_values(|x: Entry| x.disc@)
}

/// Position of the first type definition named `name`.
pub open spec fn type_index(types: Seq<TypeDef>, name: Seq<char>, k: nat) -> Option<int>
    decreases types.len() - k,
{
    if k >= types.len() {
        None
    } else if types[k as int].name@ == name {
        Some(k as int)
    } else {
        type_index(types, name, k + 1)
    }
}

/// What compilation requires of a schema.
pub open spec fn schema_valid(s: Schema) -> bool {
    &&& discs_ok(instruction_discs(s.instructions@))
    &&& !instruction_discs(s.instructions@).contains(sentinel())
    &&& forall|i: int| 0 <= i < s.instructions@.len() ==> (#[trigger] s.instructions@[i]).accounts.wf()
    &&& discs_ok(decl_discs(s.accounts@))
    &&& discs_ok(decl_discs(s.events@))
    &&& forall|i: int| 0 <= i < s.accounts@.len() ==> type_index(s.types@, (#[trigger] s.accounts@[i]).name@, 0) is Some
    &&& forall|i: int| 0 <= i < s.events@.len() ==> type_index(s.types@, (#[trigger] s.events@[i]).name@, 0) is Some
}

/// `es` is `decls` with each entry linked to its like-named type definition.
pub open spec fn linked(types: Seq<TypeDef>, decls: Seq<EntryDecl>, es: Seq<Entry>) -> bool {
    &&& es.len() == decls.len()
    &&& forall|i: int| 0 <= i < es.len() ==> {
        &&& (#[trigger] es[i]).name@ == decls[i].name@
        &&& es[i].disc@ == decls[i].disc@
        &&& type_index(types, decls[i].name@, 0) == Some(es[i].def as int)
    }
}

/// The compiled decoder: three independent discriminator tables over one set of type definitions.
#[derive(Debug)]
pub struct Decoder {
    pub address: String,
    pub defs: Vec<TypeDef>,
    pub instructions: Vec<InstructionDef>,
    pub accounts: Vec<Entry>,
    pub events: Vec<Entry>,
}

impl Decoder {
    /// The tables a successful compilation produces.
    pub open spec fn wf(&self) -> bool {
        &&& discs_ok(instruction_discs(self.instructions@))
        &&& !instruction_discs(self.instructions@).contains(sentinel())
        &&& forall|i: int| 0 <= i < self.instructions@.len() ==> (#[trigger] self.instructions@[i]).accounts.wf()
        &&& discs_ok(entry_discs(self.accounts@))
        &&& discs_ok(entry_discs(self.events@))
        &&& forall|i: int| 0 <= i < self.accounts@.len() ==> (#[trigger] self.accounts@[i]).def < self.defs@.len()
        &&& forall|i: int| 0 <= i < self.events@.len() ==> (#[trigger] self.events@[i]).def < self.defs@.len()
    }

    /// How deeply named types may nest: a path through definitions that are not cyclic
    /// visits each at most once.
    pub open spec fn fuel(&self) -> nat {
        self.defs@.len()
    }

    pub open spec fn entry_result(&self, es: Seq<Entry>, b: Seq<u8>) -> Option<DecodedV> {
        if b.len() < DISC_LEN {
            None
        } else {
            match first_disc(entry_discs(es), b.subrange(0, DISC_LEN as int), 0) {
                Some(i) => match decode_exact_layout(self.defs@, Layout::Def(es[i].def), b, DISC_LEN as int, self.fuel()) {
                    Some(v) => Some(DecodedV { index: i, values: v }),
                    None => None,
                },
                None => None,
            }
        }
    }

    /// What `decode_event` gives on `b`.
    pub open spec fn event_result(&self, b: Seq<u8>) -> Option<DecodedV> {
        self.entry_result(self.events@, b)
    }

    /// What `decode_account` gives on `b`.
    pub open spec fn account_result(&self, b: Seq<u8>) -> Option<DecodedV> {
        self.entry_result(self.accounts@, b)
    }

    /// What `decode_instruction` gives on `b`.
    pub open spec fn instruction_result(&self, b: Seq<u8>) -> Option<InstructionV> {
        if b.len() < DISC_LEN {
            None
        } else {
            let d = b.subrange(0, DISC_LEN as int);
            match first_disc(instruction_discs(self.instructions@), d, 0) {
                Some(i) => {
                    let args = self.instructions@[i].args@;
                    if args.len() == 0 {
                        Some(InstructionV::Call(DecodedV { index: i, values: Seq::empty() }))
                    } else {
                        match decode_exact(self.defs@, args, b, DISC_LEN as int, self.fuel()) {
                            Some(v) => Some(InstructionV::Call(DecodedV { index: i, values: v })),
                            None => None,
                        }
                    }
                },
                None => if d == sentinel() {
                    match self.event_result(b.subrange(DISC_LEN as int, b.len() as int)) {
                        Some(ev) => Some(InstructionV::EmitCpi(ev)),
                        None => None,
                    }
                } else {
                    None
                },
            }
        }
    }

    /// Decodes instruction call data: the leading discriminator picks the instruction, whose
    /// arguments must use up the rest; the self-emission sentinel hands the rest to `decode_event`.
    pub fn decode_instruction(&self, data: &[u8]) -> (r: Option<DecodedInstruction>)
        ensures
            match self.instruction_result(data@) {
                Some(v) => r matches Some(x) && x@ == v,
                None => r is None,
            },
    {
        if data.len() < DISC_LEN {
            return None;
        }
        let d = slice_subrange(data, 0, DISC_LEN);
        match find_instruction(&self.instructions, d) {
            Some(i) => {
                let args = &self.instructions[i].args;
                if args.len() == 0 {
                    let values: Vec<Leaf> = Vec::new();
                    proof {
                        assert(leaves_view(values@) =~= Seq::<LeafV>::empty());
                    }
                    Some(DecodedInstruction::Call(Decoded { index: i, values }))
                } else {
                    match decode_exact_fields(&self.defs, args, data, DISC_LEN, self.defs.len()) {
                        Some(values) => Some(DecodedInstruction::Call(Decoded { index: i, values })),
                        None => None,
                    }
                }
            },
            None => {
                if is_sentinel(d) {
                    let rest = slice_subrange(data, DISC_LEN, data.len());
                    match self.decode_event(rest) {
                        Some(ev) => Some(DecodedInstruction::EmitCpi(ev)),
                        None => None,
                    }
                } else {
                    None
                }
            },
        }
    }

    /// Decodes account storage: the leading discriminator picks the account type.
    pub fn decode_account(&self, data: &[u8]) -> (r: Option<Decoded>)
        ensures
            match self.account_result(data@) {
                Some(v) => r matches Some(x) && x@ == v,
                None => r is None,
            },
    {
        self.decode_entry(&self.accounts, data)
    }

    /// Decodes an event payload: the leading discriminator picks the event type.
    pub fn decode_event(&self, data: &[u8]) -> (r: Option<Decoded>)
        ensures
            match self.event_result(data@) {
                Some(v) => r matches Some(x) && x@ == v,
                None => r is None,
            },
    {
        self.decode_entry(&self.events, data)
    }

    /// Decodes `data`, without a discriminator, as the type definition at position `def`;
    /// the type's fields must use up every byte.
    pub fn decode_type(&self, def: usize, data: &[u8]) -> (r: Option<Vec<Leaf>>)
        ensures
            match decode_exact_layout(self.defs@, Layout::Def(def), data@, 0, self.fuel()) {
                Some(v) => r matches Some(w) && leaves_view(w@) == v,
                None => r is None,
            },
    {
        let t = Layout::Def(def);
        decode_exact_layout_bytes(&self.defs, &t, data, 0, self.defs.len())
    }

    fn decode_entry(&self, es: &Vec<Entry>, data: &[u8]) -> (r: Option<Decoded>)
        ensures
            match self.entry_result(es@, data@) {
                Some(v) => r matches Some(x) && x@ == v,
                None => r is None,
            },
    {
        if data.len() < DISC_LEN {
            return None;
        }
        let d = slice_subrange(data, 0, DISC_LEN);
        match find_entry(es, d) {
            Some(i) => {
                let t = Layout::Def(es[i].def);
                match decode_exact_layout_bytes(&self.defs, &t, data, DISC_LEN, self.defs.len()) {
                    Some(values) => Some(Decoded { index: i, values }),
                    None => None,
                }
            },
            None => None,
        }
    }
}

/// Whether two byte strings are equal.
pub fn bytes_eq(a: &[u8], b: &[u8]) -> (r: bool)
    ensures
        r == (a@ == b@),
{
    if a.len() != b.len() {
        return false;
    }
    let mut i: usize = 0;
    while i < a.len()
        invariant
            i <= a@.len(),
            a@.len() == b@.len(),
            forall|k: int| 0 <= k < i ==> a@[k] == b@[k],
        decreases a@.len() - i,
    {
        if a[i] != b[i] {
            return false;
        }
        i = i + 1;
    }
    assert(a@ =~= b@);
    true
}

/// Whether `d` is the self-emission sentinel.
pub fn is_sentinel(d: &[u8]) -> (r: bool)
    ensures
        r == (d@ == sentinel()),
{
    let s: [u8; 8] = [228, 69, 165, 46, 81, 203, 154, 29];
    let r = bytes_eq(d, &s);
    assert(s@ =~= sentinel());
    r
}

/// Position of the first instruction whose discriminator is `d`.
fn find_instruction(es: &Vec<InstructionDef>, d: &[u8]) -> (r: Option<usize>)
    ensures
        match first_disc(instruction_discs(es@), d@, 0) {
            Some(i) => r matches Some(x) && x == i,
            None => r is None,
        },
        r matches Some(i) ==> i < es@.len() && es@[i as int].disc@ == d@,
{
    let ghost discs = instruction_discs(es@);
    let mut i: usize = 0;
    while i < es.len()
        invariant
            i <= es@.len(),
            discs == instruction_discs(es@),
            first_disc(discs, d@, 0) == first_disc(discs, d@, i as nat),
        decreases es@.len() - i,
    {
        if bytes_eq(es[i].disc.as_slice(), d) {
            assert(discs[i as int] == d@);
            return Some(i);
        }
        assert(discs[i as int] != d@);
        i = i + 1;
    }
    assert(first_disc(discs, d@, i as nat) is None);
    None
}

/// Position of the first entry whose discriminator is `d`.
fn find_entry(es: &Vec<Entry>, d: &[u8]) -> (r: Option<usize>)
    ensures
        match first_disc(entry_discs(es@), d@, 0) {
            Some(i) => r matches Some(x) && x == i,
            None => r is None,
        },
        r matches Some(i) ==> i < es@.len() && es@[i as int].disc@ == d@,
{
    let ghost discs = entry_discs(es@);
    let mut i: usize = 0;
    while i < es.len()
        invariant
            i <= es@.len(),
            discs == entry_discs(es@),
            first_disc(discs, d@, 0) == first_disc(discs, d@, i as nat),
        decreases es@.len() - i,
    {
        if bytes_eq(es[i].disc.as_slice(), d) {
            assert(discs[i as int] == d@);
            return Some(i);
        }
        assert(discs[i as int] != d@);
        i = i + 1;
    }
    assert(first_disc(discs, d@, i as nat) is None);
    None
}

} // verus!
