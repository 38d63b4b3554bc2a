//! Decoding of the fixed little-endian / length-prefixed binary layout.
//!
//! A decoded value is the flat list of its primitive leaves, in declaration
//! order and depth first; the layout that was decoded gives them their shape.
use vstd::bytes::{
    spec_u16_from_le_bytes, spec_u32_from_le_bytes, spec_u64_from_le_bytes, u16_from_le_bytes,
    u32_from_le_bytes, u64_from_le_bytes,
};
use vstd::prelude::*;
use vstd::slice::{slice_subrange, slice_to_vec};
use vstd::utf8::{decode_utf8, valid_utf8};
use crate::schema::{Field, Layout, Primitive, TypeBody, TypeDef, layout_size};

verus! {

/// Width of an encoded public key.
pub const PUBKEY_LEN: usize = 32;

/// One decoded primitive value.
#[derive(Debug, PartialEq, Eq)]
pub enum Leaf {
    U8(u8),
    U16(u16),
    U64(u64),
    I64(i64),
    Bool(bool),
    Pubkey(Vec<u8>),
    Str(String),
    /// The ordinal of a payload-less enum variant.
    Variant(u8),
    /// The value of a placeholder layout.
    Unit,
}

/// Mathematical model of a decoded primitive value.
pub enum LeafV {
    U8(u8),
    U16(u16),
    U64(u64),
    I64(i64),
    Bool(bool),
    Pubkey(Seq<u8>),
    Str(Seq<char>),
    Variant(u8),
    Unit,
}

impl View for Leaf {
    type V = LeafV;

    open spec fn view(&self) -> LeafV {
        match self {
            Leaf::U8(x) => LeafV::U8(*x),
            Leaf::U16(x) => LeafV::U16(*x),
            Leaf::U64(x) => LeafV::U64(*x),
            Leaf::I64(x) => LeafV::I64(*x),
            Leaf::Bool(x) => LeafV::Bool(*x),
            Leaf::Pubkey(k) => LeafV::Pubkey(k@),
            Leaf::Str(s) => LeafV::Str(s@),
            Leaf::Variant(x) => LeafV::Variant(*x),
            Leaf::Unit => LeafV::Unit,
        }
    }
}

pub open spec fn leaves_view(s: Seq<Leaf>) -> Seq<LeafV> {
    s.map_values(|l: Leaf| l@)
}

/// Puts `v` in front of the leaves of a successful decode.
pub open spec fn prepend(v: Seq<LeafV>, r: Option<(Seq<LeafV>, int)>) -> Option<(Seq<LeafV>, int)> {
    match r {
        Some((w, end)) => Some((v + w, end)),
        None => None,
    }
}

/// Decodes one primitive starting at `pos`; on success gives the value and the position after it.
pub open spec fn decode_prim(p: Primitive, b: Seq<u8>, pos: int) -> Option<(LeafV, int)> {
    match p {
        Primitive::U8 => if pos + 1 <= b.len() {
            Some((LeafV::U8(b[pos]), pos + 1))
        } else {
            None
        },
        Primitive::U16 => if pos + 2 <= b.len() {
            Some((LeafV::U16(spec_u16_from_le_bytes(b.subrange(pos, pos + 2))), pos + 2))
        } else {
            None
        },
        Primitive::U64 => if pos + 8 <= b.len() {
            Some((LeafV::U64(spec_u64_from_le_bytes(b.subrange(pos, pos + 8))), pos + 8))
        } else {
            None
        },
        Primitive::I64 => if pos + 8 <= b.len() {
            Some((LeafV::I64(spec_u64_from_le_bytes(b.subrange(pos, pos + 8)) as i64), pos + 8))
        } else {
            None
        },
        Primitive::Bool => if pos + 1 <= b.len() && b[pos] <= 1 {
            Some((LeafV::Bool(b[pos] == 1), pos + 1))
        } else {
            None
        },
        Primitive::Pubkey => if pos + 32 <= b.len() {
            Some((LeafV::Pubkey(b.subrange(pos, pos + 32)), pos + 32))
        } else {
            None
        },
        Primitive::Str => if pos + 4 <= b.len() {
            let n = spec_u32_from_le_bytes(b.subrange(pos, pos + 4)) as int;
            let text = b.subrange(pos + 4, pos + 4 + n);
            if pos + 4 + n <= b.len() && valid_utf8(text) {
                Some((LeafV::Str(decode_utf8(text)), pos + 4 + n))
            } else {
                None
            }
        } else {
            None
        },
    }
}

/// Decodes a payload-less enum of `n` variants: a one-byte ordinal below `n`.
pub open spec fn decode_tag(n: nat, b: Seq<u8>, pos: int) -> Option<(Seq<LeafV>, int)> {
    if pos + 1 <= b.len() && (b[pos] as nat) < n {
        Some((seq![LeafV::Variant(b[pos])], pos + 1))
    } else {
        None
    }
}

/// Decodes layout `t` starting at `pos`. `fuel` bounds how deeply named types may nest;
/// a named type that contains itself by value has no finite encoding and never decodes.
pub open spec fn decode_layout(defs: Seq<TypeDef>, t: Layout, b: Seq<u8>, pos: int, fuel: nat) -> Option<(Seq<LeafV>, int)>
    decreases fuel, layout_size(t), 0nat,
{
    match t {
        Layout::Prim(p) => match decode_prim(p, b, pos) {
            Some((v, end)) => Some((seq![v], end)),
            None => None,
        },
        Layout::Array(e, n) => decode_repeat(defs, *e, n as nat, b, pos, fuel),
        Layout::Def(i) => if fuel == 0 || i >= defs.len() {
            None
        } else {
            match defs[i as int].body {
                TypeBody::Struct(fs) => decode_fields(defs, fs@, 0, b, pos, (fuel - 1) as nat),
                TypeBody::Enum(vs) => decode_tag(vs.len() as nat, b, pos),
            }
        },
        Layout::Unknown => Some((seq![LeafV::Unit], pos)),
    }
}

/// Decodes `n` consecutive elements of layout `e`.
pub open spec fn decode_repeat(defs: Seq<TypeDef>, e: Layout, n: nat, b: Seq<u8>, pos: int, fuel: nat) -> Option<(Seq<LeafV>, int)>
    decreases fuel, layout_size(e), n + 1,
{
    if n == 0 {
        Some((Seq::empty(), pos))
    } else {
        match decode_layout(defs, e, b, pos, fuel) {
            Some((v, mid)) => prepend(v, decode_repeat(defs, e, (n - 1) as nat, b, mid, fuel)),
            None => None,
        }
    }
}

/// Decodes the fields `fs[k..]` one after another.
pub open spec fn decode_fields(defs: Seq<TypeDef>, fs: Seq<Field>, k: nat, b: Seq<u8>, pos: int, fuel: nat) -> Option<(Seq<LeafV>, int)>
    decreases fuel + 1, 0nat, fs.len() - k,
{
    if k >= fs.len() {
        Some((Seq::empty(), pos))
    } else {
        match decode_layout(defs, fs[k as int].ty, b, pos, fuel) {
            Some((v, mid)) => prepend(v, decode_fields(defs, fs, k + 1, b, mid, fuel)),
            None => None,
        }
    }
}

/// Decodes the fields `fs` from `b[pos..]`, which they must use up exactly.
pub open spec fn decode_exact(defs: Seq<TypeDef>, fs: Seq<Field>, b: Seq<u8>, pos: int, fuel: nat) -> Option<Seq<LeafV>> {
    match decode_fields(defs, fs, 0, b, pos, fuel) {
        Some((v, end)) => if end == b.len() {
            Some(v)
        } else {
            None
        },
        None => None,
    }
}

/// Relies on `String::from_utf8`: it succeeds exactly on valid UTF-8 and then holds the
/// characters that the bytes encode.
#[verifier::external_body]
fn utf8_string(bytes: Vec<u8>) -> (r: Option<String>)
    ensures
        r is Some == valid_utf8(bytes@),
        r matches Some(s) ==> s@ == decode_utf8(bytes@),
{
    String::from_utf8(bytes).ok()
}

proof fn lemma_prepend_assoc(a: Seq<LeafV>, v: Seq<LeafV>, r: Option<(Seq<LeafV>, int)>)
    ensures
        prepend(a, prepend(v, r)) == prepend(a + v, r),
{
    if let Some((w, end)) = r {
        assert(a + (v + w) =~= (a + v) + w);
    }
}

proof fn lemma_leaves_push(s: Seq<Leaf>, l: Leaf)
    ensures
        leaves_view(s.push(l)) == leaves_view(s) + seq![l@],
{
    assert(leaves_view(s.push(l)) =~= leaves_view(s) + seq![l@]);
}

/// Decodes one primitive at `pos` and appends it to `out`.
pub fn decode_prim_into(p: Primitive, b: &[u8], pos: usize, out: &mut Vec<Leaf>) -> (r: Option<usize>)
    requires
        pos <= b@.len(),
    ensures
        match decode_prim(p, b@, pos as int) {
            Some((v, end)) => r matches Some(x) && x == end && leaves_view(final(out)@) == leaves_view(old(out)@).push(v),
            None => r is None && final(out)@ == old(out)@,
        },
        r matches Some(e) ==> pos <= e <= b@.len(),
{
    let len = b.len();
    let leaf: Leaf;
    let end: usize;
    match p {
        Primitive::U8 => {
            if len - pos < 1 {
                return None;
            }
            leaf = Leaf::U8(b[pos]);
            end = pos + 1;
        },
        Primitive::U16 => {
            if len - pos < 2 {
                return None;
            }
            leaf = Leaf::U16(u16_from_le_bytes(slice_subrange(b, pos, pos + 2)));
            end = pos + 2;
        },
        Primitive::U64 => {
            if len - pos < 8 {
                return None;
            }
            leaf = Leaf::U64(u64_from_le_bytes(slice_subrange(b, pos, pos + 8)));
            end = pos + 8;
        },
        Primitive::I64 => {
            if len - pos < 8 {
                return None;
            }
            leaf = Leaf::I64(u64_from_le_bytes(slice_subrange(b, pos, pos + 8)) as i64);
            end = pos + 8;
        },
        Primitive::Bool => {
            if len - pos < 1 || b[pos] > 1 {
                return None;
            }
            leaf = Leaf::Bool(b[pos] == 1);
            end = pos + 1;
        },
        Primitive::Pubkey => {
            if len - pos < PUBKEY_LEN {
                return None;
            }
            leaf = Leaf::Pubkey(slice_to_vec(slice_subrange(b, pos, pos + PUBKEY_LEN)));
            end = pos + PUBKEY_LEN;
        },
        Primitive::Str => {
            if len - pos < 4 {
                return None;
            }
            let n = u32_from_le_bytes(slice_subrange(b, pos, pos + 4)) as usize;
            if len - pos - 4 < n {
                return None;
            }
            let text = slice_to_vec(slice_subrange(b, pos + 4, pos + 4 + n));
            match utf8_string(text) {
                Some(s) => {
                    leaf = Leaf::Str(s);
                },
                None => {
                    return None;
                },
            }
            end = pos + 4 + n;
        },
    }
    proof {
        lemma_leaves_push(out@, leaf);
    }
    out.push(leaf);
    Some(end)
}

/// Decodes layout `t` at `pos`, appending its leaves to `out`; gives the position after it.
pub fn decode_layout_into(defs: &Vec<TypeDef>, t: &Layout, b: &[u8], pos: usize, fuel: usize, out: &mut Vec<Leaf>) -> (r: Option<usize>)
    requires
        pos <= b@.len(),
    ensures
        match decode_layout(defs@, *t, b@, pos as int, fuel as nat) {
            Some((v, end)) => r matches Some(x) && x == end && leaves_view(final(out)@) == leaves_view(old(out)@) + v,
            None => r is None,
        },
        r matches Some(e) ==> pos <= e <= b@.len(),
    decreases fuel, layout_size(*t), 0nat,
{
    match t {
        Layout::Prim(p) => {
            let r = decode_prim_into(*p, b, pos, out);
            proof {
                if let Some((v, end)) = decode_prim(*p, b@, pos as int) {
                    assert(leaves_view(old(out)@).push(v) =~= leaves_view(old(out)@) + seq![v]);
                }
            }
            r
        },
        Layout::Array(e, n) => decode_repeat_into(defs, e, *n, b, pos, fuel, out),
        Layout::Def(i) => {
            if fuel == 0 || *i >= defs.len() {
                return None;
            }
            match &defs[*i].body {
                TypeBody::Struct(fs) => decode_fields_into(defs, fs, b, pos, fuel - 1, out),
                TypeBody::Enum(vs) => {
                    if b.len() - pos < 1 || (b[pos] as usize) >= vs.len() {
                        return None;
                    }
                    let leaf = Leaf::Variant(b[pos]);
                    proof {
                        lemma_leaves_push(out@, leaf);
                    }
                    out.push(leaf);
                    Some(pos + 1)
                },
            }
        },
        Layout::Unknown => {
            proof {
                lemma_leaves_push(out@, Leaf::Unit);
            }
            out.push(Leaf::Unit);
            Some(pos)
        },
    }
}

/// Decodes `n` consecutive elements of layout `e` at `pos`, appending their leaves to `out`.
pub fn decode_repeat_into(defs: &Vec<TypeDef>, e: &Layout, n: usize, b: &[u8], pos: usize, fuel: usize, out: &mut Vec<Leaf>) -> (r: Option<usize>)
    requires
        pos <= b@.len(),
    ensures
        match decode_repeat(defs@, *e, n as nat, b@, pos as int, fuel as nat) {
            Some((v, end)) => r matches Some(x) && x == end && leaves_view(final(out)@) == leaves_view(old(out)@) + v,
            None => r is None,
        },
        r matches Some(x) ==> pos <= x <= b@.len(),
    decreases fuel, layout_size(*e), n + 1,
{
    let ghost start = leaves_view(out@);
    let ghost whole = decode_repeat(defs@, *e, n as nat, b@, pos as int, fuel as nat);
    let mut i: usize = 0;
    let mut cur: usize = pos;
    while i < n
        invariant
            i <= n,
            pos <= cur <= b@.len(),
            whole == decode_repeat(defs@, *e, n as nat, b@, pos as int, fuel as nat),
            leaves_view(out@).len() >= start.len(),
            leaves_view(out@).subrange(0, start.len() as int) == start,
            whole == prepend(
                leaves_view(out@).subrange(start.len() as int, leaves_view(out@).len() as int),
                decode_repeat(defs@, *e, (n - i) as nat, b@, cur as int, fuel as nat),
            ),
        decreases n - i,
    {
        let ghost before = leaves_view(out@);
        let ghost acc = before.subrange(start.len() as int, before.len() as int);
        match decode_layout_into(defs, e, b, cur, fuel, out) {
            Some(next) => {
                proof {
                    let v = decode_layout(defs@, *e, b@, cur as int, fuel as nat)->Some_0.0;
                    let after = leaves_view(out@);
                    assert(after == before + v);
                    assert(decode_repeat(defs@, *e, (n - i) as nat, b@, cur as int, fuel as nat) == prepend(
                        v, decode_repeat(defs@, *e, (n - i - 1) as nat, b@, next as int, fuel as nat)));
                    assert(after.subrange(0, start.len() as int) =~= start);
                    assert(after.subrange(start.len() as int, after.len() as int) =~= acc + v);
                    lemma_prepend_assoc(acc, v, decode_repeat(defs@, *e, (n - i - 1) as nat, b@, next as int, fuel as nat));
                }
                cur = next;
                i = i + 1;
            },
            None => {
                assert(decode_repeat(defs@, *e, (n - i) as nat, b@, cur as int, fuel as nat) is None);
                return None;
            },
        }
    }
    proof {
        assert(decode_repeat(defs@, *e, (n - i) as nat, b@, cur as int, fuel as nat) == Some((Seq::<LeafV>::empty(), cur as int)));
        let after = leaves_view(out@);
        let acc = after.subrange(start.len() as int, after.len() as int);
        assert(after =~= start + acc);
        assert(acc + Seq::<LeafV>::empty() =~= acc);
    }
    Some(cur)
}

/// Decodes the fields `fs` one after another at `pos`, appending their leaves to `out`.
pub fn decode_fields_into(defs: &Vec<TypeDef>, fs: &Vec<Field>, b: &[u8], pos: usize, fuel: usize, out: &mut Vec<Leaf>) -> (r: Option<usize>)
    requires
        pos <= b@.len(),
    ensures
        match decode_fields(defs@, fs@, 0, b@, pos as int, fuel as nat) {
            Some((v, end)) => r matches Some(x) && x == end && leaves_view(final(out)@) == leaves_view(old(out)@) + v,
            None => r is None,
        },
        r matches Some(x) ==> pos <= x <= b@.len(),
    decreases fuel + 1, 0nat, fs@.len() + 1,
{
    let ghost start = leaves_view(out@);
    let ghost whole = decode_fields(defs@, fs@, 0, b@, pos as int, fuel as nat);
    let mut k: usize = 0;
    let mut cur: usize = pos;
    while k < fs.len()
        invariant
            k <= fs@.len(),
            pos <= cur <= b@.len(),
            whole == decode_fields(defs@, fs@, 0, b@, pos as int, fuel as nat),
            leaves_view(out@).len() >= start.len(),
            leaves_view(out@).subrange(0, start.len() as int) == start,
            whole == prepend(
                leaves_view(out@).subrange(start.len() as int, leaves_view(out@).len() as int),
                decode_fields(defs@, fs@, k as nat, b@, cur as int, fuel as nat),
            ),
        decreases fs@.len() - k,
    {
        let ghost before = leaves_view(out@);
        let ghost acc = before.subrange(start.len() as int, before.len() as int);
        match decode_layout_into(defs, &fs[k].ty, b, cur, fuel, out) {
            Some(next) => {
                proof {
                    let v = decode_layout(defs@, fs@[k as int].ty, b@, cur as int, fuel as nat)->Some_0.0;
                    let after = leaves_view(out@);
                    assert(decode_fields(defs@, fs@, k as nat, b@, cur as int, fuel as nat) == prepend(
                        v, decode_fields(defs@, fs@, (k + 1) as nat, b@, next as int, fuel as nat)));
                    assert(after.subrange(0, start.len() as int) =~= start);
                    assert(after.subrange(start.len() as int, after.len() as int) =~= acc + v);
                    lemma_prepend_assoc(acc, v, decode_fields(defs@, fs@, (k + 1) as nat, b@, next as int, fuel as nat));
                }
                cur = next;
                k = k + 1;
            },
            None => {
                assert(decode_fields(defs@, fs@, k as nat, b@, cur as int, fuel as nat) is None);
                return None;
            },
        }
    }
    proof {
        assert(decode_fields(defs@, fs@, k as nat, b@, cur as int, fuel as nat) == Some((Seq::<LeafV>::empty(), cur as int)));
        let after = leaves_view(out@);
        let acc = after.subrange(start.len() as int, after.len() as int);
        assert(after =~= start + acc);
        assert(acc + Seq::<LeafV>::empty() =~= acc);
    }
    Some(cur)
}

/// Decodes the fields `fs` from `b[pos..]`, which they must use up exactly.
pub fn decode_exact_fields(defs: &Vec<TypeDef>, fs: &Vec<Field>, b: &[u8], pos: usize, fuel: usize) -> (r: Option<Vec<Leaf>>)
    requires
        pos <= b@.len(),
    ensures
        match decode_exact(defs@, fs@, b@, pos as int, fuel as nat) {
            Some(v) => r matches Some(w) && leaves_view(w@) == v,
            None => r is None,
        },
{
    let mut out: Vec<Leaf> = Vec::new();
    proof {
        assert(leaves_view(out@) =~= Seq::<LeafV>::empty());
    }
    match decode_fields_into(defs, fs, b, pos, fuel, &mut out) {
        Some(end) => {
            if end == b.len() {
                proof {
                    assert(leaves_view(out@) =~= Seq::<LeafV>::empty() + leaves_view(out@));
                }
                Some(out)
            } else {
                None
            }
        },
        None => None,
    }
}

/// Decodes layout `t` from `b[pos..]`, which it must use up exactly.
pub open spec fn decode_exact_layout(defs: Seq<TypeDef>, t: Layout, b: Seq<u8>, pos: int, fuel: nat) -> Option<Seq<LeafV>> {
    match decode_layout(defs, t, b, pos, fuel) {
        Some((v, end)) => if end == b.len() {
            Some(v)
        } else {
            None
        },
        None => None,
    }
}

/// Decodes layout `t` from `b[pos..]`, which it must use up exactly.
pub fn decode_exact_layout_bytes(defs: &Vec<TypeDef>, t: &Layout, b: &[u8], pos: usize, fuel: usize) -> (r: Option<Vec<Leaf>>)
    requires
        pos <= b@.len(),
    ensures
        match decode_exact_layout(defs@, *t, b@, pos as int, fuel as nat) {
            Some(v) => r matches Some(w) && leaves_view(w@) == v,
            None => r is None,
        },
{
    let mut out: Vec<Leaf> = Vec::new();
    proof {
        assert(leaves_view(out@) =~= Seq::<LeafV>::empty());
    }
    match decode_layout_into(defs, t, b, pos, fuel, &mut out) {
        Some(end) => {
            if end == b.len() {
                proof {
                    assert(leaves_view(out@) =~= Seq::<LeafV>::empty() + leaves_view(out@));
                }
                Some(out)
            } else {
                None
            }
        },
        None => None,
    }
}

} // verus!
