//! Properties of compiled decoders, stated over the models that the decode functions'
//! contracts use.
use vstd::bytes::{lemma_auto_spec_u64_to_from_le_bytes, spec_u32_from_le_bytes, spec_u64_to_le_bytes};
use vstd::prelude::*;
use crate::accounts::AccountIndexTable;
use crate::decode::{LeafV, decode_exact, decode_fields, decode_layout, decode_prim, decode_repeat, prepend};
use crate::dispatch::{Decoder, DecodedV, InstructionV, discs_ok, entry_discs, first_disc, instruction_discs, sentinel};
use crate::schema::{Field, Layout, Primitive, TypeBody, TypeDef, layout_size};
use crate::DISC_LEN;

verus! {

/// The first match from `k` on is a real match, and none comes before it.
pub proof fn lemma_first_disc(discs: Seq<Seq<u8>>, d: Seq<u8>, k: nat)
    ensures
        first_disc(discs, d, k) matches Some(j) ==> k <= j < discs.len() && discs[j] == d,
        first_disc(discs, d, k) is None ==> forall|j: int| k <= j < discs.len() ==> discs[j] != d,
        forall|j: int| k <= j < discs.len() && discs[j] == d ==> first_disc(discs, d, k) is Some,
    decreases discs.len() - k,
{
    if k < discs.len() && discs[k as int] != d {
        lemma_first_disc(discs, d, k + 1);
    }
}

/// Among distinct discriminators, looking up the one at position `i` finds `i`.
pub proof fn lemma_lookup_own_disc(discs: Seq<Seq<u8>>, i: int)
    requires
        discs_ok(discs),
        0 <= i < discs.len(),
    ensures
        first_disc(discs, discs[i], 0) == Some(i),
{
    lemma_first_disc(discs, discs[i], 0);
}

/// Within each category of a compiled decoder, distinct items have distinct discriminators,
/// and no instruction has the self-emission sentinel.
pub proof fn lemma_discriminators_distinct(d: Decoder, i: int, j: int)
    requires
        d.wf(),
        i != j,
    ensures
        0 <= i < d.instructions@.len() && 0 <= j < d.instructions@.len() ==> d.instructions@[i].disc@ != d.instructions@[j].disc@,
        0 <= i < d.accounts@.len() && 0 <= j < d.accounts@.len() ==> d.accounts@[i].disc@ != d.accounts@[j].disc@,
        0 <= i < d.events@.len() && 0 <= j < d.events@.len() ==> d.events@[i].disc@ != d.events@[j].disc@,
        0 <= i < d.instructions@.len() ==> d.instructions@[i].disc@ != sentinel(),
{
    let ins = instruction_discs(d.instructions@);
    let acc = entry_discs(d.accounts@);
    let ev = entry_discs(d.events@);
    if 0 <= i < d.instructions@.len() && 0 <= j < d.instructions@.len() {
        assert(ins[i] != ins[j]);
    }
    if 0 <= i < d.accounts@.len() && 0 <= j < d.accounts@.len() {
        assert(acc[i] != acc[j]);
    }
    if 0 <= i < d.events@.len() && 0 <= j < d.events@.len() {
        assert(ev[i] != ev[j]);
    }
    if 0 <= i < d.instructions@.len() {
        assert(ins[i] == d.instructions@[i].disc@);
    }
}

/// Slot lookup is a bijection: the slot of the name declared at slot `i` is `i`.
pub proof fn lemma_slot_bijection(t: AccountIndexTable, i: int)
    requires
        t.wf(),
        0 <= i < t.names@.len(),
    ensures
        t.index_of(t.names@[i]@) == Some(i),
{
    let name = t.names@[i]@;
    assert(0 <= i < t.names@.len() && t.names@[i]@ == name && forall|j: int| 0 <= j < i ==> t.names@[j]@ != name);
    let k = choose|k: int|
        0 <= k < t.names@.len() && t.names@[k]@ == name && forall|j: int| 0 <= j < k ==> t.names@[j]@ != name;
    if k != i {
        assert(t.names@[k]@ != t.names@[i]@);
    }
}

/// The self-emission sentinel never selects a declared instruction: the bytes after it are
/// decoded as an event.
pub proof fn lemma_sentinel_reroutes(d: Decoder, b: Seq<u8>)
    requires
        d.wf(),
        b.len() >= DISC_LEN,
        b.subrange(0, DISC_LEN as int) == sentinel(),
    ensures
        d.instruction_result(b) == match d.event_result(b.subrange(DISC_LEN as int, b.len() as int)) {
            Some(ev) => Some(InstructionV::EmitCpi(ev)),
            None => None::<InstructionV>,
        },
{
    let discs = instruction_discs(d.instructions@);
    lemma_first_disc(discs, sentinel(), 0);
    if first_disc(discs, sentinel(), 0) is Some {
        let j = first_disc(discs, sentinel(), 0)->Some_0;
        assert(discs.contains(sentinel()));
    }
}

/// Decoding is a function of the bytes alone: equal inputs give equal results in every category.
pub proof fn lemma_decode_deterministic(d: Decoder, b1: Seq<u8>, b2: Seq<u8>)
    requires
        b1 == b2,
    ensures
        d.instruction_result(b1) == d.instruction_result(b2),
        d.account_result(b1) == d.account_result(b2),
        d.event_result(b1) == d.event_result(b2),
{
}

/// Decoding only looks at the bytes it consumes: a successful decode stays the same when
/// more bytes follow.
pub proof fn lemma_layout_extend(defs: Seq<TypeDef>, t: Layout, b: Seq<u8>, b2: Seq<u8>, pos: int, fuel: nat)
    requires
        0 <= pos <= b.len() <= b2.len(),
        b2.subrange(0, b.len() as int) == b,
        decode_layout(defs, t, b, pos, fuel) is Some,
    ensures
        decode_layout(defs, t, b2, pos, fuel) == decode_layout(defs, t, b, pos, fuel),
    decreases fuel, layout_size(t), 0nat,
{
    lemma_layout_end(defs, t, b, pos, fuel);
    match t {
        Layout::Prim(p) => {
            lemma_prim_extend(p, b, b2, pos);
        },
        Layout::Array(e, n) => {
            lemma_repeat_extend(defs, *e, n as nat, b, b2, pos, fuel);
        },
        Layout::Def(i) => {
            match defs[i as int].body {
                TypeBody::Struct(fs) => {
                    lemma_fields_extend(defs, fs@, 0, b, b2, pos, (fuel - 1) as nat);
                },
                TypeBody::Enum(vs) => {
                    assert(b2[pos] == b[pos]);
                },
            }
        },
        Layout::Unknown => {},
    }
}

proof fn lemma_prim_extend(p: Primitive, b: Seq<u8>, b2: Seq<u8>, pos: int)
    requires
        0 <= pos <= b.len() <= b2.len(),
        b2.subrange(0, b.len() as int) == b,
        decode_prim(p, b, pos) is Some,
    ensures
        decode_prim(p, b2, pos) == decode_prim(p, b, pos),
{
    assert forall|x: int, y: int| 0 <= x <= y <= b.len() implies #[trigger] b2.subrange(x, y) == b.subrange(x, y) by {
        assert(b2.subrange(x, y) =~= b.subrange(x, y));
    }
    if pos < b.len() {
        assert(b2[pos] == b[pos]);
    }
}

proof fn lemma_repeat_extend(defs: Seq<TypeDef>, e: Layout, n: nat, b: Seq<u8>, b2: Seq<u8>, pos: int, fuel: nat)
    requires
        0 <= pos <= b.len() <= b2.len(),
        b2.subrange(0, b.len() as int) == b,
        decode_repeat(defs, e, n, b, pos, fuel) is Some,
    ensures
        decode_repeat(defs, e, n, b2, pos, fuel) == decode_repeat(defs, e, n, b, pos, fuel),
    decreases fuel, layout_size(e), n + 1,
{
    if n > 0 {
        lemma_layout_extend(defs, e, b, b2, pos, fuel);
        let (v, mid) = decode_layout(defs, e, b, pos, fuel)->Some_0;
        lemma_layout_end(defs, e, b, pos, fuel);
        lemma_repeat_extend(defs, e, (n - 1) as nat, b, b2, mid, fuel);
    }
}

pub proof fn lemma_fields_extend(defs: Seq<TypeDef>, fs: Seq<Field>, k: nat, b: Seq<u8>, b2: Seq<u8>, pos: int, fuel: nat)
    requires
        0 <= pos <= b.len() <= b2.len(),
        b2.subrange(0, b.len() as int) == b,
        decode_fields(defs, fs, k, b, pos, fuel) is Some,
    ensures
        decode_fields(defs, fs, k, b2, pos, fuel) == decode_fields(defs, fs, k, b, pos, fuel),
    decreases fuel + 1, 0nat, fs.len() - k,
{
    if k < fs.len() {
        lemma_layout_extend(defs, fs[k as int].ty, b, b2, pos, fuel);
        let (v, mid) = decode_layout(defs, fs[k as int].ty, b, pos, fuel)->Some_0;
        lemma_layout_end(defs, fs[k as int].ty, b, pos, fuel);
        lemma_fields_extend(defs, fs, k + 1, b, b2, mid, fuel);
    }
}

/// A successful decode ends between its start and the end of the input.
pub proof fn lemma_layout_end(defs: Seq<TypeDef>, t: Layout, b: Seq<u8>, pos: int, fuel: nat)
    requires
        0 <= pos <= b.len(),
    ensures
        decode_layout(defs, t, b, pos, fuel) matches Some((_, end)) ==> pos <= end <= b.len(),
    decreases fuel, layout_size(t), 0nat,
{
    match t {
        Layout::Array(e, n) => {
            lemma_repeat_end(defs, *e, n as nat, b, pos, fuel);
        },
        Layout::Def(i) => {
            if fuel > 0 && i < defs.len() {
                if let TypeBody::Struct(fs) = defs[i as int].body {
                    lemma_fields_end(defs, fs@, 0, b, pos, (fuel - 1) as nat);
                }
            }
        },
        _ => {},
    }
}

proof fn lemma_repeat_end(defs: Seq<TypeDef>, e: Layout, n: nat, b: Seq<u8>, pos: int, fuel: nat)
    requires
        0 <= pos <= b.len(),
    ensures
        decode_repeat(defs, e, n, b, pos, fuel) matches Some((_, end)) ==> pos <= end <= b.len(),
    decreases fuel, layout_size(e), n + 1,
{
    if n > 0 {
        lemma_layout_end(defs, e, b, pos, fuel);
        if let Some((v, mid)) = decode_layout(defs, e, b, pos, fuel) {
            lemma_repeat_end(defs, e, (n - 1) as nat, b, mid, fuel);
        }
    }
}

proof fn lemma_fields_end(defs: Seq<TypeDef>, fs: Seq<Field>, k: nat, b: Seq<u8>, pos: int, fuel: nat)
    requires
        0 <= pos <= b.len(),
    ensures
        decode_fields(defs, fs, k, b, pos, fuel) matches Some((_, end)) ==> pos <= end <= b.len(),
    decreases fuel + 1, 0nat, fs.len() - k,
{
    if k < fs.len() {
        lemma_layout_end(defs, fs[k as int].ty, b, pos, fuel);
        if let Some((v, mid)) = decode_layout(defs, fs[k as int].ty, b, pos, fuel) {
            lemma_fields_end(defs, fs, k + 1, b, mid, fuel);
        }
    }
}

/// An instruction's call data is its discriminator followed by its encoded arguments. The
/// result is that instruction with the decoded arguments, and when the arguments decode, every
/// shorter payload gives no result.
pub proof fn lemma_instruction_call(d: Decoder, i: int, payload: Seq<u8>)
    requires
        d.wf(),
        0 <= i < d.instructions@.len(),
        d.instructions@[i].args@.len() > 0,
    ensures
        d.instruction_result(d.instructions@[i].disc@ + payload) == match decode_exact(
            d.defs@,
            d.instructions@[i].args@,
            d.instructions@[i].disc@ + payload,
            DISC_LEN as int,
            d.fuel(),
        ) {
            Some(v) => Some(InstructionV::Call(DecodedV { index: i, values: v })),
            None => None::<InstructionV>,
        },
        decode_exact(d.defs@, d.instructions@[i].args@, d.instructions@[i].disc@ + payload, DISC_LEN as int, d.fuel()) is Some
            ==> forall|k: int| 0 <= k < payload.len() ==> (#[trigger] d.instruction_result(
            d.instructions@[i].disc@ + payload.subrange(0, k),
        )) is None,
{
    let disc = d.instructions@[i].disc@;
    let discs = instruction_discs(d.instructions@);
    assert(discs[i] == disc);
    lemma_lookup_own_disc(discs, i);
    let b = disc + payload;
    assert(b.subrange(0, DISC_LEN as int) =~= disc);
    let args = d.instructions@[i].args@;
    if decode_exact(d.defs@, args, b, DISC_LEN as int, d.fuel()) is Some {
        assert forall|k: int| 0 <= k < payload.len() implies (#[trigger] d.instruction_result(disc + payload.subrange(0, k))) is None by {
            let b1 = disc + payload.subrange(0, k);
            assert(b1.subrange(0, DISC_LEN as int) =~= disc);
            assert(b.subrange(0, b1.len() as int) =~= b1);
            if decode_exact(d.defs@, args, b1, DISC_LEN as int, d.fuel()) is Some {
                lemma_fields_extend(d.defs@, args, 0, b1, b, DISC_LEN as int, d.fuel());
            }
        }
    }
}

/// The concatenated little-endian encodings of `xs`.
pub open spec fn encode_u64s(xs: Seq<u64>) -> Seq<u8>
    decreases xs.len(),
{
    if xs.len() == 0 {
        Seq::empty()
    } else {
        spec_u64_to_le_bytes(xs[0]) + encode_u64s(xs.drop_first())
    }
}

proof fn lemma_encode_u64s_len(xs: Seq<u64>)
    ensures
        encode_u64s(xs).len() == 8 * xs.len(),
    decreases xs.len(),
{
    lemma_auto_spec_u64_to_from_le_bytes();
    if xs.len() > 0 {
        lemma_encode_u64s_len(xs.drop_first());
    }
}

proof fn lemma_repeat_u64s(defs: Seq<TypeDef>, xs: Seq<u64>, b: Seq<u8>, pos: int, fuel: nat)
    requires
        0 <= pos,
        pos + 8 * xs.len() <= b.len(),
        b.subrange(pos, pos + 8 * xs.len()) == encode_u64s(xs),
    ensures
        decode_repeat(defs, Layout::Prim(Primitive::U64), xs.len(), b, pos, fuel) == Some(
            (xs.map_values(|x: u64| LeafV::U64(x)), pos + 8 * xs.len()),
        ),
    decreases xs.len(),
{
    lemma_auto_spec_u64_to_from_le_bytes();
    if xs.len() > 0 {
        let rest = xs.drop_first();
        lemma_encode_u64s_len(rest);
        let enc = encode_u64s(xs);
        assert(b.subrange(pos, pos + 8) =~= enc.subrange(0, 8));
        assert(enc.subrange(0, 8) =~= spec_u64_to_le_bytes(xs[0]));
        assert(b.subrange(pos + 8, pos + 8 + 8 * rest.len()) =~= enc.subrange(8, enc.len() as int));
        assert(enc.subrange(8, enc.len() as int) =~= encode_u64s(rest));
        lemma_repeat_u64s(defs, rest, b, pos + 8, fuel);
        assert(decode_layout(defs, Layout::Prim(Primitive::U64), b, pos, fuel) == Some((seq![LeafV::U64(xs[0])], pos + 8)));
        assert(xs.map_values(|x: u64| LeafV::U64(x)) =~= seq![LeafV::U64(xs[0])] + rest.map_values(|x: u64| LeafV::U64(x)));
    }
}

/// Decoding the concatenated encodings of `n` values as a fixed array of `n` 64-bit
/// integers gives back exactly those values, in order, and uses every byte.
pub proof fn lemma_u64_array_round_trip(defs: Seq<TypeDef>, xs: Seq<u64>, fuel: nat)
    requires
        xs.len() <= usize::MAX,
    ensures
        decode_layout(defs, Layout::Array(Box::new(Layout::Prim(Primitive::U64)), xs.len() as usize), encode_u64s(xs), 0, fuel)
            == Some((xs.map_values(|x: u64| LeafV::U64(x)), encode_u64s(xs).len() as int)),
{
    lemma_encode_u64s_len(xs);
    let b = encode_u64s(xs);
    assert(b.subrange(0, 8 * xs.len() as int) =~= b);
    lemma_repeat_u64s(defs, xs, b, 0, fuel);
}

/// The concatenation of `chunks`, in order.
pub open spec fn concat_all(chunks: Seq<Seq<u8>>) -> Seq<u8>
    decreases chunks.len(),
{
    if chunks.len() == 0 {
        Seq::empty()
    } else {
        chunks[0] + concat_all(chunks.drop_first())
    }
}

/// A primitive decodes the same wherever its bytes stand.
proof fn lemma_prim_shift(p: Primitive, b: Seq<u8>, pos: int, c: Seq<u8>, v: LeafV)
    requires
        0 <= pos,
        pos + c.len() <= b.len(),
        b.subrange(pos, pos + c.len()) == c,
        decode_prim(p, c, 0) == Some((v, c.len() as int)),
    ensures
        decode_prim(p, b, pos) == Some((v, pos + c.len())),
{
    assert forall|x: int, y: int| 0 <= x <= y <= c.len() implies #[trigger] b.subrange(pos + x, pos + y) == c.subrange(x, y) by {
        assert(b.subrange(pos + x, pos + y) =~= c.subrange(x, y));
    }
    assert(b.subrange(pos + 0, pos + 2) == c.subrange(0, 2) || c.len() < 2);
    assert(b.subrange(pos + 0, pos + 4) == c.subrange(0, 4) || c.len() < 4);
    assert(b.subrange(pos + 0, pos + 8) == c.subrange(0, 8) || c.len() < 8);
    assert(b.subrange(pos + 0, pos + 32) == c.subrange(0, 32) || c.len() < 32);
    if c.len() > 0 {
        assert(b[pos] == c[0]);
    }
    if p == Primitive::Str {
        let n = spec_u32_from_le_bytes(c.subrange(0, 4)) as int;
        assert(b.subrange(pos + 4, pos + 4 + n) == c.subrange(4, 4 + n));
    }
}

proof fn lemma_repeat_chunks(defs: Seq<TypeDef>, p: Primitive, chunks: Seq<Seq<u8>>, vals: Seq<LeafV>, b: Seq<u8>, pos: int, fuel: nat)
    requires
        0 <= pos,
        chunks.len() == vals.len(),
        forall|i: int| 0 <= i < chunks.len() ==> decode_prim(p, #[trigger] chunks[i], 0) == Some((vals[i], chunks[i].len() as int)),
        pos + concat_all(chunks).len() <= b.len(),
        b.subrange(pos, pos + concat_all(chunks).len()) == concat_all(chunks),
    ensures
        decode_repeat(defs, Layout::Prim(p), chunks.len(), b, pos, fuel) == Some((vals, pos + concat_all(chunks).len())),
    decreases chunks.len(),
{
    if chunks.len() > 0 {
        let c = chunks[0];
        let rest = chunks.drop_first();
        let all = concat_all(chunks);
        assert(all == c + concat_all(rest));
        assert(b.subrange(pos, pos + c.len()) =~= all.subrange(0, c.len() as int));
        assert(all.subrange(0, c.len() as int) =~= c);
        assert(decode_prim(p, chunks[0], 0) == Some((vals[0], chunks[0].len() as int)));
        lemma_prim_shift(p, b, pos, c, vals[0]);
        assert(b.subrange(pos + c.len(), pos + all.len()) =~= all.subrange(c.len() as int, all.len() as int));
        assert(all.subrange(c.len() as int, all.len() as int) =~= concat_all(rest));
        assert forall|i: int| 0 <= i < rest.len() implies decode_prim(p, #[trigger] rest[i], 0) == Some((vals.drop_first()[i], rest[i].len() as int)) by {
            assert(rest[i] == chunks[i + 1]);
        }
        lemma_repeat_chunks(defs, p, rest, vals.drop_first(), b, pos + c.len(), fuel);
        assert(decode_layout(defs, Layout::Prim(p), b, pos, fuel) == Some((seq![vals[0]], pos + c.len())));
        assert(vals =~= seq![vals[0]] + vals.drop_first());
        assert(pos + c.len() + concat_all(rest).len() == pos + all.len());
        assert(decode_repeat(defs, Layout::Prim(p), chunks.len(), b, pos, fuel) == prepend(
            seq![vals[0]], decode_repeat(defs, Layout::Prim(p), rest.len(), b, pos + c.len(), fuel)));
    } else {
        assert(vals =~= Seq::<LeafV>::empty());
    }
}

/// Decoding `n` concatenated primitive encodings as a fixed array of `n` elements of that
/// primitive gives back exactly the `n` values, in order, and uses every byte.
pub proof fn lemma_array_round_trip(defs: Seq<TypeDef>, p: Primitive, chunks: Seq<Seq<u8>>, vals: Seq<LeafV>, fuel: nat)
    requires
        chunks.len() == vals.len(),
        chunks.len() <= usize::MAX,
        forall|i: int| 0 <= i < chunks.len() ==> decode_prim(p, #[trigger] chunks[i], 0) == Some((vals[i], chunks[i].len() as int)),
    ensures
        decode_layout(defs, Layout::Array(Box::new(Layout::Prim(p)), chunks.len() as usize), concat_all(chunks), 0, fuel)
            == Some((vals, concat_all(chunks).len() as int)),
{
    let b = concat_all(chunks);
    assert(b.subrange(0, b.len() as int) =~= b);
    lemma_repeat_chunks(defs, p, chunks, vals, b, 0, fuel);
}

} // verus!
