//! Range and sized-value universes.
//!
//! Small-integer range membership is proved against fixed lookup tables: the
//! common range `0..k`, the byte range `0..256`, and the sized-value table
//! of `(byte_position, declared_type, allowed_byte_value)` triples.  A value
//! of a type `k` bytes wide must have zero in every byte position at or
//! above `k`: that makes it the canonical representative of its width.

use vstd::prelude::*;
use vstd::arithmetic::power2::pow2;
use crate::mtable::VarType;

verus! {

broadcast use vstd::seq_lib::group_seq_properties;

/// The byte of `v` at little-endian position `pos`.
pub open spec fn spec_byte_at(v: u64, pos: int) -> u64 {
    (v >> (8 * pos)) & 0xFF
}

/// A triple is in the sized-value universe when its byte position lies
/// below the type's width, or the byte is zero.
pub open spec fn sized_byte_allowed(pos: int, t: VarType, b: u64) -> bool {
    &&& 0 <= pos < 8
    &&& b < 256
    &&& (pos >= t.spec_byte_size() ==> b == 0)
}

/// A value is canonical for its declared type: it fits the type's width.
pub open spec fn value_fits(v: u64, t: VarType) -> bool {
    v < pow2((8 * t.spec_byte_size()) as nat)
}

/// Executable twin of [`value_fits`].
pub fn value_fits_exec(v: u64, t: VarType) -> (r: bool)
    ensures
        r == value_fits(v, t),
{
    proof {
        vstd::arithmetic::power2::lemma2_to64();
    }
    match t {
        VarType::U8 => v < 0x100,
        VarType::I8 => v < 0x100,
        VarType::U16 => v < 0x1_0000,
        VarType::I16 => v < 0x1_0000,
        VarType::U32 => v < 0x1_0000_0000,
        VarType::I32 => v < 0x1_0000_0000,
        VarType::U64 => true,
        VarType::I64 => true,
    }
}

/// The little-endian byte decomposition of a 64-bit value, as the
/// sized-value gadget allocates it.
pub fn value_bytes(v: u64) -> (r: Vec<u64>)
    ensures
        r@.len() == 8,
        forall|i: int| 0 <= i < 8 ==> r@[i] == spec_byte_at(v, i),
        forall|i: int| 0 <= i < 8 ==> r@[i] < 256,
{
    let mut r: Vec<u64> = Vec::new();
    for i in 0..8usize
        invariant
            r@.len() == i,
            forall|q: int| 0 <= q < i ==> r@[q] == spec_byte_at(v, q),
            forall|q: int| 0 <= q < i ==> r@[q] < 256,
    {
        let sh: u64 = 8 * (i as u64);
        let b = (v >> sh) & 0xFF;
        proof {
            assert((v >> sh) & 0xFF < 256) by (bit_vector);
        }
        r.push(b);
    }
    r
}

/// The bytes recombine to the value: `v = sum of byte_i * 256^i`, the sum
/// constraint of the 64-bit value gadget.
pub proof fn lemma_value_bytes_recombine(v: u64)
    ensures
        v == spec_byte_at(v, 0) + spec_byte_at(v, 1) * 0x100 + spec_byte_at(v, 2) * 0x1_0000
            + spec_byte_at(v, 3) * 0x100_0000 + spec_byte_at(v, 4) * 0x1_0000_0000 + spec_byte_at(
            v,
            5,
        ) * 0x100_0000_0000 + spec_byte_at(v, 6) * 0x1_0000_0000_0000 + spec_byte_at(v, 7)
            * 0x100_0000_0000_0000,
{
    assert(v == ((v >> (8 * 0)) & 0xFF) + ((v >> (8 * 1)) & 0xFF) * 0x100 + ((v >> (8 * 2))
        & 0xFF) * 0x1_0000 + ((v >> (8 * 3)) & 0xFF) * 0x100_0000 + ((v >> (8 * 4)) & 0xFF)
        * 0x1_0000_0000 + ((v >> (8 * 5)) & 0xFF) * 0x100_0000_0000 + ((v >> (8 * 6)) & 0xFF)
        * 0x1_0000_0000_0000 + ((v >> (8 * 7)) & 0xFF) * 0x100_0000_0000_0000) by (bit_vector);
}

/// A value fits its type exactly when every byte at or above the type's
/// width is zero: the sized-value table admits exactly the canonical
/// values.
pub proof fn lemma_value_fits_bytes(v: u64, t: VarType)
    ensures
        value_fits(v, t) <==> (forall|pos: int|
            t.spec_byte_size() <= pos < 8 ==> spec_byte_at(v, pos) == 0),
{
    vstd::arithmetic::power2::lemma2_to64();
    let k = t.spec_byte_size();
    if k == 1 {
        assert(v < 0x100 <==> ((v >> 8) & 0xFF == 0 && (v >> 16) & 0xFF == 0 && (v >> 24) & 0xFF
            == 0 && (v >> 32) & 0xFF == 0 && (v >> 40) & 0xFF == 0 && (v >> 48) & 0xFF == 0 && (v
            >> 56) & 0xFF == 0)) by (bit_vector);
        lemma_byte_positions(v);
    } else if k == 2 {
        assert(v < 0x1_0000 <==> ((v >> 16) & 0xFF == 0 && (v >> 24) & 0xFF == 0 && (v >> 32)
            & 0xFF == 0 && (v >> 40) & 0xFF == 0 && (v >> 48) & 0xFF == 0 && (v >> 56) & 0xFF
            == 0)) by (bit_vector);
        lemma_byte_positions(v);
    } else if k == 4 {
        assert(v < 0x1_0000_0000 <==> ((v >> 32) & 0xFF == 0 && (v >> 40) & 0xFF == 0 && (v >> 48)
            & 0xFF == 0 && (v >> 56) & 0xFF == 0)) by (bit_vector);
        lemma_byte_positions(v);
    } else {
        assert(k == 8);
        assert(v < 0x1_0000_0000_0000_0000) by (bit_vector);
    }
}

/// Names the byte windows used by [`lemma_value_fits_bytes`].
proof fn lemma_byte_positions(v: u64)
    ensures
        spec_byte_at(v, 1) == (v >> 8) & 0xFF,
        spec_byte_at(v, 2) == (v >> 16) & 0xFF,
        spec_byte_at(v, 3) == (v >> 24) & 0xFF,
        spec_byte_at(v, 4) == (v >> 32) & 0xFF,
        spec_byte_at(v, 5) == (v >> 40) & 0xFF,
        spec_byte_at(v, 6) == (v >> 48) & 0xFF,
        spec_byte_at(v, 7) == (v >> 56) & 0xFF,
{
}

/// Every value type's code lies between 1 and 8.
pub proof fn lemma_vtype_code_bounds(t: VarType)
    ensures
        1 <= t.spec_code() <= 8,
{
}

/// One row of the sized-value universe, packed for lookup: the position at
/// bit 12, the type code at bit 8, the byte at bit 0.
pub open spec fn spec_sized_row(pos: int, t: VarType, b: u64) -> u64 {
    (pos * 0x1000 + t.spec_code() * 0x100 + b) as u64
}

/// The common range universe: `0, 1, ..., range - 1`.
pub fn build_common_range_table(range: usize) -> (r: Vec<u64>)
    ensures
        r@.len() == range,
        forall|i: int| 0 <= i < range ==> r@[i] == i,
{
    let mut r: Vec<u64> = Vec::new();
    for i in 0..range
        invariant
            r@.len() == i,
            forall|q: int| 0 <= q < i ==> r@[q] == q,
    {
        r.push(i as u64);
    }
    r
}

/// The byte range universe: `0, 1, ..., 255`.
pub fn build_byte_range_table() -> (r: Vec<u64>)
    ensures
        r@.len() == 256,
        forall|i: int| 0 <= i < 256 ==> r@[i] == i,
{
    let mut r: Vec<u64> = Vec::new();
    for i in 0..256usize
        invariant
            r@.len() == i,
            forall|q: int| 0 <= q < i ==> r@[q] == q,
    {
        r.push(i as u64);
    }
    r
}

/// All value types, in code order.
pub fn all_var_types() -> (r: Vec<VarType>)
    ensures
        r@.len() == 8,
        forall|i: int| 0 <= i < 8 ==> (#[trigger] r@[i]).spec_code() == i + 1,
{
    let mut r: Vec<VarType> = Vec::new();
    r.push(VarType::U8);
    r.push(VarType::I8);
    r.push(VarType::U16);
    r.push(VarType::I16);
    r.push(VarType::U32);
    r.push(VarType::I32);
    r.push(VarType::U64);
    r.push(VarType::I64);
    r
}

/// A packed limb is the row of some allowed triple.
pub open spec fn row_is_allowed(x: u64) -> bool {
    exists|pos: int, t: VarType, b: u64|
        sized_byte_allowed(pos, t, b) && x == #[trigger] spec_sized_row(pos, t, b)
}

/// Every limb of the table is the row of some allowed triple.
pub open spec fn rows_sound(r: Seq<u64>) -> bool {
    forall|k: int| 0 <= k < r.len() ==> row_is_allowed(#[trigger] r[k])
}

/// The packed sized-value universe: for each byte position and each type,
/// all 256 byte values below the type's width and only zero at or above it.
pub fn build_sized_value_table() -> (r: Vec<u64>)
    ensures
        forall|pos: int, t: VarType, b: u64|
            sized_byte_allowed(pos, t, b) ==> r@.contains(#[trigger] spec_sized_row(pos, t, b)),
        rows_sound(r@),
{
    let types = all_var_types();
    let mut r: Vec<u64> = Vec::new();
    for pos in 0..8usize
        invariant
            types@.len() == 8,
            forall|i: int| 0 <= i < 8 ==> (#[trigger] types@[i]).spec_code() == i + 1,
            forall|p: int, t: VarType, b: u64|
                sized_byte_allowed(p, t, b) && p < pos ==> r@.contains(
                    #[trigger] spec_sized_row(p, t, b),
                ),
            rows_sound(r@),
    {
        proof {
            assert forall|t2: VarType, b2: u64|
                sized_byte_allowed(pos as int, t2, b2) && t2.spec_code() <= 0 implies
                r@.contains(#[trigger] spec_sized_row(pos as int, t2, b2)) by {
                lemma_vtype_code_bounds(t2);
            }
        }
        for ti in 0..8usize
            invariant
                types@.len() == 8,
                pos < 8,
                forall|i: int| 0 <= i < 8 ==> (#[trigger] types@[i]).spec_code() == i + 1,
                forall|p: int, t: VarType, b: u64|
                    sized_byte_allowed(p, t, b) && p < pos ==> r@.contains(
                        #[trigger] spec_sized_row(p, t, b),
                    ),
                forall|t: VarType, b: u64|
                    sized_byte_allowed(pos as int, t, b) && t.spec_code() <= ti ==> r@.contains(
                        #[trigger] spec_sized_row(pos as int, t, b),
                    ),
                rows_sound(r@),
        {
            let t = types[ti];
            let width = t.byte_size();
            let limit: u64 = if (pos as u64) < width {
                256
            } else {
                1
            };
            let base: u64 = (pos as u64) * 0x1000 + t.code() * 0x100;
            for b in 0..limit
                invariant
                    limit == (if (pos as int) < t.spec_byte_size() {
                        256u64
                    } else {
                        1u64
                    }),
                    pos < 8,
                    ti < 8,
                    types@.len() == 8,
                    t == types@[ti as int],
                    forall|i: int| 0 <= i < 8 ==> (#[trigger] types@[i]).spec_code() == i + 1,
                    base == pos * 0x1000 + t.spec_code() * 0x100,
                    forall|p: int, t2: VarType, b2: u64|
                        sized_byte_allowed(p, t2, b2) && p < pos ==> r@.contains(
                            #[trigger] spec_sized_row(p, t2, b2),
                        ),
                    forall|t2: VarType, b2: u64|
                        sized_byte_allowed(pos as int, t2, b2) && t2.spec_code() <= ti
                            ==> r@.contains(#[trigger] spec_sized_row(pos as int, t2, b2)),
                    forall|b2: u64|
                        b2 < b && sized_byte_allowed(pos as int, t, b2) ==> r@.contains(
                            #[trigger] spec_sized_row(pos as int, t, b2),
                        ),
                    rows_sound(r@),
            {
                let row = base + b;
                proof {
                    assert(sized_byte_allowed(pos as int, t, b));
                    assert(row == spec_sized_row(pos as int, t, b));
                }
                let ghost r_old = r@;
                r.push(row);
                proof {
                    assert(r@ == r_old.push(row));
                    assert(r@[r@.len() - 1] == spec_sized_row(pos as int, t, b));
                    assert(r@.contains(spec_sized_row(pos as int, t, b)));
                    assert(row_is_allowed(row));
                    assert forall|k: int| 0 <= k < r@.len() implies row_is_allowed(
                        #[trigger] r@[k],
                    ) by {
                        if k < r_old.len() {
                            assert(r@[k] == r_old[k]);
                        } else {
                            assert(r@[k] == row);
                        }
                    }
                }
            }
            proof {
                assert forall|t2: VarType, b2: u64|
                    sized_byte_allowed(pos as int, t2, b2) && t2.spec_code() <= ti + 1 implies
                    r@.contains(#[trigger] spec_sized_row(pos as int, t2, b2)) by {
                    if t2.spec_code() == ti + 1 {
                        crate::mtable::lemma_vtype_code_injective(t2, types@[ti as int]);
                        if (pos as int) < t2.spec_byte_size() {
                            assert(b2 < 256);
                            assert(b2 < limit);
                        } else {
                            assert(b2 == 0);
                            assert(b2 < limit);
                        }
                        assert(r@.contains(spec_sized_row(pos as int, t2, b2)));
                    }
                }
            }
        }
        proof {
            assert forall|p: int, t2: VarType, b2: u64|
                sized_byte_allowed(p, t2, b2) && p < pos + 1 implies r@.contains(
                #[trigger] spec_sized_row(p, t2, b2),
            ) by {
                if p == pos {
                    lemma_vtype_code_bounds(t2);
                }
            }
        }
    }
    r
}

} // verus!
