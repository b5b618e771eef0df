//! Fixed-shift packing primitives.
//!
//! Every cross-table lookup reduces a tuple to a single wide field cell by
//! giving each tuple field a disjoint bit window.  The windows used by the
//! row encodings line up on 64-bit limb boundaries, so a packed cell is kept
//! as three 64-bit limbs.  The lemmas here show that packing is lossless
//! (every field can be recovered) and therefore collision-free.

use vstd::prelude::*;
use vstd::arithmetic::div_mod::lemma_fundamental_div_mod_converse;

verus! {

/// Four 16-bit fields side by side in one limb: `a` at bit 0, `b` at bit 16,
/// `c` at bit 32, `d` at bit 48.
pub open spec fn pack4x16(a: u64, b: u64, c: u64, d: u64) -> u64
    recommends
        a < 0x10000,
        b < 0x10000,
        c < 0x10000,
        d < 0x10000,
{
    (a + b * 0x10000 + c * 0x1_0000_0000 + d * 0x1_0000_0000_0000) as u64
}

/// Each field of a packed limb is recovered by its shift and mask.
pub proof fn lemma_pack4x16_parts(a: u64, b: u64, c: u64, d: u64)
    requires
        a < 0x10000,
        b < 0x10000,
        c < 0x10000,
        d < 0x10000,
    ensures
        pack4x16(a, b, c, d) & 0xFFFF == a,
        (pack4x16(a, b, c, d) >> 16) & 0xFFFF == b,
        (pack4x16(a, b, c, d) >> 32) & 0xFFFF == c,
        pack4x16(a, b, c, d) >> 48 == d,
{
    let x = pack4x16(a, b, c, d);
    assert(x == (a + b * 0x10000 + c * 0x1_0000_0000 + d * 0x1_0000_0000_0000) as u64
        && a < 0x10000 && b < 0x10000 && c < 0x10000 && d < 0x10000 ==> x & 0xFFFF == a
        && (x >> 16) & 0xFFFF == b && (x >> 32) & 0xFFFF == c && x >> 48 == d) by (bit_vector);
}

/// Packing four 16-bit fields is injective.
pub proof fn lemma_pack4x16_injective(
    a1: u64, b1: u64, c1: u64, d1: u64,
    a2: u64, b2: u64, c2: u64, d2: u64,
)
    requires
        a1 < 0x10000, b1 < 0x10000, c1 < 0x10000, d1 < 0x10000,
        a2 < 0x10000, b2 < 0x10000, c2 < 0x10000, d2 < 0x10000,
        pack4x16(a1, b1, c1, d1) == pack4x16(a2, b2, c2, d2),
    ensures
        a1 == a2 && b1 == b2 && c1 == c2 && d1 == d2,
{
    lemma_pack4x16_parts(a1, b1, c1, d1);
    lemma_pack4x16_parts(a2, b2, c2, d2);
}

/// Executable field extraction from a packed limb.
pub fn unpack4x16(x: u64) -> (r: (u64, u64, u64, u64))
    ensures
        r.0 == x & 0xFFFF,
        r.1 == (x >> 16) & 0xFFFF,
        r.2 == (x >> 32) & 0xFFFF,
        r.3 == x >> 48,
{
    (x & 0xFFFF, (x >> 16) & 0xFFFF, (x >> 32) & 0xFFFF, x >> 48)
}

/// An opcode payload limb: the opcode class at bit 48 (16 bits), a sub-field
/// at bit 32 (16 bits), and an immediate at bit 0 (32 bits).
pub open spec fn pack_class(cls: u64, sub: u64, imm: u64) -> u64
    recommends
        cls < 0x10000,
        sub < 0x10000,
        imm < 0x1_0000_0000,
{
    (cls * 0x1_0000_0000_0000 + sub * 0x1_0000_0000 + imm) as u64
}

/// Each field of an opcode payload limb is recovered by its shift and mask.
pub proof fn lemma_pack_class_parts(cls: u64, sub: u64, imm: u64)
    requires
        cls < 0x10000,
        sub < 0x10000,
        imm < 0x1_0000_0000,
    ensures
        pack_class(cls, sub, imm) >> 48 == cls,
        (pack_class(cls, sub, imm) >> 32) & 0xFFFF == sub,
        pack_class(cls, sub, imm) & 0xFFFF_FFFF == imm,
{
    let x = pack_class(cls, sub, imm);
    assert(x == (cls * 0x1_0000_0000_0000 + sub * 0x1_0000_0000 + imm) as u64 && cls < 0x10000
        && sub < 0x10000 && imm < 0x1_0000_0000 ==> x >> 48 == cls && (x >> 32) & 0xFFFF == sub
        && x & 0xFFFF_FFFF == imm) by (bit_vector);
}

/// The 16-bit window holding a memory row's type and access fields:
/// `vtype` at bit 0 (13 bits), `atype` at bit 13 (2 bits), `ltype` at
/// bit 15 (1 bit).
pub open spec fn pack_type_bits(vtype: u64, atype: u64, ltype: u64) -> u64
    recommends
        vtype < 0x2000,
        atype < 4,
        ltype < 2,
{
    (vtype + atype * 0x2000 + ltype * 0x8000) as u64
}

/// In-range type fields stay inside the 16-bit window.
pub proof fn lemma_pack_type_bits_exact(vtype: u64, atype: u64, ltype: u64)
    requires
        vtype < 0x2000,
        atype < 4,
        ltype < 2,
    ensures
        pack_type_bits(vtype, atype, ltype) == vtype + atype * 0x2000 + ltype * 0x8000,
        pack_type_bits(vtype, atype, ltype) < 0x10000,
{
}

/// Each type field is recovered from the window by its shift and mask.
pub proof fn lemma_pack_type_bits_parts(vtype: u64, atype: u64, ltype: u64)
    requires
        vtype < 0x2000,
        atype < 4,
        ltype < 2,
    ensures
        pack_type_bits(vtype, atype, ltype) & 0x1FFF == vtype,
        (pack_type_bits(vtype, atype, ltype) >> 13) & 0x3 == atype,
        (pack_type_bits(vtype, atype, ltype) >> 15) & 0x1 == ltype,
{
    let x = pack_type_bits(vtype, atype, ltype);
    assert(x == (vtype + atype * 0x2000 + ltype * 0x8000) as u64 && vtype < 0x2000 && atype < 4
        && ltype < 2 ==> x & 0x1FFF == vtype && (x >> 13) & 0x3 == atype && (x >> 15) & 0x1
        == ltype) by (bit_vector);
}

/// A packed tuple: three 64-bit limbs of one wide field cell, `lo` least
/// significant.
#[derive(Clone, Copy, Debug, PartialEq, Eq, Structural)]
pub struct EncodedCell {
    pub lo: u64,
    pub mid: u64,
    pub hi: u64,
}

impl EncodedCell {
    /// The value of the cell as one integer: `lo + mid*2^64 + hi*2^128`.
    pub open spec fn as_int(self) -> int {
        self.lo + self.mid * 0x1_0000_0000_0000_0000 + self.hi * 0x1_0000_0000_0000_0000
            * 0x1_0000_0000_0000_0000
    }
}

/// Two cells with the same integer value have the same limbs: the integer
/// view loses nothing.
pub proof fn lemma_cell_value_injective(x: EncodedCell, y: EncodedCell)
    requires
        x.as_int() == y.as_int(),
    ensures
        x == y,
{
    let b: int = 0x1_0000_0000_0000_0000;
    assert(x.lo + (x.mid + x.hi * b) * b == x.lo + x.mid * b + x.hi * b * b) by (nonlinear_arith);
    assert(y.lo + (y.mid + y.hi * b) * b == y.lo + y.mid * b + y.hi * b * b) by (nonlinear_arith);
    assert(x.as_int() == x.lo + (x.mid + x.hi * b) * b);
    assert(y.as_int() == y.lo + (y.mid + y.hi * b) * b);
    lemma_fundamental_div_mod_converse(x.as_int(), b, x.mid + x.hi * b, x.lo as int);
    lemma_fundamental_div_mod_converse(y.as_int(), b, y.mid + y.hi * b, y.lo as int);
    assert(x.mid + x.hi * b == y.mid + y.hi * b);
    lemma_fundamental_div_mod_converse(x.mid + x.hi * b, b, x.hi as int, x.mid as int);
    lemma_fundamental_div_mod_converse(y.mid + y.hi * b, b, y.hi as int, y.mid as int);
}

} // verus!
