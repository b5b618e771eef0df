//! The instruction table: the static program listing.
//!
//! One entry per compiled instruction, addressed by
//! `(moid, mmid, fid, bid, iid)` and carrying the opcode payload.  The table
//! is the universe of the program lookup: an event row is a valid fetch
//! exactly when its packed `(address, opcode)` tuple appears here.

use vstd::prelude::*;
use crate::mtable::VarType;
use crate::pack::{
    pack4x16, pack_class, lemma_pack4x16_parts, lemma_pack4x16_injective,
    lemma_pack_class_parts, unpack4x16, EncodedCell,
};

verus! {

/// The closed set of opcode classes handled by the event table dispatch.
#[derive(Clone, Copy, Debug, PartialEq, Eq, Structural)]
pub enum OpcodeClass {
    LocalGet,
    Const,
    Drop,
    Return,
    BrIfNez,
    Call,
    BinOp,
    Comparison,
}

impl OpcodeClass {
    /// Numeric code of the class, placed at the class shift of the opcode
    /// payload.
    pub open spec fn spec_code(self) -> u64 {
        match self {
            OpcodeClass::LocalGet => 1,
            OpcodeClass::Const => 2,
            OpcodeClass::Drop => 3,
            OpcodeClass::Return => 4,
            OpcodeClass::BrIfNez => 5,
            OpcodeClass::Call => 6,
            OpcodeClass::BinOp => 7,
            OpcodeClass::Comparison => 8,
        }
    }

    /// Executable twin of [`Self::spec_code`].
    pub fn code(self) -> (r: u64)
        ensures
            r == self.spec_code(),
    {
        match self {
            OpcodeClass::LocalGet => 1,
            OpcodeClass::Const => 2,
            OpcodeClass::Drop => 3,
            OpcodeClass::Return => 4,
            OpcodeClass::BrIfNez => 5,
            OpcodeClass::Call => 6,
            OpcodeClass::BinOp => 7,
            OpcodeClass::Comparison => 8,
        }
    }
}

/// An opcode: its class together with the immediates fixed at compile time.
#[derive(Clone, Copy, Debug, PartialEq, Eq, Structural)]
pub enum Opcode {
    /// Push a copy of the stack slot `offset`.
    LocalGet { offset: u64 },
    /// Push an immediate of the given type.
    Const { vtype: VarType, value: u64 },
    /// Pop the top of the stack.
    Drop,
    /// Leave the function, dropping `drop` slots and keeping `keep` results.
    Return { drop: u64, keep: u64 },
    /// Pop a condition; transfer control when it is nonzero.
    BrIfNez { dst_pc: u64 },
    /// Transfer control to the function `index`.
    Call { index: u64 },
    /// Pop two operands, push their combination.
    BinOp,
    /// Pop two operands, push the comparison bit.
    Comparison,
}

impl Opcode {
    /// The class of this opcode.
    pub open spec fn spec_class(self) -> OpcodeClass {
        match self {
            Opcode::LocalGet { .. } => OpcodeClass::LocalGet,
            Opcode::Const { .. } => OpcodeClass::Const,
            Opcode::Drop => OpcodeClass::Drop,
            Opcode::Return { .. } => OpcodeClass::Return,
            Opcode::BrIfNez { .. } => OpcodeClass::BrIfNez,
            Opcode::Call { .. } => OpcodeClass::Call,
            Opcode::BinOp => OpcodeClass::BinOp,
            Opcode::Comparison => OpcodeClass::Comparison,
        }
    }

    /// Executable twin of [`Self::spec_class`].
    pub fn class(&self) -> (r: OpcodeClass)
        ensures
            r == self.spec_class(),
    {
        match self {
            Opcode::LocalGet { .. } => OpcodeClass::LocalGet,
            Opcode::Const { .. } => OpcodeClass::Const,
            Opcode::Drop => OpcodeClass::Drop,
            Opcode::Return { .. } => OpcodeClass::Return,
            Opcode::BrIfNez { .. } => OpcodeClass::BrIfNez,
            Opcode::Call { .. } => OpcodeClass::Call,
            Opcode::BinOp => OpcodeClass::BinOp,
            Opcode::Comparison => OpcodeClass::Comparison,
        }
    }

    /// The immediates fit their bit windows in the opcode payload.
    pub open spec fn wf(self) -> bool {
        match self {
            Opcode::LocalGet { offset } => offset < 0x1_0000_0000,
            Opcode::Const { vtype, value } => value < 0x1_0000_0000,
            Opcode::Drop => true,
            Opcode::Return { drop, keep } => drop < 0x10000 && keep < 2,
            Opcode::BrIfNez { dst_pc } => dst_pc < 0x1_0000_0000,
            Opcode::Call { index } => index < 0x1_0000_0000,
            Opcode::BinOp => true,
            Opcode::Comparison => true,
        }
    }

    /// The opcode payload: class at bit 48, a class sub-field at bit 32, the
    /// immediate at bit 0.
    pub open spec fn spec_encode(self) -> u64 {
        match self {
            Opcode::LocalGet { offset } => pack_class(1, 0, offset),
            Opcode::Const { vtype, value } => pack_class(2, vtype.spec_code(), value),
            Opcode::Drop => pack_class(3, 0, 0),
            Opcode::Return { drop, keep } => pack_class(4, 0, pack4x16(keep, drop, 0, 0)),
            Opcode::BrIfNez { dst_pc } => pack_class(5, 0, dst_pc),
            Opcode::Call { index } => pack_class(6, 0, index),
            Opcode::BinOp => pack_class(7, 0, 0),
            Opcode::Comparison => pack_class(8, 0, 0),
        }
    }

    /// Executable twin of [`Self::spec_encode`].
    pub fn encode(&self) -> (r: u64)
        requires
            self.wf(),
        ensures
            r == self.spec_encode(),
    {
        match *self {
            Opcode::LocalGet { offset } => 0x1_0000_0000_0000 + offset,
            Opcode::Const { vtype, value } => {
                2 * 0x1_0000_0000_0000 + vtype.code() * 0x1_0000_0000 + value
            },
            Opcode::Drop => 3 * 0x1_0000_0000_0000,
            Opcode::Return { drop, keep } => {
                4 * 0x1_0000_0000_0000 + drop * 0x10000 + keep
            },
            Opcode::BrIfNez { dst_pc } => 5 * 0x1_0000_0000_0000 + dst_pc,
            Opcode::Call { index } => 6 * 0x1_0000_0000_0000 + index,
            Opcode::BinOp => 7 * 0x1_0000_0000_0000,
            Opcode::Comparison => 8 * 0x1_0000_0000_0000,
        }
    }
}

/// The payload's class window always holds the opcode's class code, and the
/// remaining windows hold its immediates.
pub proof fn lemma_opcode_encode_parts(op: Opcode)
    requires
        op.wf(),
    ensures
        op.spec_encode() >> 48 == op.spec_class().spec_code(),
{
    match op {
        Opcode::LocalGet { offset } => lemma_pack_class_parts(1, 0, offset),
        Opcode::Const { vtype, value } => lemma_pack_class_parts(2, vtype.spec_code(), value),
        Opcode::Drop => lemma_pack_class_parts(3, 0, 0),
        Opcode::Return { drop, keep } => {
            lemma_pack4x16_parts(keep, drop, 0, 0);
            lemma_pack_class_parts(4, 0, pack4x16(keep, drop, 0, 0));
        },
        Opcode::BrIfNez { dst_pc } => lemma_pack_class_parts(5, 0, dst_pc),
        Opcode::Call { index } => lemma_pack_class_parts(6, 0, index),
        Opcode::BinOp => lemma_pack_class_parts(7, 0, 0),
        Opcode::Comparison => lemma_pack_class_parts(8, 0, 0),
    }
}

/// Two well-formed opcodes with equal payloads are equal: the payload
/// encoding is collision-free.
pub proof fn lemma_opcode_encode_injective(o1: Opcode, o2: Opcode)
    requires
        o1.wf(),
        o2.wf(),
        o1.spec_encode() == o2.spec_encode(),
    ensures
        o1 == o2,
{
    lemma_opcode_encode_parts(o1);
    lemma_opcode_encode_parts(o2);
    let x = o1.spec_encode();
    match (o1, o2) {
        (Opcode::LocalGet { offset: a }, Opcode::LocalGet { offset: b }) => {
            lemma_pack_class_parts(1, 0, a);
            lemma_pack_class_parts(1, 0, b);
        },
        (Opcode::Const { vtype: t1, value: v1 }, Opcode::Const { vtype: t2, value: v2 }) => {
            lemma_pack_class_parts(2, t1.spec_code(), v1);
            lemma_pack_class_parts(2, t2.spec_code(), v2);
        },
        (Opcode::Return { drop: d1, keep: k1 }, Opcode::Return { drop: d2, keep: k2 }) => {
            lemma_pack4x16_parts(k1, d1, 0, 0);
            lemma_pack4x16_parts(k2, d2, 0, 0);
            lemma_pack_class_parts(4, 0, pack4x16(k1, d1, 0, 0));
            lemma_pack_class_parts(4, 0, pack4x16(k2, d2, 0, 0));
            lemma_pack4x16_injective(k1, d1, 0, 0, k2, d2, 0, 0);
        },
        (Opcode::BrIfNez { dst_pc: a }, Opcode::BrIfNez { dst_pc: b }) => {
            lemma_pack_class_parts(5, 0, a);
            lemma_pack_class_parts(5, 0, b);
        },
        (Opcode::Call { index: a }, Opcode::Call { index: b }) => {
            lemma_pack_class_parts(6, 0, a);
            lemma_pack_class_parts(6, 0, b);
        },
        _ => {},
    }
}

/// One static instruction: its address `(moid, mmid, fid, bid, iid)` and its
/// opcode.
#[derive(Clone, Copy, Debug, PartialEq, Eq, Structural)]
pub struct InstructionTableEntry {
    pub moid: u64,
    pub mmid: u64,
    pub fid: u64,
    pub bid: u64,
    pub iid: u64,
    pub opcode: Opcode,
}

impl InstructionTableEntry {
    /// Address fields fit their 16-bit windows and the opcode is well formed.
    pub open spec fn wf(self) -> bool {
        self.moid < 0x10000 && self.mmid < 0x10000 && self.fid < 0x10000 && self.bid < 0x10000
            && self.iid < 0x10000 && self.opcode.wf()
    }

    /// Executable twin of [`Self::wf`].
    pub fn is_wf(&self) -> (r: bool)
        ensures
            r == self.wf(),
    {
        self.moid < 0x10000 && self.mmid < 0x10000 && self.fid < 0x10000 && self.bid < 0x10000
            && self.iid < 0x10000 && (match self.opcode {
            Opcode::LocalGet { offset } => offset < 0x1_0000_0000,
            Opcode::Const { vtype: _, value } => value < 0x1_0000_0000,
            Opcode::Drop => true,
            Opcode::Return { drop, keep } => drop < 0x10000 && keep < 2,
            Opcode::BrIfNez { dst_pc } => dst_pc < 0x1_0000_0000,
            Opcode::Call { index } => index < 0x1_0000_0000,
            Opcode::BinOp => true,
            Opcode::Comparison => true,
        })
    }

    /// The packed instruction row: opcode payload at bit 0 (64 bits), then
    /// `iid`, `bid`, `fid`, `mmid` in 16-bit windows from bit 64, and `moid`
    /// at bit 128.
    pub open spec fn spec_encode(self) -> EncodedCell {
        EncodedCell {
            lo: self.opcode.spec_encode(),
            mid: pack4x16(self.iid, self.bid, self.fid, self.mmid),
            hi: self.moid,
        }
    }

    /// Executable twin of [`Self::spec_encode`].
    pub fn encode(&self) -> (r: EncodedCell)
        requires
            self.wf(),
        ensures
            r == self.spec_encode(),
    {
        EncodedCell {
            lo: self.opcode.encode(),
            mid: self.iid + self.bid * 0x10000 + self.fid * 0x1_0000_0000 + self.mmid
                * 0x1_0000_0000_0000,
            hi: self.moid,
        }
    }

    /// The packed instruction address alone: `iid`, `bid`, `fid`, `mmid` in
    /// 16-bit windows from bit 0, `moid` at bit 64.
    pub open spec fn spec_encode_addr(self) -> EncodedCell {
        EncodedCell { lo: pack4x16(self.iid, self.bid, self.fid, self.mmid), mid: self.moid, hi: 0 }
    }

    /// Executable twin of [`Self::spec_encode_addr`].
    pub fn encode_addr(&self) -> (r: EncodedCell)
        requires
            self.wf(),
        ensures
            r == self.spec_encode_addr(),
    {
        EncodedCell {
            lo: self.iid + self.bid * 0x10000 + self.fid * 0x1_0000_0000 + self.mmid
                * 0x1_0000_0000_0000,
            mid: self.moid,
            hi: 0,
        }
    }
}

/// Packing an instruction row is collision-free: equal cells come from equal
/// entries.
pub proof fn lemma_instruction_encode_injective(e1: InstructionTableEntry, e2: InstructionTableEntry)
    requires
        e1.wf(),
        e2.wf(),
        e1.spec_encode() == e2.spec_encode(),
    ensures
        e1 == e2,
{
    lemma_opcode_encode_injective(e1.opcode, e2.opcode);
    lemma_pack4x16_injective(
        e1.iid, e1.bid, e1.fid, e1.mmid,
        e2.iid, e2.bid, e2.fid, e2.mmid,
    );
}

/// Recovers the opcode from a payload limb; `None` when the limb is not the
/// encoding of any well-formed opcode.
pub fn decode_opcode(x: u64) -> (r: Option<Opcode>)
    ensures
        r matches Some(op) ==> op.wf() && op.spec_encode() == x,
        forall|op: Opcode| op.wf() && #[trigger] op.spec_encode() == x ==> r == Some(op),
{
    proof {
        assert forall|op: Opcode| op.wf() implies (#[trigger] op.spec_encode() >> 48)
            == op.spec_class().spec_code() by {
            lemma_opcode_encode_parts(op);
        }
    }
    let cls = x >> 48;
    let sub = (x >> 32) & 0xFFFF;
    let imm = x & 0xFFFF_FFFF;
    let candidate: Option<Opcode> = if cls == 1 && sub == 0 {
        Some(Opcode::LocalGet { offset: imm })
    } else if cls == 2 {
        match VarType::from_code(sub) {
            Some(t) => Some(Opcode::Const { vtype: t, value: imm }),
            None => None,
        }
    } else if cls == 3 && sub == 0 && imm == 0 {
        Some(Opcode::Drop)
    } else if cls == 4 && sub == 0 {
        let keep = imm & 0xFFFF;
        let drop = imm >> 16;
        if keep < 2 {
            proof {
                assert(x & 0xFFFF_FFFF == imm && imm & 0xFFFF < 2 ==> (imm & 0xFFFF) + (imm >> 16)
                    * 0x10000 < 0x1_0000_0000 && imm >> 16 < 0x10000) by (bit_vector);
                assert(pack4x16(keep, drop, 0, 0) == imm) by {
                    assert(imm & 0xFFFF == keep && imm >> 16 == drop && imm < 0x1_0000_0000
                        ==> (keep + drop * 0x10000 + 0 + 0) as u64 == imm) by (bit_vector);
                    assert(imm < 0x1_0000_0000) by (bit_vector)
                        requires imm == x & 0xFFFF_FFFF;
                }
            }
            Some(Opcode::Return { drop, keep })
        } else {
            proof {
                assert forall|op: Opcode| op.wf() && #[trigger] op.spec_encode() == x implies
                    false by {
                    lemma_opcode_encode_parts(op);
                    if let Opcode::Return { drop: d, keep: k } = op {
                        lemma_pack4x16_parts(k, d, 0, 0);
                        lemma_pack_class_parts(4, 0, pack4x16(k, d, 0, 0));
                        assert(x & 0xFFFF_FFFF == pack4x16(k, d, 0, 0));
                        assert(pack4x16(k, d, 0, 0) & 0xFFFF == k);
                        assert(imm & 0xFFFF == keep);
                    }
                }
            }
            None
        }
    } else if cls == 5 && sub == 0 {
        Some(Opcode::BrIfNez { dst_pc: imm })
    } else if cls == 6 && sub == 0 {
        Some(Opcode::Call { index: imm })
    } else if cls == 7 && sub == 0 && imm == 0 {
        Some(Opcode::BinOp)
    } else if cls == 8 && sub == 0 && imm == 0 {
        Some(Opcode::Comparison)
    } else {
        None
    };
    proof {
        assert(imm < 0x1_0000_0000 && sub < 0x10000 && cls < 0x10000) by (bit_vector)
            requires cls == x >> 48 && sub == (x >> 32) & 0xFFFF && imm == x & 0xFFFF_FFFF;
        if let Some(op0) = candidate {
            assert(op0.spec_encode() == x) by {
                lemma_reassemble_class(x);
                match op0 {
                    Opcode::LocalGet { offset } => lemma_pack_class_parts(1, 0, offset),
                    Opcode::Const { vtype, value } => {
                        lemma_pack_class_parts(2, vtype.spec_code(), value);
                    },
                    Opcode::Drop => lemma_pack_class_parts(3, 0, 0),
                    Opcode::Return { drop, keep } => {
                        lemma_pack_class_parts(4, 0, pack4x16(keep, drop, 0, 0));
                    },
                    Opcode::BrIfNez { dst_pc } => lemma_pack_class_parts(5, 0, dst_pc),
                    Opcode::Call { index } => lemma_pack_class_parts(6, 0, index),
                    Opcode::BinOp => lemma_pack_class_parts(7, 0, 0),
                    Opcode::Comparison => lemma_pack_class_parts(8, 0, 0),
                }
            }
            assert forall|op: Opcode| op.wf() && #[trigger] op.spec_encode() == x implies
                candidate == Some(op) by {
                lemma_opcode_encode_injective(op, op0);
            }
        } else {
            assert forall|op: Opcode| op.wf() && #[trigger] op.spec_encode() == x implies
                false by {
                lemma_opcode_encode_parts(op);
                match op {
                    Opcode::LocalGet { offset } => lemma_pack_class_parts(1, 0, offset),
                    Opcode::Const { vtype, value } => {
                        lemma_pack_class_parts(2, vtype.spec_code(), value);
                    },
                    Opcode::Drop => lemma_pack_class_parts(3, 0, 0),
                    Opcode::Return { drop, keep } => {
                        lemma_pack4x16_parts(keep, drop, 0, 0);
                        lemma_pack_class_parts(4, 0, pack4x16(keep, drop, 0, 0));
                    },
                    Opcode::BrIfNez { dst_pc } => lemma_pack_class_parts(5, 0, dst_pc),
                    Opcode::Call { index } => lemma_pack_class_parts(6, 0, index),
                    Opcode::BinOp => lemma_pack_class_parts(7, 0, 0),
                    Opcode::Comparison => lemma_pack_class_parts(8, 0, 0),
                }
            }
        }
    }
    candidate
}

/// A limb always equals its class, sub-field and immediate windows
/// reassembled.
proof fn lemma_reassemble_class(x: u64)
    ensures
        x == pack_class(x >> 48, (x >> 32) & 0xFFFF, x & 0xFFFF_FFFF),
{
    assert(x == ((x >> 48) * 0x1_0000_0000_0000 + ((x >> 32) & 0xFFFF) * 0x1_0000_0000 + (x
        & 0xFFFF_FFFF)) as u64) by (bit_vector);
}

/// Recovers the instruction entry from a packed instruction row; `None` when
/// the cell encodes no well-formed entry.
pub fn decode_instruction(cell: &EncodedCell) -> (r: Option<InstructionTableEntry>)
    ensures
        r matches Some(e) ==> e.wf() && e.spec_encode() == *cell,
        forall|e: InstructionTableEntry| e.wf() && #[trigger] e.spec_encode() == *cell
            ==> r == Some(e),
{
    let (iid, bid, fid, mmid) = unpack4x16(cell.mid);
    let moid = cell.hi;
    proof {
        lemma_reassemble4x16(cell.mid);
    }
    if moid >= 0x10000 {
        proof {
            assert forall|e: InstructionTableEntry| e.wf() && #[trigger] e.spec_encode()
                == *cell implies false by {}
        }
        return None;
    }
    match decode_opcode(cell.lo) {
        Some(op) => {
            let e = InstructionTableEntry { moid, mmid, fid, bid, iid, opcode: op };
            proof {
                let m = cell.mid;
                assert(iid < 0x10000 && bid < 0x10000 && fid < 0x10000 && mmid < 0x10000)
                    by (bit_vector)
                    requires iid == m & 0xFFFF && bid == (m >> 16) & 0xFFFF && fid
                        == (m >> 32) & 0xFFFF && mmid == m >> 48;
                assert forall|e2: InstructionTableEntry| e2.wf() && #[trigger] e2.spec_encode()
                    == *cell implies Some(e) == Some(e2) by {
                    lemma_instruction_encode_injective(e, e2);
                }
            }
            Some(e)
        },
        None => {
            proof {
                assert forall|e2: InstructionTableEntry| e2.wf() && #[trigger] e2.spec_encode()
                    == *cell implies false by {}
            }
            None
        },
    }
}

/// A limb always equals its four 16-bit windows reassembled.
proof fn lemma_reassemble4x16(x: u64)
    ensures
        x == pack4x16(x & 0xFFFF, (x >> 16) & 0xFFFF, (x >> 32) & 0xFFFF, x >> 48),
{
    assert(x == ((x & 0xFFFF) + ((x >> 16) & 0xFFFF) * 0x10000 + ((x >> 32) & 0xFFFF)
        * 0x1_0000_0000 + (x >> 48) * 0x1_0000_0000_0000) as u64) by (bit_vector);
}

} // verus!
