//! The jump table: one row per control transfer.
//!
//! A row records the transferring step `eid`, the continuation `last_jump_eid`
//! it restores, and the address of the transferring instruction, so that
//! call and return steps can validate restored continuations by lookup.

use vstd::prelude::*;
use crate::itable::InstructionTableEntry;
use crate::pack::{pack4x16, lemma_pack4x16_injective, EncodedCell};

verus! {

/// One control transfer record.
#[derive(Clone, Debug)]
pub struct JumpTableEntry {
    pub eid: u64,
    pub last_jump_eid: u64,
    pub instruction: Box<InstructionTableEntry>,
}

impl JumpTableEntry {
    /// The instruction address fits its windows and the continuation id fits
    /// the 48-bit window left beside `moid`.
    pub open spec fn wf(self) -> bool {
        self.instruction.wf() && self.last_jump_eid < 0x1_0000_0000_0000
    }

    /// The packed row: the instruction address `(iid, bid, fid, mmid)` in
    /// 16-bit windows from bit 0, `moid` at bit 64, `last_jump_eid` at bit
    /// 80, `eid` at bit 128.
    pub open spec fn spec_encode(self) -> EncodedCell {
        EncodedCell {
            lo: pack4x16(self.instruction.iid, self.instruction.bid, self.instruction.fid,
                self.instruction.mmid),
            mid: (self.instruction.moid + self.last_jump_eid * 0x10000) as u64,
            hi: self.eid,
        }
    }

    /// Executable twin of [`Self::spec_encode`].
    pub fn encode(&self) -> (r: EncodedCell)
        requires
            self.wf(),
        ensures
            r == self.spec_encode(),
    {
        EncodedCell {
            lo: self.instruction.iid + self.instruction.bid * 0x10000 + self.instruction.fid
                * 0x1_0000_0000 + self.instruction.mmid * 0x1_0000_0000_0000,
            mid: self.instruction.moid + self.last_jump_eid * 0x10000,
            hi: self.eid,
        }
    }
}

/// Packing a jump row is collision-free in the fields it covers: equal cells
/// mean equal step, continuation, and instruction address.
pub proof fn lemma_jump_encode_injective(e1: JumpTableEntry, e2: JumpTableEntry)
    requires
        e1.wf(),
        e2.wf(),
        e1.spec_encode() == e2.spec_encode(),
    ensures
        e1.eid == e2.eid,
        e1.last_jump_eid == e2.last_jump_eid,
        e1.instruction.moid == e2.instruction.moid,
        e1.instruction.mmid == e2.instruction.mmid,
        e1.instruction.fid == e2.instruction.fid,
        e1.instruction.bid == e2.instruction.bid,
        e1.instruction.iid == e2.instruction.iid,
{
    lemma_pack4x16_injective(
        e1.instruction.iid, e1.instruction.bid, e1.instruction.fid, e1.instruction.mmid,
        e2.instruction.iid, e2.instruction.bid, e2.instruction.fid, e2.instruction.mmid,
    );
    assert(e1.instruction.moid + e1.last_jump_eid * 0x10000
        == e2.instruction.moid + e2.last_jump_eid * 0x10000);
    vstd::arithmetic::div_mod::lemma_fundamental_div_mod_converse(
        e1.instruction.moid + e1.last_jump_eid * 0x10000, 0x10000, e1.last_jump_eid as int,
        e1.instruction.moid as int,
    );
    vstd::arithmetic::div_mod::lemma_fundamental_div_mod_converse(
        e2.instruction.moid + e2.last_jump_eid * 0x10000, 0x10000, e2.last_jump_eid as int,
        e2.instruction.moid as int,
    );
}

} // verus!
