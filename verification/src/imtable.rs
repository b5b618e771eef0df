//! The init memory table: the values heap cells hold before execution.
//!
//! Static, derived from the compiled module's data section.  The memory
//! table's heap first-touch check looks packed `(mmid, offset, value)`
//! triples up in this table.

use vstd::prelude::*;
use crate::pack::{pack4x16, lemma_pack4x16_injective, EncodedCell};

verus! {

/// The declared initial value of one heap cell.
#[derive(Clone, Copy, Debug, PartialEq, Eq, Structural)]
pub struct InitMemoryTableEntry {
    pub mmid: u64,
    pub offset: u64,
    pub value: u64,
}

impl InitMemoryTableEntry {
    /// The id fields fit their 16-bit windows.
    pub open spec fn wf(self) -> bool {
        self.mmid < 0x10000 && self.offset < 0x10000
    }

    /// The packed triple: `value` at bit 0 (64 bits), `offset` at bit 64,
    /// `mmid` at bit 80.
    pub open spec fn spec_encode(self) -> EncodedCell {
        EncodedCell { lo: self.value, mid: pack4x16(self.offset, self.mmid, 0, 0), hi: 0 }
    }

    /// Executable twin of [`Self::spec_encode`].
    pub fn encode(&self) -> (r: EncodedCell)
        requires
            self.wf(),
        ensures
            r == self.spec_encode(),
    {
        EncodedCell { lo: self.value, mid: self.offset + self.mmid * 0x10000, hi: 0 }
    }
}

/// Packing an init memory triple is collision-free.
pub proof fn lemma_init_encode_injective(e1: InitMemoryTableEntry, e2: InitMemoryTableEntry)
    requires
        e1.wf(),
        e2.wf(),
        e1.spec_encode() == e2.spec_encode(),
    ensures
        e1 == e2,
{
    lemma_pack4x16_injective(e1.offset, e1.mmid, 0, 0, e2.offset, e2.mmid, 0, 0);
}

} // verus!
