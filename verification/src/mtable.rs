//! The memory table: one row per memory operation performed by the trace.
//!
//! Rows are totally ordered by the canonical key `(ltype, mmid, offset, eid,
//! emid)`.  The constraint system does not sort; it only checks order.  The
//! witness builder therefore sorts the derived rows here, in ordinary
//! verified code, before they are handed to the checker or to a circuit.

use vstd::prelude::*;
use vstd::multiset::Multiset;

verus! {

broadcast use vstd::seq_lib::group_to_multiset_ensures;

/// Where a memory cell lives: the linear heap or the operand stack.
#[derive(Clone, Copy, Debug, PartialEq, Eq, Structural)]
pub enum LocationType {
    Heap,
    Stack,
}

impl LocationType {
    /// Numeric code used inside row encodings (1 bit wide).
    pub open spec fn spec_code(self) -> u64 {
        match self {
            LocationType::Heap => 0,
            LocationType::Stack => 1,
        }
    }

    /// Executable twin of [`Self::spec_code`].
    pub fn code(self) -> (r: u64)
        ensures
            r == self.spec_code(),
    {
        match self {
            LocationType::Heap => 0,
            LocationType::Stack => 1,
        }
    }
}

/// What a memory table row does to its cell.
#[derive(Clone, Copy, Debug, PartialEq, Eq, Structural)]
pub enum AccessType {
    Read,
    Write,
    Init,
}

impl AccessType {
    /// Numeric code used inside row encodings (2 bits wide).
    pub open spec fn spec_code(self) -> u64 {
        match self {
            AccessType::Read => 1,
            AccessType::Write => 2,
            AccessType::Init => 3,
        }
    }

    /// Executable twin of [`Self::spec_code`].
    pub fn code(self) -> (r: u64)
        ensures
            r == self.spec_code(),
    {
        match self {
            AccessType::Read => 1,
            AccessType::Write => 2,
            AccessType::Init => 3,
        }
    }
}

/// Declared type of a 64-bit value held in a memory cell.
#[derive(Clone, Copy, Debug, PartialEq, Eq, Structural)]
pub enum VarType {
    U8,
    I8,
    U16,
    I16,
    U32,
    I32,
    U64,
    I64,
}

impl VarType {
    /// Numeric code used inside row encodings (13 bits wide).
    pub open spec fn spec_code(self) -> u64 {
        match self {
            VarType::U8 => 1,
            VarType::I8 => 2,
            VarType::U16 => 3,
            VarType::I16 => 4,
            VarType::U32 => 5,
            VarType::I32 => 6,
            VarType::U64 => 7,
            VarType::I64 => 8,
        }
    }

    /// Executable twin of [`Self::spec_code`].
    pub fn code(self) -> (r: u64)
        ensures
            r == self.spec_code(),
    {
        match self {
            VarType::U8 => 1,
            VarType::I8 => 2,
            VarType::U16 => 3,
            VarType::I16 => 4,
            VarType::U32 => 5,
            VarType::I32 => 6,
            VarType::U64 => 7,
            VarType::I64 => 8,
        }
    }

    /// The type whose numeric code is `c`, if `c` is one.
    pub fn from_code(c: u64) -> (r: Option<VarType>)
        ensures
            r matches Some(t) ==> t.spec_code() == c,
            forall|t: VarType| t.spec_code() == c ==> r == Some(t),
    {
        if c == 1 {
            Some(VarType::U8)
        } else if c == 2 {
            Some(VarType::I8)
        } else if c == 3 {
            Some(VarType::U16)
        } else if c == 4 {
            Some(VarType::I16)
        } else if c == 5 {
            Some(VarType::U32)
        } else if c == 6 {
            Some(VarType::I32)
        } else if c == 7 {
            Some(VarType::U64)
        } else if c == 8 {
            Some(VarType::I64)
        } else {
            None
        }
    }

    /// How many of the 8 value bytes a canonical value of this type may use.
    pub open spec fn spec_byte_size(self) -> u64 {
        match self {
            VarType::U8 => 1,
            VarType::I8 => 1,
            VarType::U16 => 2,
            VarType::I16 => 2,
            VarType::U32 => 4,
            VarType::I32 => 4,
            VarType::U64 => 8,
            VarType::I64 => 8,
        }
    }

    /// Executable twin of [`Self::spec_byte_size`].
    pub fn byte_size(&self) -> (r: u64)
        ensures
            r == self.spec_byte_size(),
            1 <= r <= 8,
    {
        match self {
            VarType::U8 => 1,
            VarType::I8 => 1,
            VarType::U16 => 2,
            VarType::I16 => 2,
            VarType::U32 => 4,
            VarType::I32 => 4,
            VarType::U64 => 8,
            VarType::I64 => 8,
        }
    }
}

/// One memory operation: step `eid`, sub-operation `emid`, cell
/// `(ltype, mmid, offset)`, performing `atype` with typed value
/// `(vtype, value)`.
#[derive(Clone, Copy, Debug, PartialEq, Eq, Structural)]
pub struct MemoryTableEntry {
    pub eid: u64,
    pub emid: u64,
    pub mmid: u64,
    pub offset: u64,
    pub ltype: LocationType,
    pub atype: AccessType,
    pub vtype: VarType,
    pub value: u64,
}

impl MemoryTableEntry {
    /// Two rows touch the same cell.
    pub open spec fn spec_same_location(self, other: MemoryTableEntry) -> bool {
        self.mmid == other.mmid && self.offset == other.offset && self.ltype == other.ltype
    }

    /// Executable twin of [`Self::spec_same_location`].
    pub fn is_same_location(&self, other: &MemoryTableEntry) -> (r: bool)
        ensures
            r == self.spec_same_location(*other),
    {
        self.mmid == other.mmid && self.offset == other.offset && self.ltype == other.ltype
    }
}

/// Distinct location types have distinct codes.
pub proof fn lemma_ltype_code_injective(a: LocationType, b: LocationType)
    requires
        a.spec_code() == b.spec_code(),
    ensures
        a == b,
{
}

/// Distinct access types have distinct codes.
pub proof fn lemma_atype_code_injective(a: AccessType, b: AccessType)
    requires
        a.spec_code() == b.spec_code(),
    ensures
        a == b,
{
}

/// Distinct value types have distinct codes.
pub proof fn lemma_vtype_code_injective(a: VarType, b: VarType)
    requires
        a.spec_code() == b.spec_code(),
    ensures
        a == b,
{
}

impl MemoryTableEntry {
    /// The id fields fit their 16-bit windows and the value is canonical
    /// for its declared type: no nonzero byte above the type's width.
    pub open spec fn wf(self) -> bool {
        self.mmid < 0x10000 && self.offset < 0x10000 && self.emid < 0x10000
            && crate::range::value_fits(self.value, self.vtype)
    }

    /// Executable twin of [`Self::wf`].
    pub fn is_wf(&self) -> (r: bool)
        ensures
            r == self.wf(),
    {
        self.mmid < 0x10000 && self.offset < 0x10000 && self.emid < 0x10000
            && crate::range::value_fits_exec(self.value, self.vtype)
    }

    /// The packed memory row: `value` at bit 0 (64 bits), `vtype` at bit 64
    /// (13 bits), `atype` at bit 77 (2 bits), `ltype` at bit 79 (1 bit),
    /// `offset` at bit 80, `mmid` at bit 96, `emid` at bit 112 (16 bits
    /// each), `eid` at bit 128.
    pub open spec fn spec_encode(self) -> crate::pack::EncodedCell {
        crate::pack::EncodedCell {
            lo: self.value,
            mid: crate::pack::pack4x16(
                crate::pack::pack_type_bits(
                    self.vtype.spec_code(),
                    self.atype.spec_code(),
                    self.ltype.spec_code(),
                ),
                self.offset,
                self.mmid,
                self.emid,
            ),
            hi: self.eid,
        }
    }

    /// Executable twin of [`Self::spec_encode`].
    pub fn encode(&self) -> (r: crate::pack::EncodedCell)
        requires
            self.wf(),
        ensures
            r == self.spec_encode(),
    {
        let tb = self.vtype.code() + self.atype.code() * 0x2000 + self.ltype.code() * 0x8000;
        crate::pack::EncodedCell {
            lo: self.value,
            mid: tb + self.offset * 0x10000 + self.mmid * 0x1_0000_0000 + self.emid
                * 0x1_0000_0000_0000,
            hi: self.eid,
        }
    }
}

/// Packing a memory row is collision-free: equal cells come from equal rows.
pub proof fn lemma_memory_encode_injective(e1: MemoryTableEntry, e2: MemoryTableEntry)
    requires
        e1.wf(),
        e2.wf(),
        e1.spec_encode() == e2.spec_encode(),
    ensures
        e1 == e2,
{
    let t1 = crate::pack::pack_type_bits(
        e1.vtype.spec_code(), e1.atype.spec_code(), e1.ltype.spec_code(),
    );
    let t2 = crate::pack::pack_type_bits(
        e2.vtype.spec_code(), e2.atype.spec_code(), e2.ltype.spec_code(),
    );
    crate::pack::lemma_pack_type_bits_exact(
        e1.vtype.spec_code(), e1.atype.spec_code(), e1.ltype.spec_code(),
    );
    crate::pack::lemma_pack_type_bits_exact(
        e2.vtype.spec_code(), e2.atype.spec_code(), e2.ltype.spec_code(),
    );
    crate::pack::lemma_pack4x16_injective(
        t1, e1.offset, e1.mmid, e1.emid,
        t2, e2.offset, e2.mmid, e2.emid,
    );
    crate::pack::lemma_pack_type_bits_parts(
        e1.vtype.spec_code(), e1.atype.spec_code(), e1.ltype.spec_code(),
    );
    crate::pack::lemma_pack_type_bits_parts(
        e2.vtype.spec_code(), e2.atype.spec_code(), e2.ltype.spec_code(),
    );
    lemma_vtype_code_injective(e1.vtype, e2.vtype);
    lemma_atype_code_injective(e1.atype, e2.atype);
    lemma_ltype_code_injective(e1.ltype, e2.ltype);
}

/// Two rows carry the same canonical key `(ltype, mmid, offset, eid, emid)`.
pub open spec fn same_key(a: MemoryTableEntry, b: MemoryTableEntry) -> bool {
    a.ltype == b.ltype && a.mmid == b.mmid && a.offset == b.offset && a.eid == b.eid && a.emid
        == b.emid
}

/// Weak order on rows by the canonical key `(ltype, mmid, offset, eid, emid)`.
pub open spec fn key_le(a: MemoryTableEntry, b: MemoryTableEntry) -> bool {
    if a.ltype.spec_code() != b.ltype.spec_code() {
        a.ltype.spec_code() < b.ltype.spec_code()
    } else if a.mmid != b.mmid {
        a.mmid < b.mmid
    } else if a.offset != b.offset {
        a.offset < b.offset
    } else if a.eid != b.eid {
        a.eid < b.eid
    } else {
        a.emid <= b.emid
    }
}

/// Strict order on rows by the canonical key: `key_le` and the keys differ.
pub open spec fn key_lt(a: MemoryTableEntry, b: MemoryTableEntry) -> bool {
    key_le(a, b) && !(a.ltype == b.ltype && a.mmid == b.mmid && a.offset == b.offset
        && a.eid == b.eid && a.emid == b.emid)
}

/// Executable twin of [`key_le`].
pub fn key_le_exec(a: &MemoryTableEntry, b: &MemoryTableEntry) -> (r: bool)
    ensures
        r == key_le(*a, *b),
{
    let ac = a.ltype.code();
    let bc = b.ltype.code();
    if ac != bc {
        ac < bc
    } else if a.mmid != b.mmid {
        a.mmid < b.mmid
    } else if a.offset != b.offset {
        a.offset < b.offset
    } else if a.eid != b.eid {
        a.eid < b.eid
    } else {
        a.emid <= b.emid
    }
}

/// The rows are weakly sorted by the canonical key.
pub open spec fn sorted_by_key(s: Seq<MemoryTableEntry>) -> bool {
    forall|i: int, j: int| 0 <= i < j < s.len() ==> key_le(#[trigger] s[i], #[trigger] s[j])
}

/// `key_le` is total: any two rows compare one way or the other.
pub proof fn lemma_key_le_total(a: MemoryTableEntry, b: MemoryTableEntry)
    ensures
        key_le(a, b) || key_le(b, a),
{
}

/// `key_le` is transitive.
pub proof fn lemma_key_le_trans(a: MemoryTableEntry, b: MemoryTableEntry, c: MemoryTableEntry)
    requires
        key_le(a, b),
        key_le(b, c),
    ensures
        key_le(a, c),
{
}

/// The memory table: rows kept (after [`MTable::sort`]) in canonical order.
#[derive(Default)]
pub struct MTable(Vec<MemoryTableEntry>);

impl View for MTable {
    type V = Seq<MemoryTableEntry>;

    closed spec fn view(&self) -> Seq<MemoryTableEntry> {
        self.0@
    }
}

impl MTable {
    /// Wraps a row list, in whatever order it was produced.
    pub fn new(entries: Vec<MemoryTableEntry>) -> (r: MTable)
        ensures
            r@ == entries@,
    {
        MTable(entries)
    }

    /// Sorts the rows by the canonical key, keeping them as a multiset.
    pub fn sort(&mut self)
        ensures
            sorted_by_key(final(self)@),
            final(self)@.to_multiset() == old(self)@.to_multiset(),
    {
        sort_entries(&mut self.0);
    }

    /// The rows, in their current order.
    pub fn entries(&self) -> (r: &Vec<MemoryTableEntry>)
        ensures
            r@ == self@,
    {
        &self.0
    }
}

/// Selection sort of memory rows by the canonical key.
fn sort_entries(v: &mut Vec<MemoryTableEntry>)
    ensures
        sorted_by_key(final(v)@),
        final(v)@.to_multiset() == old(v)@.to_multiset(),
{
    let mut out: Vec<MemoryTableEntry> = Vec::new();
    proof {
        assert(out@.to_multiset().add(v@.to_multiset()) =~= v@.to_multiset());
    }
    while v.len() > 0
        invariant
            sorted_by_key(out@),
            forall|i: int, j: int|
                0 <= i < out@.len() && 0 <= j < v@.len()
                    ==> key_le(#[trigger] out@[i], #[trigger] v@[j]),
            out@.to_multiset().add(v@.to_multiset()) == old(v)@.to_multiset(),
        decreases v.len(),
    {
        let mut m: usize = 0;
        let mut i: usize = 1;
        while i < v.len()
            invariant
                0 <= m < i <= v@.len(),
                forall|j: int| 0 <= j < i ==> key_le(v@[m as int], #[trigger] v@[j]),
            decreases v@.len() - i,
        {
            if !key_le_exec(&v[m], &v[i]) {
                proof {
                    lemma_key_le_total(v@[m as int], v@[i as int]);
                    assert forall|j: int| 0 <= j < i + 1 implies key_le(
                        v@[i as int],
                        #[trigger] v@[j],
                    ) by {
                        if j < i {
                            lemma_key_le_trans(v@[i as int], v@[m as int], v@[j]);
                        }
                    }
                }
                m = i;
            }
            i = i + 1;
        }
        let ghost pre = v@;
        let x = v.remove(m);
        proof {
            assert(pre.remove(m as int).to_multiset() =~= pre.to_multiset().remove(x));
            assert(out@.push(x).to_multiset() =~= out@.to_multiset().insert(x));
            assert(pre.to_multiset().count(x) > 0);
            assert(out@.push(x).to_multiset().add(v@.to_multiset()) =~= old(
                v,
            )@.to_multiset());
            assert forall|j: int| 0 <= j < v@.len() implies key_le(x, #[trigger] v@[j]) by {
                if j < m {
                    assert(v@[j] == pre[j]);
                } else {
                    assert(v@[j] == pre[j + 1]);
                }
            }
        }
        out.push(x);
    }
    proof {
        assert(v@.to_multiset() =~= Multiset::<MemoryTableEntry>::empty());
        assert(out@.to_multiset().add(v@.to_multiset()) =~= out@.to_multiset());
    }
    *v = out;
}

} // verus!
