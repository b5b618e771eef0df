//! The constraint checker: the cross-table invariants, checked row by row.
//!
//! A witness either satisfies every rule or is rejected with the first rule
//! it breaks and the row where it breaks it.  Nothing is repaired: a failing
//! witness is refused, as a proof built from it would be.

use vstd::prelude::*;
use crate::etable::{EventTableEntry, spec_mops, spec_sp_delta};
use crate::imtable::InitMemoryTableEntry;
use crate::itable::{InstructionTableEntry, Opcode};
use crate::jtable::JumpTableEntry;
use crate::mtable::{AccessType, LocationType, MTable, MemoryTableEntry, key_lt};
use crate::opcode::{memory_event_of_step, spec_assign_emids, spec_step_ops};

verus! {

/// The rules a witness can break.
#[derive(Clone, Copy, Debug, PartialEq, Eq, Structural)]
pub enum Rule {
    /// A memory row's id fields overflow their encoding windows.
    MemoryRange,
    /// Adjacent memory rows break the strict canonical order.
    MemoryOrder,
    /// A read returns a value or type other than its predecessor's.
    MemoryReadContinuity,
    /// The first touch of a stack cell is not a write.
    MemoryStackFirstWrite,
    /// The first touch of a heap cell is not declared in the init table.
    MemoryHeapFirstInit,
    /// An event row is out of range for the offset windows.
    EventRange,
    /// The step counter does not increase by exactly one from one.
    EventEidContinuity,
    /// The stack pointer does not move by the opcode's declared delta.
    EventSpContinuity,
    /// The claimed instruction is not in the instruction table.
    EventInstructionLookup,
    /// The step detail does not repeat the instruction's immediates.
    EventStepMatch,
    /// A declared memory operation of a step is not in the memory table.
    EventMemoryLookup,
    /// A call step's transfer record is not in the jump table.
    EventJumpLookup,
    /// The memory table's operation count differs from the events' total.
    MopsAccounting,
}

/// A rejected witness: the rule broken and the row that breaks it.
#[derive(Clone, Copy, Debug, PartialEq, Eq, Structural)]
pub struct Violation {
    pub rule: Rule,
    pub row: usize,
}

/// Every memory row's id fields fit their windows.
pub open spec fn mtable_wf(s: Seq<MemoryTableEntry>) -> bool {
    forall|i: int| 0 <= i < s.len() ==> (#[trigger] s[i]).wf()
}

/// The rows strictly increase in the canonical key: sorted, no duplicates.
pub open spec fn mtable_sorted_strict(s: Seq<MemoryTableEntry>) -> bool {
    forall|i: int| 0 < i < s.len() ==> key_lt(#[trigger] s[i - 1], s[i])
}

/// A read returns exactly what the previous operation on its cell left
/// there.
pub open spec fn mtable_read_continuity(s: Seq<MemoryTableEntry>) -> bool {
    forall|i: int|
        0 < i < s.len() && (#[trigger] s[i]).atype == AccessType::Read
            && s[i - 1].spec_same_location(s[i]) ==> s[i].value == s[i - 1].value && s[i].vtype
            == s[i - 1].vtype
}

/// The init table declares `value` for the heap cell `(mmid, offset)`.
pub open spec fn init_contains(
    im: Seq<InitMemoryTableEntry>,
    mmid: u64,
    offset: u64,
    value: u64,
) -> bool {
    exists|k: int| 0 <= k < im.len() && #[trigger] im[k] == (InitMemoryTableEntry {
        mmid,
        offset,
        value,
    })
}

/// A row is the first in the table to touch its cell.
pub open spec fn is_first_touch(s: Seq<MemoryTableEntry>, i: int) -> bool {
    i == 0 || !s[i - 1].spec_same_location(s[i])
}

/// The first touch of a stack cell writes it; the first touch of a heap
/// cell carries a declared initial value.
pub open spec fn mtable_first_touch(
    s: Seq<MemoryTableEntry>,
    im: Seq<InitMemoryTableEntry>,
) -> bool {
    forall|i: int|
        0 <= i < s.len() && is_first_touch(s, i) ==> (match (#[trigger] s[i]).ltype {
            LocationType::Stack => s[i].atype == AccessType::Write,
            LocationType::Heap => init_contains(im, s[i].mmid, s[i].offset, s[i].value),
        })
}

/// All invariants of the memory table against the init table.
pub open spec fn mtable_valid(s: Seq<MemoryTableEntry>, im: Seq<InitMemoryTableEntry>) -> bool {
    mtable_wf(s) && mtable_sorted_strict(s) && mtable_read_continuity(s) && mtable_first_touch(
        s,
        im,
    )
}

/// The rules binding one row to its predecessor, `None` at the first row.
pub open spec fn mrow_ok(
    prev: Option<MemoryTableEntry>,
    e: MemoryTableEntry,
    im: Seq<InitMemoryTableEntry>,
) -> bool {
    &&& e.wf()
    &&& (prev matches Some(p) ==> key_lt(p, e))
    &&& (match prev {
        Some(p) => e.atype == AccessType::Read && p.spec_same_location(e) ==> e.value == p.value
            && e.vtype == p.vtype,
        None => true,
    })
    &&& ((match prev {
        Some(p) => !p.spec_same_location(e),
        None => true,
    }) ==> (match e.ltype {
        LocationType::Stack => e.atype == AccessType::Write,
        LocationType::Heap => init_contains(im, e.mmid, e.offset, e.value),
    }))
}

/// What a memory table violation report asserts of the witness.
pub open spec fn mtable_violation(
    s: Seq<MemoryTableEntry>,
    im: Seq<InitMemoryTableEntry>,
    v: Violation,
) -> bool {
    let i = v.row as int;
    match v.rule {
        Rule::MemoryRange => 0 <= i < s.len() && !s[i].wf(),
        Rule::MemoryOrder => 0 < i < s.len() && !key_lt(s[i - 1], s[i]),
        Rule::MemoryReadContinuity => 0 < i < s.len() && s[i].atype == AccessType::Read
            && s[i - 1].spec_same_location(s[i]) && !(s[i].value == s[i - 1].value && s[i].vtype
            == s[i - 1].vtype),
        Rule::MemoryStackFirstWrite => 0 <= i < s.len() && is_first_touch(s, i) && s[i].ltype
            == LocationType::Stack && s[i].atype != AccessType::Write,
        Rule::MemoryHeapFirstInit => 0 <= i < s.len() && is_first_touch(s, i) && s[i].ltype
            == LocationType::Heap && !init_contains(im, s[i].mmid, s[i].offset, s[i].value),
        _ => false,
    }
}

/// Scans the init table for a declared `(mmid, offset, value)` triple.
fn init_lookup(im: &Vec<InitMemoryTableEntry>, mmid: u64, offset: u64, value: u64) -> (r: bool)
    ensures
        r == init_contains(im@, mmid, offset, value),
{
    let n = im.len();
    for k in 0..n
        invariant
            n == im@.len(),
            forall|q: int| 0 <= q < k ==> im@[q] != (InitMemoryTableEntry { mmid, offset, value }),
    {
        let e = im[k];
        if e.mmid == mmid && e.offset == offset && e.value == value {
            return true;
        }
    }
    false
}

/// Checks the rules binding one memory row to its predecessor.
#[verifier::rlimit(100)]
fn check_mrow(
    prev: Option<&MemoryTableEntry>,
    e: &MemoryTableEntry,
    im: &Vec<InitMemoryTableEntry>,
    row: usize,
) -> (r: Result<(), Rule>)
    ensures
        r is Ok <==> mrow_ok(match prev {
            Some(p) => Some(*p),
            None => None,
        }, *e, im@),
        r matches Err(rule) ==> match rule {
            Rule::MemoryRange => !e.wf(),
            Rule::MemoryOrder => prev matches Some(p) && !key_lt(*p, *e),
            Rule::MemoryReadContinuity => prev matches Some(p) && e.atype == AccessType::Read
                && p.spec_same_location(*e) && !(e.value == p.value && e.vtype == p.vtype),
            Rule::MemoryStackFirstWrite => (prev matches Some(p) ==> !p.spec_same_location(*e))
                && e.ltype == LocationType::Stack && e.atype != AccessType::Write,
            Rule::MemoryHeapFirstInit => (prev matches Some(p) ==> !p.spec_same_location(*e))
                && e.ltype == LocationType::Heap && !init_contains(im@, e.mmid, e.offset,
                e.value),
            _ => false,
        },
{
    if !e.is_wf() {
        return Err(Rule::MemoryRange);
    }
    let same = match prev {
        Some(p) => {
            let ple = crate::mtable::key_le_exec(p, e);
            if !ple || (p.ltype == e.ltype && p.mmid == e.mmid && p.offset == e.offset && p.eid
                == e.eid && p.emid == e.emid) {
                return Err(Rule::MemoryOrder);
            }
            if p.is_same_location(e) {
                if e.atype == AccessType::Read && !(e.value == p.value && e.vtype == p.vtype) {
                    return Err(Rule::MemoryReadContinuity);
                }
                true
            } else {
                false
            }
        },
        None => false,
    };
    if !same {
        match e.ltype {
            LocationType::Stack => {
                if !(e.atype == AccessType::Write) {
                    return Err(Rule::MemoryStackFirstWrite);
                }
            },
            LocationType::Heap => {
                if !init_lookup(im, e.mmid, e.offset, e.value) {
                    return Err(Rule::MemoryHeapFirstInit);
                }
            },
        }
    }
    Ok(())
}

/// The per-row rules, taken over all rows, are exactly the table invariants.
#[verifier::rlimit(100)]
#[verifier::spinoff_prover]
proof fn lemma_mtable_valid_rows(s: Seq<MemoryTableEntry>, im: Seq<InitMemoryTableEntry>)
    ensures
        mtable_valid(s, im) <==> (forall|i: int|
            0 <= i < s.len() ==> mrow_ok(
                if i == 0 {
                    None
                } else {
                    Some(s[i - 1])
                },
                #[trigger] s[i],
                im,
            )),
{
    if forall|i: int|
        0 <= i < s.len() ==> mrow_ok(
            if i == 0 {
                None
            } else {
                Some(s[i - 1])
            },
            #[trigger] s[i],
            im,
        ) {
        assert forall|i: int| 0 <= i < s.len() implies (#[trigger] s[i]).wf() by {
            assert(mrow_ok(if i == 0 { None } else { Some(s[i - 1]) }, s[i], im));
        }
        assert forall|i: int| 0 < i < s.len() implies key_lt(#[trigger] s[i - 1], s[i]) by {
            assert(mrow_ok(Some(s[i - 1]), s[i], im));
        }
        assert forall|i: int|
            0 < i < s.len() && (#[trigger] s[i]).atype == AccessType::Read
                && s[i - 1].spec_same_location(s[i]) implies s[i].value == s[i - 1].value
            && s[i].vtype == s[i - 1].vtype by {
            assert(mrow_ok(Some(s[i - 1]), s[i], im));
        }
        assert forall|i: int|
            0 <= i < s.len() && is_first_touch(s, i) implies (match (#[trigger] s[i]).ltype {
            LocationType::Stack => s[i].atype == AccessType::Write,
            LocationType::Heap => init_contains(im, s[i].mmid, s[i].offset, s[i].value),
        }) by {
            assert(mrow_ok(if i == 0 { None } else { Some(s[i - 1]) }, s[i], im));
        }
        assert(mtable_valid(s, im));
    }
    if mtable_valid(s, im) {
        assert forall|i: int| 0 <= i < s.len() implies mrow_ok(
            if i == 0 {
                None
            } else {
                Some(s[i - 1])
            },
            #[trigger] s[i],
            im,
        ) by {
            assert(s[i].wf());
            if i > 0 {
                assert(key_lt(s[i - 1], s[i]));
            }
        }
    }
}

/// Checks every memory table invariant, reporting the first broken rule and
/// its row.  Accepts exactly the tables on which every rule holds.
pub fn check_mtable(m: &MTable, imtable: &Vec<InitMemoryTableEntry>) -> (r: Result<(), Violation>)
    ensures
        r is Ok <==> mtable_valid(m@, imtable@),
        r matches Err(v) ==> mtable_violation(m@, imtable@, v),
{
    proof {
        lemma_mtable_valid_rows(m@, imtable@);
    }
    check_mtable_rows(m, imtable)
}

/// Row-by-row pass behind [`check_mtable`], stated over the per-row rules.
#[verifier::rlimit(100)]
#[verifier::spinoff_prover]
fn check_mtable_rows(m: &MTable, imtable: &Vec<InitMemoryTableEntry>) -> (r: Result<(), Violation>)
    ensures
        r is Ok <==> (forall|i: int|
            0 <= i < m@.len() ==> mrow_ok(
                if i == 0 {
                    None
                } else {
                    Some(m@[i - 1])
                },
                #[trigger] m@[i],
                imtable@,
            )),
        r matches Err(v) ==> mtable_violation(m@, imtable@, v),
{
    let entries = m.entries();
    let n = entries.len();
    for i in 0..n
        invariant
            n == entries@.len(),
            entries@ == m@,
            forall|q: int|
                0 <= q < i ==> mrow_ok(
                    if q == 0 {
                        None
                    } else {
                        Some(m@[q - 1])
                    },
                    #[trigger] m@[q],
                    imtable@,
                ),
    {
        let e = &entries[i];
        let prev: Option<&MemoryTableEntry> = if i == 0 {
            None
        } else {
            Some(&entries[i - 1])
        };
        match check_mrow(prev, e, imtable, i) {
            Ok(()) => {},
            Err(rule) => {
                return Err(Violation { rule, row: i });
            },
        }
    }
    Ok(())
}

/// The instruction table holds this exact entry.
pub open spec fn inst_contains(it: Seq<InstructionTableEntry>, e: InstructionTableEntry) -> bool {
    exists|k: int| 0 <= k < it.len() && #[trigger] it[k] == e
}

/// The memory table holds this exact row.
pub open spec fn mt_contains(mt: Seq<MemoryTableEntry>, e: MemoryTableEntry) -> bool {
    exists|k: int| 0 <= k < mt.len() && #[trigger] mt[k] == e
}

/// The jump table records this step's transfer: its step id, the
/// continuation it restores, and its instruction.
pub open spec fn jt_contains(jt: Seq<JumpTableEntry>, e: EventTableEntry) -> bool {
    exists|k: int|
        0 <= k < jt.len() && (#[trigger] jt[k]).eid == e.eid && jt[k].last_jump_eid
            == e.last_jump_eid && *jt[k].instruction == e.inst
}

/// Every memory row the step declares is present in the memory table.
#[verifier::opaque]
pub open spec fn step_ops_in_mtable(e: EventTableEntry, mt: Seq<MemoryTableEntry>) -> bool {
    let ops = spec_assign_emids(spec_step_ops(e));
    forall|j: int| 0 <= j < ops.len() ==> mt_contains(mt, #[trigger] ops[j])
}

/// The rules binding one event row to its predecessor and to the other
/// tables.
pub open spec fn erow_ok(
    prev: Option<EventTableEntry>,
    e: EventTableEntry,
    row: int,
    it: Seq<InstructionTableEntry>,
    mt: Seq<MemoryTableEntry>,
    jt: Seq<JumpTableEntry>,
) -> bool {
    &&& e.wf()
    &&& e.eid == row + 1
    &&& (prev matches Some(p) ==> e.sp == p.sp + spec_sp_delta(p.inst.opcode))
    &&& inst_contains(it, e.inst)
    &&& step_ops_in_mtable(e, mt)
    &&& (e.inst.opcode matches Opcode::Call { .. } ==> jt_contains(jt, e))
}

/// All invariants of the event table against the other tables.
pub open spec fn etable_valid(
    es: Seq<EventTableEntry>,
    it: Seq<InstructionTableEntry>,
    mt: Seq<MemoryTableEntry>,
    jt: Seq<JumpTableEntry>,
) -> bool {
    forall|i: int|
        0 <= i < es.len() ==> erow_ok(
            if i == 0 {
                None
            } else {
                Some(es[i - 1])
            },
            #[trigger] es[i],
            i,
            it,
            mt,
            jt,
        )
}

/// The total memory-operation count the event table declares.
pub open spec fn spec_total_mops(es: Seq<EventTableEntry>) -> int
    decreases es.len(),
{
    if es.len() == 0 {
        0
    } else {
        spec_total_mops(es.drop_last()) + spec_mops(es.last().inst.opcode)
    }
}

/// How many memory rows perform a real (non-init) operation.
pub open spec fn spec_count_non_init(mt: Seq<MemoryTableEntry>) -> int
    decreases mt.len(),
{
    if mt.len() == 0 {
        0
    } else {
        spec_count_non_init(mt.drop_last()) + if mt.last().atype != AccessType::Init {
            1int
        } else {
            0int
        }
    }
}

/// The shared counter reaches zero on both tables at once: the events'
/// declared operation total equals the memory table's non-init row count.
pub open spec fn mops_accounted(es: Seq<EventTableEntry>, mt: Seq<MemoryTableEntry>) -> bool {
    spec_total_mops(es) == spec_count_non_init(mt)
}

/// What an event table violation report asserts of the witness.
pub open spec fn etable_violation(
    es: Seq<EventTableEntry>,
    it: Seq<InstructionTableEntry>,
    mt: Seq<MemoryTableEntry>,
    jt: Seq<JumpTableEntry>,
    v: Violation,
) -> bool {
    let i = v.row as int;
    match v.rule {
        Rule::EventStepMatch => 0 <= i < es.len() && !es[i].spec_step_matches(),
        Rule::EventRange => 0 <= i < es.len() && !es[i].wf(),
        Rule::EventEidContinuity => 0 <= i < es.len() && es[i].eid != i + 1,
        Rule::EventSpContinuity => 0 < i < es.len() && es[i].sp != es[i - 1].sp + spec_sp_delta(
            es[i - 1].inst.opcode,
        ),
        Rule::EventInstructionLookup => 0 <= i < es.len() && !inst_contains(it, es[i].inst),
        Rule::EventMemoryLookup => 0 <= i < es.len() && !step_ops_in_mtable(es[i], mt),
        Rule::EventJumpLookup => 0 <= i < es.len() && (es[i].inst.opcode matches Opcode::Call {
            ..
        }) && !jt_contains(jt, es[i]),
        Rule::MopsAccounting => !mops_accounted(es, mt),
        _ => false,
    }
}

/// The packed program lookup agrees with the exact-entry lookup: a row's
/// packed `(address, opcode)` cell appears among the packed instruction
/// rows exactly when the entry itself is in the table, because the
/// instruction encoding is collision-free.
pub proof fn lemma_inst_lookup_packed(it: Seq<InstructionTableEntry>, e: InstructionTableEntry)
    requires
        e.wf(),
        forall|k: int| 0 <= k < it.len() ==> (#[trigger] it[k]).wf(),
    ensures
        inst_contains(it, e) <==> exists|k: int|
            0 <= k < it.len() && (#[trigger] it[k]).spec_encode() == e.spec_encode(),
{
    if inst_contains(it, e) {
        let k = choose|k: int| 0 <= k < it.len() && #[trigger] it[k] == e;
        assert(it[k].spec_encode() == e.spec_encode());
    }
    if exists|k: int| 0 <= k < it.len() && (#[trigger] it[k]).spec_encode() == e.spec_encode() {
        let k = choose|k: int|
            0 <= k < it.len() && (#[trigger] it[k]).spec_encode() == e.spec_encode();
        crate::itable::lemma_instruction_encode_injective(it[k], e);
    }
}

/// The packed memory lookup agrees with the exact-row lookup: a step's
/// packed memory row appears among the packed table rows exactly when the
/// row itself is in the table, because the memory row encoding is
/// collision-free.
pub proof fn lemma_mt_lookup_packed(mt: Seq<MemoryTableEntry>, e: MemoryTableEntry)
    requires
        e.wf(),
        mtable_wf(mt),
    ensures
        mt_contains(mt, e) <==> exists|k: int|
            0 <= k < mt.len() && (#[trigger] mt[k]).spec_encode() == e.spec_encode(),
{
    if mt_contains(mt, e) {
        let k = choose|k: int| 0 <= k < mt.len() && #[trigger] mt[k] == e;
        assert(mt[k].spec_encode() == e.spec_encode());
    }
    if exists|k: int| 0 <= k < mt.len() && (#[trigger] mt[k]).spec_encode() == e.spec_encode() {
        let k = choose|k: int|
            0 <= k < mt.len() && (#[trigger] mt[k]).spec_encode() == e.spec_encode();
        crate::mtable::lemma_memory_encode_injective(mt[k], e);
    }
}

/// Scans the instruction table for an exact entry.
fn inst_lookup(it: &Vec<InstructionTableEntry>, e: &InstructionTableEntry) -> (r: bool)
    ensures
        r == inst_contains(it@, *e),
{
    let n = it.len();
    for k in 0..n
        invariant
            n == it@.len(),
            forall|q: int| 0 <= q < k ==> it@[q] != *e,
    {
        if it[k] == *e {
            return true;
        }
    }
    false
}

/// Scans the memory table for an exact row.
fn mt_lookup(mt: &Vec<MemoryTableEntry>, e: &MemoryTableEntry) -> (r: bool)
    ensures
        r == mt_contains(mt@, *e),
{
    let n = mt.len();
    for k in 0..n
        invariant
            n == mt@.len(),
            forall|q: int| 0 <= q < k ==> mt@[q] != *e,
    {
        if mt[k] == *e {
            return true;
        }
    }
    false
}

/// Scans the jump table for this step's transfer record.
fn jt_lookup(jt: &Vec<JumpTableEntry>, e: &EventTableEntry) -> (r: bool)
    ensures
        r == jt_contains(jt@, *e),
{
    let n = jt.len();
    for k in 0..n
        invariant
            n == jt@.len(),
            forall|q: int|
                0 <= q < k ==> !((#[trigger] jt@[q]).eid == e.eid && jt@[q].last_jump_eid
                    == e.last_jump_eid && *jt@[q].instruction == e.inst),
    {
        let j = &jt[k];
        if j.eid == e.eid && j.last_jump_eid == e.last_jump_eid && *j.instruction == e.inst {
            return true;
        }
    }
    false
}

/// The stack pointer after one step: `sp` before plus the opcode's delta.
fn sp_after(e: &EventTableEntry) -> (r: u64)
    requires
        e.wf(),
    ensures
        r == e.sp + spec_sp_delta(e.inst.opcode),
{
    proof {
        reveal(EventTableEntry::wf);
    }
    match &e.inst.opcode {
        Opcode::LocalGet { .. } => e.sp + 1,
        Opcode::Const { .. } => e.sp + 1,
        Opcode::Drop => e.sp - 1,
        Opcode::Return { drop, keep } => e.sp - *drop + *keep,
        Opcode::BrIfNez { .. } => e.sp - 1,
        Opcode::Call { .. } => e.sp,
        Opcode::BinOp => e.sp - 1,
        Opcode::Comparison => e.sp - 1,
    }
}

/// Checks the rules binding one event row to its predecessor and to the
/// other tables.
#[verifier::rlimit(100)]
fn check_erow(
    prev: Option<&EventTableEntry>,
    e: &EventTableEntry,
    row: usize,
    it: &Vec<InstructionTableEntry>,
    mt: &Vec<MemoryTableEntry>,
    jt: &Vec<JumpTableEntry>,
) -> (r: Result<(), Rule>)
    requires
        prev matches Some(p) ==> p.wf(),
    ensures
        r is Ok <==> erow_ok(match prev {
            Some(p) => Some(*p),
            None => None,
        }, *e, row as int, it@, mt@, jt@),
        r matches Err(rule) ==> match rule {
            Rule::EventStepMatch => !e.spec_step_matches(),
            Rule::EventRange => !e.wf(),
            Rule::EventEidContinuity => e.eid != row + 1,
            Rule::EventSpContinuity => prev matches Some(p) && e.sp != p.sp + spec_sp_delta(
                p.inst.opcode,
            ),
            Rule::EventInstructionLookup => !inst_contains(it@, e.inst),
            Rule::EventMemoryLookup => !step_ops_in_mtable(*e, mt@),
            Rule::EventJumpLookup => e.inst.opcode matches Opcode::Call { .. } && !jt_contains(
                jt@,
                *e,
            ),
            _ => false,
        },
{
    proof {
        reveal(EventTableEntry::wf);
    }
    if !e.step_matches() {
        return Err(Rule::EventStepMatch);
    }
    if !e.is_wf() {
        return Err(Rule::EventRange);
    }
    if !(e.eid >= 1 && e.eid - 1 == row as u64) {
        return Err(Rule::EventEidContinuity);
    }
    match prev {
        Some(p) => {
            if e.sp != sp_after(p) {
                return Err(Rule::EventSpContinuity);
            }
        },
        None => {},
    }
    if !inst_lookup(it, &e.inst) {
        return Err(Rule::EventInstructionLookup);
    }
    proof {
        reveal(step_ops_in_mtable);
    }
    let ops = memory_event_of_step(e);
    let nops = ops.len();
    for j in 0..nops
        invariant
            nops == ops@.len(),
            ops@ == spec_assign_emids(spec_step_ops(*e)),
            forall|q: int| 0 <= q < j ==> mt_contains(mt@, #[trigger] ops@[q]),
    {
        if !mt_lookup(mt, &ops[j]) {
            proof {
                reveal(step_ops_in_mtable);
            }
            return Err(Rule::EventMemoryLookup);
        }
    }
    proof {
        reveal(step_ops_in_mtable);
    }
    match &e.inst.opcode {
        Opcode::Call { .. } => {
            if !jt_lookup(jt, e) {
                return Err(Rule::EventJumpLookup);
            }
        },
        _ => {},
    }
    Ok(())
}

/// Sums the memory-operation counts the events declare.
pub fn total_mops(es: &Vec<EventTableEntry>) -> (r: u128)
    requires
        forall|i: int| 0 <= i < es@.len() ==> (#[trigger] es@[i]).wf(),
    ensures
        r == spec_total_mops(es@),
{
    let n = es.len();
    let mut acc: u128 = 0;
    for i in 0..n
        invariant
            n == es@.len(),
            forall|q: int| 0 <= q < n ==> (#[trigger] es@[q]).wf(),
            acc == spec_total_mops(es@.subrange(0, i as int)),
            acc <= i * 0x10000,
    {
        proof {
            reveal(EventTableEntry::wf);
        }
        let m = crate::etable::mops_of_opcode(&es[i].inst.opcode);
        proof {
            assert(es@.subrange(0, i + 1).drop_last() =~= es@.subrange(0, i as int));
            assert(es@.subrange(0, i + 1).last() == es@[i as int]);
            assert(spec_mops(es@[i as int].inst.opcode) <= 0x10000);
        }
        acc = acc + (m as u128);
    }
    proof {
        assert(es@.subrange(0, n as int) =~= es@);
    }
    acc
}

/// Counts the memory rows that perform a real (non-init) operation.
pub fn count_non_init(mt: &Vec<MemoryTableEntry>) -> (r: usize)
    ensures
        r == spec_count_non_init(mt@),
{
    let n = mt.len();
    let mut acc: usize = 0;
    for i in 0..n
        invariant
            n == mt@.len(),
            acc == spec_count_non_init(mt@.subrange(0, i as int)),
            acc <= i,
    {
        proof {
            assert(mt@.subrange(0, i + 1).drop_last() =~= mt@.subrange(0, i as int));
            assert(mt@.subrange(0, i + 1).last() == mt@[i as int]);
        }
        if !(mt[i].atype == AccessType::Init) {
            acc = acc + 1;
        }
    }
    proof {
        assert(mt@.subrange(0, n as int) =~= mt@);
    }
    acc
}

/// Checks every event table invariant and the shared operation accounting,
/// reporting the first broken rule and its row.
pub fn check_etable(
    events: &Vec<EventTableEntry>,
    instructions: &Vec<InstructionTableEntry>,
    m: &MTable,
    jumps: &Vec<JumpTableEntry>,
) -> (r: Result<(), Violation>)
    ensures
        r is Ok <==> etable_valid(events@, instructions@, m@, jumps@) && mops_accounted(
            events@,
            m@,
        ),
        r matches Err(v) ==> etable_violation(events@, instructions@, m@, jumps@, v),
{
    let entries = m.entries();
    match check_etable_rows(events, instructions, entries, jumps) {
        Ok(()) => {},
        Err(v) => {
            return Err(v);
        },
    }
    let total = total_mops(events);
    let count = count_non_init(entries);
    if total != (count as u128) {
        return Err(Violation { rule: Rule::MopsAccounting, row: 0 });
    }
    Ok(())
}

/// Row-by-row pass behind [`check_etable`], stated over the per-row rules.
#[verifier::rlimit(100)]
#[verifier::spinoff_prover]
fn check_etable_rows(
    events: &Vec<EventTableEntry>,
    instructions: &Vec<InstructionTableEntry>,
    entries: &Vec<MemoryTableEntry>,
    jumps: &Vec<JumpTableEntry>,
) -> (r: Result<(), Violation>)
    ensures
        r is Ok <==> etable_valid(events@, instructions@, entries@, jumps@),
        r is Ok ==> forall|q: int| 0 <= q < events@.len() ==> (#[trigger] events@[q]).wf(),
        r matches Err(v) ==> etable_violation(events@, instructions@, entries@, jumps@, v),
{
    let n = events.len();
    for i in 0..n
        invariant
            n == events@.len(),
            forall|q: int|
                0 <= q < i ==> erow_ok(
                    if q == 0 {
                        None
                    } else {
                        Some(events@[q - 1])
                    },
                    #[trigger] events@[q],
                    q,
                    instructions@,
                    entries@,
                    jumps@,
                ),
    {
        let e = &events[i];
        let prev: Option<&EventTableEntry> = if i == 0 {
            None
        } else {
            Some(&events[i - 1])
        };
        match check_erow(prev, e, i, instructions, entries, jumps) {
            Ok(()) => {},
            Err(rule) => {
                return Err(Violation { rule, row: i });
            },
        }
    }
    proof {
        assert forall|q: int| 0 <= q < events@.len() implies (#[trigger] events@[q]).wf() by {
            assert(erow_ok(
                if q == 0 {
                    None
                } else {
                    Some(events@[q - 1])
                },
                events@[q],
                q,
                instructions@,
                entries@,
                jumps@,
            ));
        }
    }
    Ok(())
}

/// Removing one real memory operation from an accounted pair of tables
/// breaks the accounting: the counter can no longer reach zero.
pub proof fn lemma_missing_mop_rejected(
    es: Seq<EventTableEntry>,
    mt: Seq<MemoryTableEntry>,
    k: int,
)
    requires
        mops_accounted(es, mt),
        0 <= k < mt.len(),
        mt[k].atype != AccessType::Init,
    ensures
        !mops_accounted(es, mt.remove(k)),
{
    lemma_count_non_init_remove(mt, k);
}

/// Removing a non-init row lowers the non-init count by one; removing an
/// init row keeps it.
pub proof fn lemma_count_non_init_remove(mt: Seq<MemoryTableEntry>, k: int)
    requires
        0 <= k < mt.len(),
    ensures
        spec_count_non_init(mt.remove(k)) == spec_count_non_init(mt) - (
        if mt[k].atype != AccessType::Init {
            1int
        } else {
            0int
        }),
    decreases mt.len(),
{
    if k == mt.len() - 1 {
        assert(mt.remove(k) =~= mt.drop_last());
    } else {
        lemma_count_non_init_remove(mt.drop_last(), k);
        assert(mt.remove(k).drop_last() =~= mt.drop_last().remove(k));
        assert(mt.remove(k).last() == mt.last());
    }
}

/// Replacing the value read by a non-first-touch read row with any other
/// value breaks read continuity: the checker rejects the mutated table.
pub proof fn lemma_read_mutation_rejected(
    s: Seq<MemoryTableEntry>,
    im: Seq<InitMemoryTableEntry>,
    i: int,
    w: u64,
)
    requires
        mtable_valid(s, im),
        0 < i < s.len(),
        s[i].atype == AccessType::Read,
        !is_first_touch(s, i),
        w != s[i].value,
    ensures
        !mtable_valid(s.update(i, MemoryTableEntry { value: w, ..s[i] }), im),
{
    let t = s.update(i, MemoryTableEntry { value: w, ..s[i] });
    assert(t[i - 1] == s[i - 1]);
    assert(t[i].atype == AccessType::Read && t[i - 1].spec_same_location(t[i]));
    assert(s[i].value == s[i - 1].value);
    assert(t[i].value != t[i - 1].value);
    assert(!mtable_read_continuity(t));
}

/// In a strictly ordered table, any earlier row is strictly below any later
/// one.
pub proof fn lemma_sorted_strict_pairwise(s: Seq<MemoryTableEntry>, i: int, j: int)
    requires
        mtable_sorted_strict(s),
        0 <= i < j < s.len(),
    ensures
        key_lt(s[i], s[j]),
    decreases j - i,
{
    if i + 1 == j {
    } else {
        lemma_sorted_strict_pairwise(s, i, j - 1);
        lemma_key_lt_trans(s[i], s[j - 1], s[j]);
    }
}

/// The strict canonical order is transitive.
pub proof fn lemma_key_lt_trans(a: MemoryTableEntry, b: MemoryTableEntry, c: MemoryTableEntry)
    requires
        key_lt(a, b),
        key_lt(b, c),
    ensures
        key_lt(a, c),
{
}

/// The strict canonical order is asymmetric.
pub proof fn lemma_key_lt_asym(a: MemoryTableEntry, b: MemoryTableEntry)
    requires
        key_lt(a, b),
    ensures
        !key_lt(b, a),
{
}

/// Swapping two out-of-order rows of a valid table breaks the order rule,
/// whatever else stays the same: the checker rejects any such permutation.
#[verifier::rlimit(100)]
pub proof fn lemma_swap_rejected(
    s: Seq<MemoryTableEntry>,
    im: Seq<InitMemoryTableEntry>,
    i: int,
    j: int,
)
    requires
        mtable_valid(s, im),
        0 <= i < j < s.len(),
    ensures
        !mtable_sorted_strict(s.update(i, s[j]).update(j, s[i])),
        !mtable_valid(s.update(i, s[j]).update(j, s[i]), im),
{
    let t = s.update(i, s[j]).update(j, s[i]);
    lemma_sorted_strict_pairwise(s, i, j);
    assert(t[i] == s[j]);
    assert(t[j] == s[i]);
    if i + 1 == j {
        lemma_key_lt_asym(s[i], s[j]);
        assert(!key_lt(t[i], t[i + 1]));
    } else {
        lemma_sorted_strict_pairwise(s, i + 1, j);
        lemma_key_lt_asym(s[i + 1], s[j]);
        assert(t[i + 1] == s[i + 1]);
        assert(!key_lt(t[i], t[i + 1]));
    }
    assert(0 < i + 1 < t.len() && !key_lt(t[i + 1 - 1], t[i + 1]));
}

} // verus!
