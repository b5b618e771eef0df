//! Per-opcode expansion of an executed step into its memory operations.
//!
//! Each event expands deterministically into zero or more memory rows: the
//! slots it pops are stack reads below the stack pointer, the slots it
//! pushes are stack writes above the popped region.  Sub-operation ids
//! (`emid`) are then assigned per cell: the n-th operation a step performs
//! on one cell gets `emid` n, counted from 1, which keeps the canonical key
//! `(ltype, mmid, offset, eid, emid)` free of duplicates.

use vstd::prelude::*;
use crate::etable::{EventTableEntry, StepInfo, spec_mops};
use crate::mtable::{AccessType, LocationType, MemoryTableEntry, VarType};

verus! {

/// One raw memory operation of a step, before its `emid` is assigned.
#[derive(Clone, Copy, Debug, PartialEq, Eq, Structural)]
pub struct MemoryEvent {
    pub eid: u64,
    pub mmid: u64,
    pub offset: u64,
    pub ltype: LocationType,
    pub atype: AccessType,
    pub vtype: VarType,
    pub value: u64,
}

impl MemoryEvent {
    /// Bundles the fields of one raw memory operation.
    pub fn new(
        eid: u64,
        mmid: u64,
        offset: u64,
        ltype: LocationType,
        atype: AccessType,
        vtype: VarType,
        value: u64,
    ) -> (r: MemoryEvent)
        ensures
            r == (MemoryEvent { eid, mmid, offset, ltype, atype, vtype, value }),
    {
        MemoryEvent { eid, mmid, offset, ltype, atype, vtype, value }
    }
}

/// Two raw operations touch the same cell.
pub open spec fn same_loc(a: MemoryEvent, b: MemoryEvent) -> bool {
    a.ltype == b.ltype && a.mmid == b.mmid && a.offset == b.offset
}

/// The stack reads of a step that pops `vals`: the i-th pop reads the slot
/// `sp - 1 - i`.
pub open spec fn spec_pop_ops(eid: u64, mmid: u64, sp: u64, t: VarType, vals: Seq<u64>)
    -> Seq<MemoryEvent> {
    Seq::new(vals.len(), |i: int| MemoryEvent {
        eid,
        mmid,
        offset: (sp - 1 - i) as u64,
        ltype: LocationType::Stack,
        atype: AccessType::Read,
        vtype: t,
        value: vals[i],
    })
}

/// The stack writes of a step that pushes `vals` on top of a stack of height
/// `base`: the j-th push writes the slot `base + j`.
pub open spec fn spec_push_ops(eid: u64, mmid: u64, base: u64, t: VarType, vals: Seq<u64>)
    -> Seq<MemoryEvent> {
    Seq::new(vals.len(), |j: int| MemoryEvent {
        eid,
        mmid,
        offset: (base + j) as u64,
        ltype: LocationType::Stack,
        atype: AccessType::Write,
        vtype: t,
        value: vals[j],
    })
}

/// All memory operations of a stack-only step: the pops, then the pushes.
pub open spec fn spec_stack_only_ops(
    eid: u64,
    mmid: u64,
    sp: u64,
    inputs_type: VarType,
    outputs_type: VarType,
    pop_vals: Seq<u64>,
    push_vals: Seq<u64>,
) -> Seq<MemoryEvent> {
    spec_pop_ops(eid, mmid, sp, inputs_type, pop_vals) + spec_push_ops(
        eid,
        mmid,
        (sp - pop_vals.len()) as u64,
        outputs_type,
        push_vals,
    )
}

/// The raw memory operations of one executed step, in the order the machine
/// performs them.
pub open spec fn spec_step_ops(e: EventTableEntry) -> Seq<MemoryEvent> {
    let eid = e.eid;
    let mmid = e.inst.mmid;
    match e.step_info {
        StepInfo::GetLocal { depth, vtype, value } => seq![
            MemoryEvent {
                eid,
                mmid,
                offset: depth,
                ltype: LocationType::Stack,
                atype: AccessType::Read,
                vtype,
                value,
            },
            MemoryEvent {
                eid,
                mmid,
                offset: e.sp,
                ltype: LocationType::Stack,
                atype: AccessType::Write,
                vtype,
                value,
            },
        ],
        StepInfo::I32Const { value } => spec_stack_only_ops(
            eid, mmid, e.sp, VarType::I32, VarType::I32, Seq::empty(), seq![value],
        ),
        StepInfo::Drop => Seq::empty(),
        StepInfo::Return { drop: _, keep: _, drop_values, keep_values } => spec_stack_only_ops(
            eid, mmid, e.sp, VarType::I32, VarType::I32, drop_values@, keep_values@,
        ),
        StepInfo::BrIfNez { condition, dst_pc: _ } => spec_stack_only_ops(
            eid, mmid, e.sp, VarType::I32, VarType::I32, seq![condition], Seq::empty(),
        ),
        StepInfo::Call { index: _ } => Seq::empty(),
        StepInfo::I32BinOp { left, right, value } => spec_stack_only_ops(
            eid, mmid, e.sp, VarType::I32, VarType::I32, seq![right, left], seq![value],
        ),
        StepInfo::I32Comp { left, right, value } => spec_stack_only_ops(
            eid, mmid, e.sp, VarType::I32, VarType::I32, seq![right, left], seq![value],
        ),
    }
}

/// How many of the first `end` raw operations touch the same cell as `ev`.
pub open spec fn spec_count_loc(s: Seq<MemoryEvent>, ev: MemoryEvent, end: int) -> int
    decreases end,
{
    if end <= 0 {
        0
    } else {
        spec_count_loc(s, ev, end - 1) + if same_loc(s[end - 1], ev) {
            1int
        } else {
            0int
        }
    }
}

/// A raw operation completed with its sub-operation id.
pub open spec fn spec_with_emid(ev: MemoryEvent, emid: u64) -> MemoryTableEntry {
    MemoryTableEntry {
        eid: ev.eid,
        emid,
        mmid: ev.mmid,
        offset: ev.offset,
        ltype: ev.ltype,
        atype: ev.atype,
        vtype: ev.vtype,
        value: ev.value,
    }
}

/// The step's memory rows: each raw operation gets as `emid` one more than
/// the number of earlier operations of the step on the same cell.
pub open spec fn spec_assign_emids(s: Seq<MemoryEvent>) -> Seq<MemoryTableEntry> {
    Seq::new(s.len(), |i: int| spec_with_emid(s[i], (1 + spec_count_loc(s, s[i], i)) as u64))
}

/// The location count never exceeds the prefix length and never decreases as
/// the prefix grows.
pub proof fn lemma_count_loc_bounds(s: Seq<MemoryEvent>, ev: MemoryEvent, end: int)
    requires
        0 <= end,
    ensures
        0 <= spec_count_loc(s, ev, end) <= end,
    decreases end,
{
    if end > 0 {
        lemma_count_loc_bounds(s, ev, end - 1);
    }
}

/// Counting against two operations on the same cell gives the same count.
pub proof fn lemma_count_loc_congruent(
    s: Seq<MemoryEvent>,
    a: MemoryEvent,
    b: MemoryEvent,
    end: int,
)
    requires
        same_loc(a, b),
    ensures
        spec_count_loc(s, a, end) == spec_count_loc(s, b, end),
    decreases end,
{
    if end > 0 {
        lemma_count_loc_congruent(s, a, b, end - 1);
    }
}

/// The count grows weakly with the prefix.
pub proof fn lemma_count_loc_monotone(s: Seq<MemoryEvent>, ev: MemoryEvent, i: int, j: int)
    requires
        0 <= i <= j,
    ensures
        spec_count_loc(s, ev, i) <= spec_count_loc(s, ev, j),
    decreases j,
{
    if i < j {
        lemma_count_loc_monotone(s, ev, i, j - 1);
    }
}

/// Two operations of one step on the same cell get distinct, increasing
/// sub-operation ids: the canonical key never repeats inside a step.
pub proof fn lemma_step_emids_increase(s: Seq<MemoryEvent>, i: int, j: int)
    requires
        0 <= i < j < s.len(),
        same_loc(s[i], s[j]),
    ensures
        spec_count_loc(s, s[i], i) < spec_count_loc(s, s[j], j),
{
    lemma_count_loc_congruent(s, s[j], s[i], j);
    lemma_count_loc_monotone(s, s[i], i + 1, j);
}

/// Executable expansion of a stack-only step: reads for the popped values,
/// then writes for the pushed ones.
pub fn mem_op_from_stack_only_step(
    eid: u64,
    mmid: u64,
    sp: u64,
    inputs_type: VarType,
    outputs_type: VarType,
    pop_values: &[u64],
    push_values: &[u64],
) -> (r: Vec<MemoryEvent>)
    requires
        pop_values@.len() <= sp,
        sp <= 0x10000,
        sp - pop_values@.len() + push_values@.len() <= 0x10000,
    ensures
        r@ == spec_stack_only_ops(
            eid, mmid, sp, inputs_type, outputs_type, pop_values@, push_values@,
        ),
{
    let ghost target = spec_stack_only_ops(
        eid, mmid, sp, inputs_type, outputs_type, pop_values@, push_values@,
    );
    let mut mem_ops: Vec<MemoryEvent> = Vec::new();
    let n = pop_values.len();
    for i in 0..n
        invariant
            target == spec_stack_only_ops(
                eid, mmid, sp, inputs_type, outputs_type, pop_values@, push_values@,
            ),
            n == pop_values@.len() <= sp,
            sp <= 0x10000,
            mem_ops@.len() == i,
            forall|k: int| 0 <= k < i ==> mem_ops@[k] == target[k],
    {
        mem_ops.push(MemoryEvent::new(
            eid,
            mmid,
            sp - 1 - (i as u64),
            LocationType::Stack,
            AccessType::Read,
            inputs_type,
            pop_values[i],
        ));
    }
    let m = push_values.len();
    for j in 0..m
        invariant
            target == spec_stack_only_ops(
                eid, mmid, sp, inputs_type, outputs_type, pop_values@, push_values@,
            ),
            n == pop_values@.len() <= sp,
            sp <= 0x10000,
            m == push_values@.len(),
            sp - n + m <= 0x10000,
            mem_ops@.len() == n + j,
            forall|k: int| 0 <= k < n + j ==> mem_ops@[k] == target[k],
    {
        mem_ops.push(MemoryEvent::new(
            eid,
            mmid,
            sp - (n as u64) + (j as u64),
            LocationType::Stack,
            AccessType::Write,
            outputs_type,
            push_values[j],
        ));
    }
    proof {
        assert(mem_ops@ =~= target);
    }
    mem_ops
}

/// Expands one executed step into its memory table rows, sub-operation ids
/// assigned.
pub fn memory_event_of_step(event: &EventTableEntry) -> (r: Vec<MemoryTableEntry>)
    requires
        event.wf(),
    ensures
        r@ == spec_assign_emids(spec_step_ops(*event)),
{
    proof {
        reveal(EventTableEntry::wf);
        reveal(EventTableEntry::spec_step_matches);
    }
    let eid = event.eid;
    let mmid = event.inst.mmid;
    let sp = event.sp;
    let raw: Vec<MemoryEvent> = match &event.step_info {
        StepInfo::GetLocal { depth, vtype, value } => {
            let mut v: Vec<MemoryEvent> = Vec::new();
            v.push(MemoryEvent::new(
                eid, mmid, *depth, LocationType::Stack, AccessType::Read, *vtype, *value,
            ));
            v.push(MemoryEvent::new(
                eid, mmid, sp, LocationType::Stack, AccessType::Write, *vtype, *value,
            ));
            proof {
                assert(v@ =~= spec_step_ops(*event));
            }
            v
        },
        StepInfo::I32Const { value } => {
            let pops: Vec<u64> = Vec::new();
            let pushes: Vec<u64> = vec![*value];
            let v = mem_op_from_stack_only_step(
                eid, mmid, sp, VarType::I32, VarType::I32, pops.as_slice(), pushes.as_slice(),
            );
            proof {
                assert(v@ =~= spec_step_ops(*event));
            }
            v
        },
        StepInfo::Drop => {
            let v: Vec<MemoryEvent> = Vec::new();
            proof {
                assert(v@ =~= spec_step_ops(*event));
            }
            v
        },
        StepInfo::Return { drop: _, keep: _, drop_values, keep_values } => {
            let v = mem_op_from_stack_only_step(
                eid,
                mmid,
                sp,
                VarType::I32,
                VarType::I32,
                drop_values.as_slice(),
                keep_values.as_slice(),
            );
            proof {
                assert(v@ =~= spec_step_ops(*event));
            }
            v
        },
        StepInfo::BrIfNez { condition, dst_pc: _ } => {
            let pops: Vec<u64> = vec![*condition];
            let pushes: Vec<u64> = Vec::new();
            let v = mem_op_from_stack_only_step(
                eid, mmid, sp, VarType::I32, VarType::I32, pops.as_slice(), pushes.as_slice(),
            );
            proof {
                assert(v@ =~= spec_step_ops(*event));
            }
            v
        },
        StepInfo::Call { index: _ } => {
            let v: Vec<MemoryEvent> = Vec::new();
            proof {
                assert(v@ =~= spec_step_ops(*event));
            }
            v
        },
        StepInfo::I32BinOp { left, right, value } => {
            let pops: Vec<u64> = vec![*right, *left];
            let pushes: Vec<u64> = vec![*value];
            let v = mem_op_from_stack_only_step(
                eid, mmid, sp, VarType::I32, VarType::I32, pops.as_slice(), pushes.as_slice(),
            );
            proof {
                assert(v@ =~= spec_step_ops(*event));
            }
            v
        },
        StepInfo::I32Comp { left, right, value } => {
            let pops: Vec<u64> = vec![*right, *left];
            let pushes: Vec<u64> = vec![*value];
            let v = mem_op_from_stack_only_step(
                eid, mmid, sp, VarType::I32, VarType::I32, pops.as_slice(), pushes.as_slice(),
            );
            proof {
                assert(v@ =~= spec_step_ops(*event));
            }
            v
        },
    };
    assign_emids(&raw)
}

/// Completes raw operations with their per-cell sub-operation ids.
fn assign_emids(raw: &Vec<MemoryEvent>) -> (r: Vec<MemoryTableEntry>)
    requires
        raw@.len() < 0x10000,
    ensures
        r@ == spec_assign_emids(raw@),
{
    let mut out: Vec<MemoryTableEntry> = Vec::new();
    let n = raw.len();
    for i in 0..n
        invariant
            n == raw@.len() < 0x10000,
            out@.len() == i,
            forall|k: int| 0 <= k < i ==> out@[k] == spec_assign_emids(raw@)[k],
    {
        let mut count: u64 = 0;
        for j in 0..i
            invariant
                i < n == raw@.len() < 0x10000,
                count == spec_count_loc(raw@, raw@[i as int], j as int),
                count <= j,
        {
            let a = raw[j];
            let b = raw[i];
            if a.ltype == b.ltype && a.mmid == b.mmid && a.offset == b.offset {
                count = count + 1;
            }
        }
        let ev = raw[i];
        out.push(MemoryTableEntry {
            eid: ev.eid,
            emid: count + 1,
            mmid: ev.mmid,
            offset: ev.offset,
            ltype: ev.ltype,
            atype: ev.atype,
            vtype: ev.vtype,
            value: ev.value,
        });
    }
    proof {
        assert(out@ =~= spec_assign_emids(raw@));
    }
    out
}

} // verus!
