//! The event table: one row per executed step.
//!
//! A row carries the step counter `eid`, the stack pointer before the step,
//! the last control-transfer step, the instruction claimed to execute, and
//! the operand values observed at trace time (the step detail).  The step
//! detail is a closed tagged variant: one tag per opcode class.

use vstd::prelude::*;
use crate::itable::{InstructionTableEntry, Opcode, OpcodeClass};
use crate::mtable::VarType;
use crate::range::{value_fits, value_fits_exec};

verus! {

/// Operand values observed while executing one step, tagged by opcode class.
#[derive(Clone, Debug)]
pub enum StepInfo {
    /// Read the stack slot `depth`, push a copy on top.
    GetLocal { depth: u64, vtype: VarType, value: u64 },
    /// Push the 32-bit immediate.
    I32Const { value: u64 },
    /// Abandon the top of the stack.
    Drop,
    /// Leave the function: the dropped slot values and the kept results.
    Return { drop: u64, keep: u64, drop_values: Vec<u64>, keep_values: Vec<u64> },
    /// Pop the condition; branch when it is nonzero.
    BrIfNez { condition: u64, dst_pc: u64 },
    /// Transfer control to the function `index`.
    Call { index: u64 },
    /// Pop `right` then `left`, push the combined `value`.
    I32BinOp { left: u64, right: u64, value: u64 },
    /// Pop `right` then `left`, push the comparison bit `value`.
    I32Comp { left: u64, right: u64, value: u64 },
}

impl StepInfo {
    /// The opcode class this step detail belongs to.
    pub open spec fn spec_class(self) -> OpcodeClass {
        match self {
            StepInfo::GetLocal { .. } => OpcodeClass::LocalGet,
            StepInfo::I32Const { .. } => OpcodeClass::Const,
            StepInfo::Drop => OpcodeClass::Drop,
            StepInfo::Return { .. } => OpcodeClass::Return,
            StepInfo::BrIfNez { .. } => OpcodeClass::BrIfNez,
            StepInfo::Call { .. } => OpcodeClass::Call,
            StepInfo::I32BinOp { .. } => OpcodeClass::BinOp,
            StepInfo::I32Comp { .. } => OpcodeClass::Comparison,
        }
    }

    /// Executable twin of [`Self::spec_class`].
    pub fn class(&self) -> (r: OpcodeClass)
        ensures
            r == self.spec_class(),
    {
        match self {
            StepInfo::GetLocal { .. } => OpcodeClass::LocalGet,
            StepInfo::I32Const { .. } => OpcodeClass::Const,
            StepInfo::Drop => OpcodeClass::Drop,
            StepInfo::Return { .. } => OpcodeClass::Return,
            StepInfo::BrIfNez { .. } => OpcodeClass::BrIfNez,
            StepInfo::Call { .. } => OpcodeClass::Call,
            StepInfo::I32BinOp { .. } => OpcodeClass::BinOp,
            StepInfo::I32Comp { .. } => OpcodeClass::Comparison,
        }
    }
}

/// How many stack slots below the stack pointer the step reads (pops).
pub open spec fn spec_pops(op: Opcode) -> int {
    match op {
        Opcode::LocalGet { .. } => 0,
        Opcode::Const { .. } => 0,
        Opcode::Drop => 1,
        Opcode::Return { drop, .. } => drop as int,
        Opcode::BrIfNez { .. } => 1,
        Opcode::Call { .. } => 0,
        Opcode::BinOp => 2,
        Opcode::Comparison => 2,
    }
}

/// How many stack slots the step writes (pushes) above the popped region.
pub open spec fn spec_pushes(op: Opcode) -> int {
    match op {
        Opcode::LocalGet { .. } => 1,
        Opcode::Const { .. } => 1,
        Opcode::Drop => 0,
        Opcode::Return { keep, .. } => keep as int,
        Opcode::BrIfNez { .. } => 0,
        Opcode::Call { .. } => 0,
        Opcode::BinOp => 1,
        Opcode::Comparison => 1,
    }
}

/// The step's effect on the stack pointer: `sp` after minus `sp` before.
pub open spec fn spec_sp_delta(op: Opcode) -> int {
    spec_pushes(op) - spec_pops(op)
}

/// How many memory table rows the opcode class declares for one step.
pub open spec fn spec_mops(op: Opcode) -> int {
    match op {
        Opcode::LocalGet { .. } => 2,
        Opcode::Const { .. } => 1,
        Opcode::Drop => 0,
        Opcode::Return { drop, keep } => drop + keep,
        Opcode::BrIfNez { .. } => 1,
        Opcode::Call { .. } => 0,
        Opcode::BinOp => 3,
        Opcode::Comparison => 3,
    }
}

/// Executable twin of [`spec_mops`].
pub fn mops_of_opcode(op: &Opcode) -> (r: u64)
    requires
        op.wf(),
    ensures
        r == spec_mops(*op),
{
    match op {
        Opcode::LocalGet { .. } => 2,
        Opcode::Const { .. } => 1,
        Opcode::Drop => 0,
        Opcode::Return { drop, keep } => *drop + *keep,
        Opcode::BrIfNez { .. } => 1,
        Opcode::Call { .. } => 0,
        Opcode::BinOp => 3,
        Opcode::Comparison => 3,
    }
}

/// Every value of the list is a canonical 32-bit value.
fn all_values_i32(values: &Vec<u64>) -> (r: bool)
    ensures
        r == (forall|j: int| 0 <= j < values@.len() ==> value_fits(#[trigger] values@[j],
            VarType::I32)),
{
    let n = values.len();
    for j in 0..n
        invariant
            n == values@.len(),
            forall|q: int| 0 <= q < j ==> value_fits(#[trigger] values@[q], VarType::I32),
    {
        if !value_fits_exec(values[j], VarType::I32) {
            return false;
        }
    }
    true
}

/// One executed step.
#[derive(Clone, Debug)]
pub struct EventTableEntry {
    pub eid: u64,
    pub sp: u64,
    pub last_jump_eid: u64,
    pub inst: InstructionTableEntry,
    pub step_info: StepInfo,
}

impl EventTableEntry {
    /// The step detail agrees with the instruction's opcode: same class, and
    /// the trace-time operands repeat the compile-time immediates.
    #[verifier::opaque]
    pub open spec fn spec_step_matches(self) -> bool {
        match (self.step_info, self.inst.opcode) {
            (StepInfo::GetLocal { depth, vtype, value: _ }, Opcode::LocalGet { offset }) => {
                depth == offset && vtype == VarType::I32
            },
            (StepInfo::I32Const { value: v }, Opcode::Const { vtype, value }) => {
                vtype == VarType::I32 && v == value
            },
            (StepInfo::Drop, Opcode::Drop) => true,
            (
                StepInfo::Return { drop, keep, drop_values, keep_values },
                Opcode::Return { drop: d, keep: k },
            ) => {
                drop == d && keep == k && drop_values@.len() == d && keep_values@.len() == k
            },
            (StepInfo::BrIfNez { condition: _, dst_pc }, Opcode::BrIfNez { dst_pc: d }) => {
                dst_pc == d
            },
            (StepInfo::Call { index }, Opcode::Call { index: i }) => index == i,
            (StepInfo::I32BinOp { .. }, Opcode::BinOp) => true,
            (StepInfo::I32Comp { .. }, Opcode::Comparison) => true,
            _ => false,
        }
    }

    /// Executable twin of [`Self::spec_step_matches`].
    pub fn step_matches(&self) -> (r: bool)
        ensures
            r == self.spec_step_matches(),
    {
        proof {
            reveal(EventTableEntry::spec_step_matches);
        }
        match (&self.step_info, &self.inst.opcode) {
            (StepInfo::GetLocal { depth, vtype, value: _ }, Opcode::LocalGet { offset }) => {
                *depth == *offset && *vtype == VarType::I32
            },
            (StepInfo::I32Const { value: v }, Opcode::Const { vtype, value }) => {
                *vtype == VarType::I32 && *v == *value
            },
            (StepInfo::Drop, Opcode::Drop) => true,
            (
                StepInfo::Return { drop, keep, drop_values, keep_values },
                Opcode::Return { drop: d, keep: k },
            ) => {
                *drop == *d && *keep == *k && drop_values.len() as u64 == *d
                    && keep_values.len() as u64 == *k
            },
            (StepInfo::BrIfNez { condition: _, dst_pc }, Opcode::BrIfNez { dst_pc: d }) => {
                *dst_pc == *d
            },
            (StepInfo::Call { index }, Opcode::Call { index: i }) => *index == *i,
            (StepInfo::I32BinOp { .. }, Opcode::BinOp) => true,
            (StepInfo::I32Comp { .. }, Opcode::Comparison) => true,
            _ => false,
        }
    }

    /// The operand values observed at trace time are canonical for their
    /// declared types: no nonzero byte above the type's width.
    #[verifier::opaque]
    pub open spec fn spec_values_canonical(self) -> bool {
        match self.step_info {
            StepInfo::GetLocal { depth: _, vtype, value } => value_fits(value, vtype),
            StepInfo::I32Const { value } => value_fits(value, VarType::I32),
            StepInfo::Drop => true,
            StepInfo::Return { drop: _, keep: _, drop_values, keep_values } => {
                &&& forall|j: int|
                    0 <= j < drop_values@.len() ==> value_fits(#[trigger] drop_values@[j],
                        VarType::I32)
                &&& forall|j: int|
                    0 <= j < keep_values@.len() ==> value_fits(#[trigger] keep_values@[j],
                        VarType::I32)
            },
            StepInfo::BrIfNez { condition, dst_pc: _ } => value_fits(condition, VarType::I32),
            StepInfo::Call { index: _ } => true,
            StepInfo::I32BinOp { left, right, value } => value_fits(left, VarType::I32)
                && value_fits(right, VarType::I32) && value_fits(value, VarType::I32),
            StepInfo::I32Comp { left, right, value } => value_fits(left, VarType::I32)
                && value_fits(right, VarType::I32) && value_fits(value, VarType::I32),
        }
    }

    /// Executable twin of [`Self::spec_values_canonical`].
    pub fn values_canonical(&self) -> (r: bool)
        ensures
            r == self.spec_values_canonical(),
    {
        proof {
            reveal(EventTableEntry::spec_values_canonical);
        }
        match &self.step_info {
            StepInfo::GetLocal { depth: _, vtype, value } => value_fits_exec(*value, *vtype),
            StepInfo::I32Const { value } => value_fits_exec(*value, VarType::I32),
            StepInfo::Drop => true,
            StepInfo::Return { drop: _, keep: _, drop_values, keep_values } => {
                all_values_i32(drop_values) && all_values_i32(keep_values)
            },
            StepInfo::BrIfNez { condition, dst_pc: _ } => value_fits_exec(
                *condition,
                VarType::I32,
            ),
            StepInfo::Call { index: _ } => true,
            StepInfo::I32BinOp { left, right, value } => value_fits_exec(*left, VarType::I32)
                && value_fits_exec(*right, VarType::I32) && value_fits_exec(*value, VarType::I32),
            StepInfo::I32Comp { left, right, value } => value_fits_exec(*left, VarType::I32)
                && value_fits_exec(*right, VarType::I32) && value_fits_exec(*value, VarType::I32),
        }
    }

    /// Ranges under which the step's memory operations are expressible: the
    /// instruction is well formed, the stack pointer fits the offset window,
    /// the stack holds what the step pops, and the observed values are
    /// canonical.
    #[verifier::opaque]
    pub open spec fn wf(self) -> bool {
        &&& self.inst.wf()
        &&& self.spec_step_matches()
        &&& self.spec_values_canonical()
        &&& self.sp < 0x10000
        &&& spec_pops(self.inst.opcode) <= self.sp
        &&& self.sp - spec_pops(self.inst.opcode) + spec_pushes(self.inst.opcode) <= 0x10000
        &&& spec_pops(self.inst.opcode) + spec_pushes(self.inst.opcode) < 0x10000
        &&& (match self.step_info {
            StepInfo::GetLocal { depth, .. } => depth < self.sp,
            _ => true,
        })
        &&& self.eid >= 1
    }

    /// Executable twin of [`Self::wf`].
    pub fn is_wf(&self) -> (r: bool)
        ensures
            r == self.wf(),
    {
        proof {
            reveal(EventTableEntry::wf);
        }
        if !self.inst.is_wf() {
            return false;
        }
        if !self.step_matches() {
            return false;
        }
        if self.sp >= 0x10000 || self.eid < 1 {
            return false;
        }
        if !self.values_canonical() {
            return false;
        }
        let pops: u64 = match &self.inst.opcode {
            Opcode::LocalGet { .. } => 0,
            Opcode::Const { .. } => 0,
            Opcode::Drop => 1,
            Opcode::Return { drop, .. } => *drop,
            Opcode::BrIfNez { .. } => 1,
            Opcode::Call { .. } => 0,
            Opcode::BinOp => 2,
            Opcode::Comparison => 2,
        };
        let pushes: u64 = match &self.inst.opcode {
            Opcode::LocalGet { .. } => 1,
            Opcode::Const { .. } => 1,
            Opcode::Drop => 0,
            Opcode::Return { keep, .. } => *keep,
            Opcode::BrIfNez { .. } => 0,
            Opcode::Call { .. } => 0,
            Opcode::BinOp => 1,
            Opcode::Comparison => 1,
        };
        if pops > self.sp {
            return false;
        }
        if self.sp - pops + pushes > 0x10000 {
            return false;
        }
        if pops + pushes >= 0x10000 {
            return false;
        }
        match &self.step_info {
            StepInfo::GetLocal { depth, .. } => *depth < self.sp,
            _ => true,
        }
    }
}

} // verus!
