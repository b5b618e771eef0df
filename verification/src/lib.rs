//! Arithmetization core for execution traces of a WebAssembly-like machine.
//!
//! Given a compiled program (an instruction listing and declared initial
//! memory) and a recorded execution trace, this crate derives the witness
//! tables of the constraint system -- event, memory, jump -- and checks the
//! cross-table invariants that make the trace a valid run of the program:
//! canonical ordering of memory operations, read-after-write continuity,
//! first-touch discipline, and memory-operation accounting.  Tuple encodings
//! into wide field cells are fixed here as well, with round-trip and
//! injectivity proofs.

use vstd::prelude::*;

pub mod mtable;
pub mod pack;
pub mod itable;
pub mod imtable;
pub mod jtable;
pub mod etable;
pub mod opcode;
pub mod checker;
pub mod range;
pub mod rowdiff;
pub mod builder;
pub mod semantics;

use crate::builder::{build_jtable, build_mtable, spec_all_ops};
use crate::checker::{
    check_etable, check_mtable, etable_valid, etable_violation, mops_accounted, mtable_valid,
    mtable_violation, Violation,
};
use crate::etable::EventTableEntry;
use crate::imtable::InitMemoryTableEntry;
use crate::itable::InstructionTableEntry;
use crate::jtable::JumpTableEntry;
use crate::mtable::{sorted_by_key, MTable};

verus! {

/// What compilation produces: the static instruction listing and the
/// declared initial heap contents.
#[derive(Default)]
pub struct CompileTable {
    pub instructions: Vec<InstructionTableEntry>,
    pub init_memory: Vec<InitMemoryTableEntry>,
}

/// What one run produces: the executed steps, their memory operations in
/// canonical order, and the control transfers.
#[derive(Default)]
pub struct ExecutionTable {
    pub event: Vec<EventTableEntry>,
    pub memory: MTable,
    pub jump: Vec<JumpTableEntry>,
}

impl ExecutionTable {
    /// Derives the execution tables from the ordered event trace: the
    /// memory table as the sorted operation rows of every step, the jump
    /// table as one record per call step.
    pub fn from_events(event: Vec<EventTableEntry>) -> (r: ExecutionTable)
        requires
            forall|i: int| 0 <= i < event@.len() ==> (#[trigger] event@[i]).wf(),
        ensures
            r.event == event,
            sorted_by_key(r.memory@),
            r.memory@.to_multiset() == spec_all_ops(event@).to_multiset(),
            forall|i: int|
                0 <= i < event@.len() && ((#[trigger] event@[i]).inst.opcode
                    matches crate::itable::Opcode::Call { .. }) ==> crate::checker::jt_contains(
                    r.jump@,
                    event@[i],
                ),
    {
        let memory = build_mtable(&event);
        let jump = build_jtable(&event);
        ExecutionTable { event, memory, jump }
    }
}

/// What compilation hands back beside the tables: the source text and the
/// compiled module handle of the embedding interpreter.
pub struct CompileOutcome<M> {
    pub textual_repr: String,
    pub module: M,
    pub tables: CompileTable,
}

/// Checks a full witness: every memory table rule against the init table,
/// every event table rule against the instruction, memory and jump tables,
/// and the shared operation accounting.  Returns the first broken rule and
/// its row; accepts exactly the witnesses on which every rule holds.
pub fn run_table_checks(compile: &CompileTable, execution: &ExecutionTable) -> (r: Result<
    (),
    Violation,
>)
    ensures
        r is Ok <==> mtable_valid(execution.memory@, compile.init_memory@) && etable_valid(
            execution.event@,
            compile.instructions@,
            execution.memory@,
            execution.jump@,
        ) && mops_accounted(execution.event@, execution.memory@),
        r matches Err(v) ==> mtable_violation(execution.memory@, compile.init_memory@, v)
            || etable_violation(
            execution.event@,
            compile.instructions@,
            execution.memory@,
            execution.jump@,
            v,
        ),
{
    match check_mtable(&execution.memory, &compile.init_memory) {
        Ok(()) => {},
        Err(v) => {
            return Err(v);
        },
    }
    check_etable(&execution.event, &compile.instructions, &execution.memory, &execution.jump)
}

} // verus!
