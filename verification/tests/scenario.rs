use wasm_circuit::builder::{event_rest_mops, memory_rest_mops};
use wasm_circuit::checker::{total_mops, count_non_init, Rule};
use wasm_circuit::etable::{EventTableEntry, StepInfo};
use wasm_circuit::imtable::InitMemoryTableEntry;
use wasm_circuit::itable::{InstructionTableEntry, Opcode};
use wasm_circuit::mtable::{AccessType, LocationType, MTable, MemoryTableEntry, VarType};
use wasm_circuit::opcode::memory_event_of_step;
use wasm_circuit::{run_table_checks, CompileTable, ExecutionTable};

fn inst(iid: u64, opcode: Opcode) -> InstructionTableEntry {
    InstructionTableEntry {
        moid: 1,
        mmid: 1,
        fid: 0,
        bid: 0,
        iid,
        opcode,
    }
}

fn event(eid: u64, sp: u64, i: InstructionTableEntry, step: StepInfo) -> EventTableEntry {
    EventTableEntry {
        eid,
        sp,
        last_jump_eid: 0,
        inst: i,
        step_info: step,
    }
}

/// The program of the smallest complete run: one function whose body is a
/// 32-bit constant push followed by a drop.
fn const_drop_program() -> CompileTable {
    CompileTable {
        instructions: vec![
            inst(
                0,
                Opcode::Const {
                    vtype: VarType::I32,
                    value: 0,
                },
            ),
            inst(1, Opcode::Drop),
        ],
        init_memory: vec![],
    }
}

fn const_drop_trace() -> Vec<EventTableEntry> {
    let program = const_drop_program();
    vec![
        event(
            1,
            0,
            program.instructions[0],
            StepInfo::I32Const { value: 0 },
        ),
        event(2, 1, program.instructions[1], StepInfo::Drop),
    ]
}

#[test]
fn test_ok() {
    // a module exporting one function: (i32.const 0) (drop)
    let program = const_drop_program();
    let execution = ExecutionTable::from_events(const_drop_trace());
    assert!(run_table_checks(&program, &execution).is_ok());
}

#[test]
fn const_drop_produces_exactly_one_write() {
    let program = const_drop_program();
    let execution = ExecutionTable::from_events(const_drop_trace());

    // one instruction-table row per static instruction
    assert_eq!(program.instructions.len(), 2);
    // two event rows: the push, then the drop
    assert_eq!(execution.event.len(), 2);
    // exactly one memory write and no reads
    let rows = execution.memory.entries();
    assert_eq!(rows.len(), 1);
    assert_eq!(rows[0].atype, AccessType::Write);
    assert_eq!(rows[0].ltype, LocationType::Stack);
    assert_eq!(rows[0].offset, 0);
    assert_eq!(rows[0].value, 0);
    // sp grows by one over the push and shrinks by one over the drop
    assert_eq!(execution.event[0].sp, 0);
    assert_eq!(execution.event[1].sp, 1);
    // the shared counter runs 1 -> 0 and both tables start it at 1
    assert_eq!(event_rest_mops(&execution.event), vec![1, 0]);
    assert_eq!(memory_rest_mops(execution.memory.entries()), vec![1]);
    assert_eq!(total_mops(&execution.event), 1);
    assert_eq!(count_non_init(execution.memory.entries()), 1);
}

#[test]
fn local_get_reads_slot_and_writes_top() {
    let i = inst(1, Opcode::LocalGet { offset: 0 });
    let e = event(
        2,
        1,
        i,
        StepInfo::GetLocal {
            depth: 0,
            vtype: VarType::I32,
            value: 42,
        },
    );
    let ops = memory_event_of_step(&e);
    assert_eq!(ops.len(), 2);
    assert_eq!(ops[0].atype, AccessType::Read);
    assert_eq!(ops[0].offset, 0);
    assert_eq!(ops[0].value, 42);
    assert_eq!(ops[0].vtype, VarType::I32);
    assert_eq!(ops[1].atype, AccessType::Write);
    assert_eq!(ops[1].offset, 1);
    assert_eq!(ops[1].value, 42);
    assert_eq!(ops[1].vtype, VarType::I32);
    // different cells, so both are the first operation on their cell
    assert_eq!(ops[0].emid, 1);
    assert_eq!(ops[1].emid, 1);
}

/// A run whose slot 0 is written before `local.get 0` copies it.
fn local_get_program() -> CompileTable {
    CompileTable {
        instructions: vec![
            inst(
                0,
                Opcode::Const {
                    vtype: VarType::I32,
                    value: 42,
                },
            ),
            inst(1, Opcode::LocalGet { offset: 0 }),
        ],
        init_memory: vec![],
    }
}

fn local_get_trace() -> Vec<EventTableEntry> {
    let program = local_get_program();
    vec![
        event(
            1,
            0,
            program.instructions[0],
            StepInfo::I32Const { value: 42 },
        ),
        event(
            2,
            1,
            program.instructions[1],
            StepInfo::GetLocal {
                depth: 0,
                vtype: VarType::I32,
                value: 42,
            },
        ),
    ]
}

#[test]
fn local_get_run_is_accepted() {
    let program = local_get_program();
    let execution = ExecutionTable::from_events(local_get_trace());
    assert!(run_table_checks(&program, &execution).is_ok());
    assert_eq!(execution.memory.entries().len(), 3);
}

#[test]
fn mutated_read_value_is_rejected() {
    let program = local_get_program();
    let execution = ExecutionTable::from_events(local_get_trace());
    // rows in canonical order: write slot 0 (step 1), read slot 0 (step 2),
    // write slot 1 (step 2)
    let mut rows = execution.memory.entries().clone();
    assert_eq!(rows[1].atype, AccessType::Read);
    rows[1].value = 43;
    let tampered = ExecutionTable {
        event: execution.event,
        memory: MTable::new(rows),
        jump: execution.jump,
    };
    let err = run_table_checks(&program, &tampered).unwrap_err();
    assert_eq!(err.rule, Rule::MemoryReadContinuity);
    assert_eq!(err.row, 1);
}

#[test]
fn permuted_rows_are_rejected() {
    let program = local_get_program();
    let execution = ExecutionTable::from_events(local_get_trace());
    let mut rows = execution.memory.entries().clone();
    rows.swap(1, 2);
    let tampered = ExecutionTable {
        event: execution.event,
        memory: MTable::new(rows),
        jump: execution.jump,
    };
    let err = run_table_checks(&program, &tampered).unwrap_err();
    assert_eq!(err.rule, Rule::MemoryOrder);
    assert_eq!(err.row, 2);
}

#[test]
fn missing_memory_operation_is_rejected() {
    let program = local_get_program();
    let execution = ExecutionTable::from_events(local_get_trace());
    let mut rows = execution.memory.entries().clone();
    rows.pop();
    let tampered = ExecutionTable {
        event: execution.event,
        memory: MTable::new(rows),
        jump: execution.jump,
    };
    let err = run_table_checks(&program, &tampered).unwrap_err();
    assert_eq!(err.rule, Rule::EventMemoryLookup);
}

#[test]
fn extra_memory_operation_fails_accounting() {
    let program = local_get_program();
    let execution = ExecutionTable::from_events(local_get_trace());
    let mut rows = execution.memory.entries().clone();
    rows.push(MemoryTableEntry {
        eid: 2,
        emid: 1,
        mmid: 1,
        offset: 5,
        ltype: LocationType::Stack,
        atype: AccessType::Write,
        vtype: VarType::I32,
        value: 0,
    });
    let tampered = ExecutionTable {
        event: execution.event,
        memory: MTable::new(rows),
        jump: execution.jump,
    };
    let err = run_table_checks(&program, &tampered).unwrap_err();
    assert_eq!(err.rule, Rule::MopsAccounting);
}

#[test]
fn stack_first_touch_must_write() {
    // a lone read of a never-written stack slot
    let program = CompileTable {
        instructions: vec![inst(0, Opcode::LocalGet { offset: 0 })],
        init_memory: vec![],
    };
    let trace = vec![event(
        1,
        1,
        program.instructions[0],
        StepInfo::GetLocal {
            depth: 0,
            vtype: VarType::I32,
            value: 42,
        },
    )];
    let execution = ExecutionTable::from_events(trace);
    let err = run_table_checks(&program, &execution).unwrap_err();
    assert_eq!(err.rule, Rule::MemoryStackFirstWrite);
    assert_eq!(err.row, 0);
}

#[test]
fn heap_first_touch_needs_declared_value() {
    let heap_row = MemoryTableEntry {
        eid: 0,
        emid: 0,
        mmid: 1,
        offset: 7,
        ltype: LocationType::Heap,
        atype: AccessType::Init,
        vtype: VarType::I32,
        value: 9,
    };
    let execution = ExecutionTable {
        event: vec![],
        memory: MTable::new(vec![heap_row]),
        jump: vec![],
    };
    let declared = CompileTable {
        instructions: vec![],
        init_memory: vec![InitMemoryTableEntry {
            mmid: 1,
            offset: 7,
            value: 9,
        }],
    };
    assert!(run_table_checks(&declared, &execution).is_ok());
    let undeclared = CompileTable {
        instructions: vec![],
        init_memory: vec![InitMemoryTableEntry {
            mmid: 1,
            offset: 7,
            value: 8,
        }],
    };
    let err = run_table_checks(&undeclared, &execution).unwrap_err();
    assert_eq!(err.rule, Rule::MemoryHeapFirstInit);
}

#[test]
fn memory_range_is_checked() {
    let bad = MemoryTableEntry {
        eid: 1,
        emid: 1,
        mmid: 0x10000,
        offset: 0,
        ltype: LocationType::Stack,
        atype: AccessType::Write,
        vtype: VarType::I32,
        value: 0,
    };
    let execution = ExecutionTable {
        event: vec![],
        memory: MTable::new(vec![bad]),
        jump: vec![],
    };
    let program = CompileTable::default();
    let err = run_table_checks(&program, &execution).unwrap_err();
    assert_eq!(err.rule, Rule::MemoryRange);
}

#[test]
fn non_canonical_memory_value_is_rejected() {
    // a 32-bit row whose value smuggles in nonzero high bytes
    let bad = MemoryTableEntry {
        eid: 1,
        emid: 1,
        mmid: 1,
        offset: 0,
        ltype: LocationType::Stack,
        atype: AccessType::Write,
        vtype: VarType::I32,
        value: 1 << 32,
    };
    let execution = ExecutionTable {
        event: vec![],
        memory: MTable::new(vec![bad]),
        jump: vec![],
    };
    let program = CompileTable::default();
    let err = run_table_checks(&program, &execution).unwrap_err();
    assert_eq!(err.rule, Rule::MemoryRange);
}

#[test]
fn non_canonical_operand_is_rejected() {
    let binop = inst(0, Opcode::BinOp);
    let program = CompileTable {
        instructions: vec![binop],
        init_memory: vec![],
    };
    let trace = vec![event(
        1,
        2,
        binop,
        StepInfo::I32BinOp {
            left: 1 << 32,
            right: 1,
            value: 1,
        },
    )];
    let execution = ExecutionTable {
        event: trace,
        memory: MTable::new(vec![]),
        jump: vec![],
    };
    let err = run_table_checks(&program, &execution).unwrap_err();
    assert_eq!(err.rule, Rule::EventRange);
}

#[test]
fn eid_must_count_from_one() {
    let program = const_drop_program();
    let mut trace = const_drop_trace();
    trace[1].eid = 3;
    let mut execution = ExecutionTable::from_events(const_drop_trace());
    execution.event = trace;
    let err = run_table_checks(&program, &execution).unwrap_err();
    assert_eq!(err.rule, Rule::EventEidContinuity);
    assert_eq!(err.row, 1);
}

#[test]
fn sp_must_follow_the_declared_delta() {
    let program = const_drop_program();
    let mut trace = const_drop_trace();
    trace[1].sp = 2;
    let execution = ExecutionTable {
        event: trace,
        memory: ExecutionTable::from_events(const_drop_trace()).memory,
        jump: vec![],
    };
    let err = run_table_checks(&program, &execution).unwrap_err();
    assert_eq!(err.rule, Rule::EventSpContinuity);
    assert_eq!(err.row, 1);
}

#[test]
fn instruction_must_come_from_the_program() {
    let program = CompileTable {
        instructions: vec![const_drop_program().instructions[0]],
        init_memory: vec![],
    };
    let execution = ExecutionTable::from_events(const_drop_trace());
    let err = run_table_checks(&program, &execution).unwrap_err();
    assert_eq!(err.rule, Rule::EventInstructionLookup);
    assert_eq!(err.row, 1);
}

#[test]
fn step_detail_must_match_the_opcode() {
    let program = const_drop_program();
    let mut trace = const_drop_trace();
    // claim the drop instruction but record a const step
    trace[0] = event(
        1,
        0,
        program.instructions[1],
        StepInfo::I32Const { value: 0 },
    );
    let execution = ExecutionTable {
        event: trace,
        memory: ExecutionTable::from_events(const_drop_trace()).memory,
        jump: vec![],
    };
    let err = run_table_checks(&program, &execution).unwrap_err();
    assert_eq!(err.rule, Rule::EventStepMatch);
    assert_eq!(err.row, 0);
}

#[test]
fn call_needs_a_jump_record() {
    let call_inst = inst(0, Opcode::Call { index: 0 });
    let program = CompileTable {
        instructions: vec![call_inst],
        init_memory: vec![],
    };
    let trace = vec![event(1, 0, call_inst, StepInfo::Call { index: 0 })];
    let execution = ExecutionTable::from_events(trace.clone());
    assert!(run_table_checks(&program, &execution).is_ok());
    let without_jump = ExecutionTable {
        event: trace,
        memory: MTable::new(vec![]),
        jump: vec![],
    };
    let err = run_table_checks(&program, &without_jump).unwrap_err();
    assert_eq!(err.rule, Rule::EventJumpLookup);
}

#[test]
fn event_range_is_checked() {
    let program = const_drop_program();
    let mut trace = const_drop_trace();
    trace[0].sp = 0x10000;
    let execution = ExecutionTable {
        event: trace,
        memory: MTable::new(vec![]),
        jump: vec![],
    };
    let err = run_table_checks(&program, &execution).unwrap_err();
    assert_eq!(err.rule, Rule::EventRange);
    assert_eq!(err.row, 0);
}
