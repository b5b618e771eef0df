use wasm_circuit::imtable::InitMemoryTableEntry;
use wasm_circuit::itable::{
    decode_instruction, decode_opcode, InstructionTableEntry, Opcode, OpcodeClass,
};
use wasm_circuit::jtable::JumpTableEntry;
use wasm_circuit::mtable::{AccessType, LocationType, MemoryTableEntry, VarType};
use wasm_circuit::pack::unpack4x16;

fn inst(moid: u64, mmid: u64, fid: u64, bid: u64, iid: u64, opcode: Opcode) -> InstructionTableEntry {
    InstructionTableEntry {
        moid,
        mmid,
        fid,
        bid,
        iid,
        opcode,
    }
}

#[test]
fn opcode_payload_layout() {
    // The class sits at bit 48, the sub-field at bit 32, the immediate at 0.
    assert_eq!(Opcode::Drop.encode(), 3 << 48);
    assert_eq!(Opcode::BinOp.encode(), 7 << 48);
    assert_eq!(Opcode::Comparison.encode(), 8 << 48);
    assert_eq!(Opcode::LocalGet { offset: 9 }.encode(), (1 << 48) + 9);
    let c = Opcode::Const {
        vtype: VarType::I32,
        value: 0x1234,
    };
    assert_eq!(c.encode(), (2 << 48) + (6 << 32) + 0x1234);
    let r = Opcode::Return { drop: 2, keep: 1 };
    assert_eq!(r.encode(), (4 << 48) + (2 << 16) + 1);
    assert_eq!(Opcode::BrIfNez { dst_pc: 5 }.encode(), (5 << 48) + 5);
    assert_eq!(Opcode::Call { index: 11 }.encode(), (6 << 48) + 11);
}

#[test]
fn opcode_classes() {
    assert_eq!(Opcode::Drop.class(), OpcodeClass::Drop);
    assert_eq!(Opcode::LocalGet { offset: 0 }.class(), OpcodeClass::LocalGet);
    assert_eq!(OpcodeClass::Const.code(), 2);
    assert_eq!(OpcodeClass::Comparison.code(), 8);
}

#[test]
fn opcode_decode_round_trip() {
    let ops = vec![
        Opcode::LocalGet { offset: 0 },
        Opcode::LocalGet {
            offset: 0xFFFF_FFFF,
        },
        Opcode::Const {
            vtype: VarType::I32,
            value: 0,
        },
        Opcode::Const {
            vtype: VarType::I64,
            value: 0xFFFF_FFFF,
        },
        Opcode::Drop,
        Opcode::Return { drop: 0, keep: 0 },
        Opcode::Return {
            drop: 0xFFFF,
            keep: 1,
        },
        Opcode::BrIfNez { dst_pc: 7 },
        Opcode::Call { index: 0 },
        Opcode::BinOp,
        Opcode::Comparison,
    ];
    for op in ops {
        assert_eq!(decode_opcode(op.encode()), Some(op));
    }
}

#[test]
fn opcode_decode_rejects_junk() {
    // class 0 and classes above 8 encode nothing
    assert_eq!(decode_opcode(0), None);
    assert_eq!(decode_opcode(9 << 48), None);
    // Drop carries no immediate
    assert_eq!(decode_opcode((3 << 48) + 1), None);
    // Const with an invalid type code
    assert_eq!(decode_opcode((2 << 48) + (9u64 << 32)), None);
    // Return with a keep flag that is not a bit
    assert_eq!(decode_opcode((4 << 48) + 2), None);
}

#[test]
fn instruction_encode_layout() {
    let e = inst(5, 4, 3, 2, 1, Opcode::Drop);
    let cell = e.encode();
    assert_eq!(cell.lo, 3 << 48);
    // iid at 64, bid at 80, fid at 96, mmid at 112 (bits from the cell base)
    assert_eq!(cell.mid, 1 + (2 << 16) + (3 << 32) + (4 << 48));
    assert_eq!(cell.hi, 5);
    let addr = e.encode_addr();
    assert_eq!(addr.lo, 1 + (2 << 16) + (3 << 32) + (4 << 48));
    assert_eq!(addr.mid, 5);
    assert_eq!(addr.hi, 0);
}

#[test]
fn instruction_round_trip_at_field_boundaries() {
    let boundary = [0u64, 1, 0xFFFE, 0xFFFF];
    for &moid in &boundary {
        for &iid in &boundary {
            let e = inst(
                moid,
                0xFFFF,
                0,
                0x8000,
                iid,
                Opcode::Const {
                    vtype: VarType::I32,
                    value: 0xFFFF_FFFF,
                },
            );
            let cell = e.encode();
            assert_eq!(decode_instruction(&cell), Some(e));
        }
    }
}

#[test]
fn instruction_encoding_never_collides() {
    let base = inst(1, 2, 3, 4, 5, Opcode::Drop);
    let variants = vec![
        inst(0, 2, 3, 4, 5, Opcode::Drop),
        inst(1, 0, 3, 4, 5, Opcode::Drop),
        inst(1, 2, 0, 4, 5, Opcode::Drop),
        inst(1, 2, 3, 0, 5, Opcode::Drop),
        inst(1, 2, 3, 4, 0, Opcode::Drop),
        inst(1, 2, 3, 4, 5, Opcode::BinOp),
        inst(1, 2, 3, 4, 5, Opcode::LocalGet { offset: 0 }),
    ];
    let c0 = base.encode();
    for v in variants {
        let c = v.encode();
        assert_ne!((c.lo, c.mid, c.hi), (c0.lo, c0.mid, c0.hi));
    }
}

#[test]
fn memory_row_layout() {
    let e = MemoryTableEntry {
        eid: 2,
        emid: 1,
        mmid: 1,
        offset: 0,
        ltype: LocationType::Stack,
        atype: AccessType::Write,
        vtype: VarType::I32,
        value: 42,
    };
    let cell = e.encode();
    assert_eq!(cell.lo, 42);
    // vtype 6 at bit 0, atype 2 at bit 13, ltype 1 at bit 15 of the window,
    // then offset, mmid, emid in 16-bit windows
    let tb = 6 + (2 << 13) + (1 << 15);
    assert_eq!(cell.mid, tb + (0 << 16) + (1u64 << 32) + (1u64 << 48));
    assert_eq!(cell.hi, 2);
}

#[test]
fn memory_rows_of_one_step_share_all_but_cell_fields() {
    // a read of slot 0 and the matching push to the new stack top differ in
    // their packed form only in the offset window and the access bits
    let read = MemoryTableEntry {
        eid: 1,
        emid: 1,
        mmid: 1,
        offset: 0,
        ltype: LocationType::Stack,
        atype: AccessType::Read,
        vtype: VarType::I32,
        value: 42,
    };
    let write = MemoryTableEntry {
        offset: 1,
        atype: AccessType::Write,
        ..read
    };
    let cr = read.encode();
    let cw = write.encode();
    assert_eq!(cr.lo, cw.lo);
    assert_eq!(cr.hi, cw.hi);
    let (tbr, offr, mmidr, emidr) = unpack4x16(cr.mid);
    let (tbw, offw, mmidw, emidw) = unpack4x16(cw.mid);
    assert_eq!(mmidr, mmidw);
    assert_eq!(emidr, emidw);
    assert_ne!(offr, offw);
    // the type window differs only in the access bits
    assert_eq!(tbr & 0x1FFF, tbw & 0x1FFF);
    assert_eq!(tbr >> 15, tbw >> 15);
    assert_ne!((tbr >> 13) & 3, (tbw >> 13) & 3);
}

#[test]
fn init_memory_layout() {
    let e = InitMemoryTableEntry {
        mmid: 3,
        offset: 2,
        value: 99,
    };
    let cell = e.encode();
    assert_eq!(cell.lo, 99);
    assert_eq!(cell.mid, 2 + (3 << 16));
    assert_eq!(cell.hi, 0);
}

#[test]
fn jump_row_layout() {
    let e = JumpTableEntry {
        eid: 6,
        last_jump_eid: 2,
        instruction: Box::new(inst(1, 2, 3, 4, 5, Opcode::Call { index: 0 })),
    };
    let cell = e.encode();
    assert_eq!(cell.lo, 5 + (4 << 16) + (3 << 32) + (2 << 48));
    assert_eq!(cell.mid, 1 + (2 << 16));
    assert_eq!(cell.hi, 6);
}
