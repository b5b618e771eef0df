use wasm_circuit::mtable::{
    key_le_exec, AccessType, LocationType, MTable, MemoryTableEntry, VarType,
};

fn row(
    eid: u64,
    emid: u64,
    mmid: u64,
    offset: u64,
    ltype: LocationType,
    atype: AccessType,
    value: u64,
) -> MemoryTableEntry {
    MemoryTableEntry {
        eid,
        emid,
        mmid,
        offset,
        ltype,
        atype,
        vtype: VarType::I32,
        value,
    }
}

#[test]
fn var_type_sizes() {
    assert_eq!(VarType::U8.byte_size(), 1);
    assert_eq!(VarType::I8.byte_size(), 1);
    assert_eq!(VarType::U16.byte_size(), 2);
    assert_eq!(VarType::I16.byte_size(), 2);
    assert_eq!(VarType::U32.byte_size(), 4);
    assert_eq!(VarType::I32.byte_size(), 4);
    assert_eq!(VarType::U64.byte_size(), 8);
    assert_eq!(VarType::I64.byte_size(), 8);
}

#[test]
fn var_type_codes_round_trip() {
    for c in 1u64..=8 {
        let t = VarType::from_code(c).unwrap();
        assert_eq!(t.code(), c);
    }
    assert!(VarType::from_code(0).is_none());
    assert!(VarType::from_code(9).is_none());
}

#[test]
fn same_location_ignores_access() {
    let a = row(1, 1, 7, 3, LocationType::Stack, AccessType::Write, 5);
    let b = row(9, 2, 7, 3, LocationType::Stack, AccessType::Read, 8);
    let c = row(1, 1, 7, 4, LocationType::Stack, AccessType::Write, 5);
    let d = row(1, 1, 7, 3, LocationType::Heap, AccessType::Write, 5);
    assert!(a.is_same_location(&b));
    assert!(!a.is_same_location(&c));
    assert!(!a.is_same_location(&d));
}

#[test]
fn key_order_is_lexicographic() {
    let heap = row(9, 9, 0, 0, LocationType::Heap, AccessType::Init, 0);
    let stack = row(1, 1, 0, 0, LocationType::Stack, AccessType::Write, 0);
    assert!(key_le_exec(&heap, &stack));
    assert!(!key_le_exec(&stack, &heap));

    let low_offset = row(5, 1, 1, 2, LocationType::Stack, AccessType::Write, 0);
    let high_offset = row(1, 1, 1, 3, LocationType::Stack, AccessType::Write, 0);
    assert!(key_le_exec(&low_offset, &high_offset));
    assert!(!key_le_exec(&high_offset, &low_offset));

    let early = row(1, 2, 1, 2, LocationType::Stack, AccessType::Write, 0);
    let late = row(2, 1, 1, 2, LocationType::Stack, AccessType::Read, 0);
    assert!(key_le_exec(&early, &late));
    assert!(!key_le_exec(&late, &early));
}

#[test]
fn sort_orders_by_canonical_key() {
    let rows = vec![
        row(2, 1, 1, 5, LocationType::Stack, AccessType::Read, 3),
        row(1, 1, 1, 0, LocationType::Stack, AccessType::Write, 1),
        row(1, 1, 1, 0, LocationType::Heap, AccessType::Init, 7),
        row(1, 1, 1, 5, LocationType::Stack, AccessType::Write, 3),
    ];
    let mut table = MTable::new(rows);
    table.sort();
    let sorted = table.entries();
    assert_eq!(sorted.len(), 4);
    for i in 1..sorted.len() {
        assert!(key_le_exec(&sorted[i - 1], &sorted[i]));
    }
    assert!(matches!(sorted[0].ltype, LocationType::Heap));
    assert_eq!(sorted[1].offset, 0);
    assert_eq!(sorted[2].offset, 5);
    assert_eq!(sorted[2].eid, 1);
    assert_eq!(sorted[3].eid, 2);
}

#[test]
fn sort_keeps_rows() {
    let rows = vec![
        row(3, 1, 1, 2, LocationType::Stack, AccessType::Write, 30),
        row(1, 1, 1, 1, LocationType::Stack, AccessType::Write, 10),
        row(2, 1, 1, 1, LocationType::Stack, AccessType::Read, 10),
    ];
    let mut table = MTable::new(rows.clone());
    table.sort();
    let sorted = table.entries();
    assert_eq!(sorted.len(), rows.len());
    for r in &rows {
        assert!(sorted.iter().any(|s| s == r));
    }
}
