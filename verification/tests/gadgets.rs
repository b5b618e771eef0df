use wasm_circuit::mtable::VarType;
use wasm_circuit::range::{
    all_var_types, build_byte_range_table, build_common_range_table, build_sized_value_table,
    value_bytes, value_fits_exec,
};
use wasm_circuit::rowdiff::same_flags;

fn sized_row(pos: u64, t: VarType, b: u64) -> u64 {
    (pos << 12) + (t.code() << 8) + b
}

#[test]
fn common_and_byte_ranges() {
    let common = build_common_range_table(16);
    assert_eq!(common.len(), 16);
    assert_eq!(common[0], 0);
    assert_eq!(common[15], 15);
    let bytes = build_byte_range_table();
    assert_eq!(bytes.len(), 256);
    assert_eq!(bytes[255], 255);
}

#[test]
fn value_byte_decomposition() {
    let bytes = value_bytes(0x0102_0304_0506_0708);
    assert_eq!(bytes, vec![0x08, 0x07, 0x06, 0x05, 0x04, 0x03, 0x02, 0x01]);
    // the bytes recombine to the value
    let mut acc: u64 = 0;
    for (i, b) in bytes.iter().enumerate() {
        acc += b << (8 * i);
    }
    assert_eq!(acc, 0x0102_0304_0506_0708);
    assert_eq!(value_bytes(0), vec![0; 8]);
    assert_eq!(value_bytes(u64::MAX), vec![0xFF; 8]);
}

#[test]
fn var_types_listed_in_code_order() {
    let types = all_var_types();
    assert_eq!(types.len(), 8);
    for (i, t) in types.iter().enumerate() {
        assert_eq!(t.code(), i as u64 + 1);
    }
}

#[test]
fn sized_value_table_boundary() {
    let table = build_sized_value_table();
    // a 4-byte type admits all 256 byte values below its width...
    for b in 0..256u64 {
        assert!(table.contains(&sized_row(3, VarType::I32, b)));
    }
    // ...and only zero at or above it
    assert!(table.contains(&sized_row(4, VarType::I32, 0)));
    for b in 1..256u64 {
        assert!(!table.contains(&sized_row(4, VarType::I32, b)));
        assert!(!table.contains(&sized_row(7, VarType::I32, b)));
        assert!(!table.contains(&sized_row(1, VarType::U8, b)));
    }
    // an 8-byte type admits every byte everywhere
    for pos in 0..8u64 {
        assert!(table.contains(&sized_row(pos, VarType::I64, 0xFF)));
    }
    // count: per position, each type contributes 256 rows below its width
    // and 1 at or above it
    let expected: usize = (0..8u64)
        .map(|pos| {
            [1u64, 1, 2, 2, 4, 4, 8, 8]
                .iter()
                .map(|w| if pos < *w { 256usize } else { 1 })
                .sum::<usize>()
        })
        .sum();
    assert_eq!(table.len(), expected);
}

#[test]
fn value_fits_tracks_type_width() {
    assert!(value_fits_exec(0xFF, VarType::U8));
    assert!(!value_fits_exec(0x100, VarType::U8));
    assert!(value_fits_exec(0xFFFF_FFFF, VarType::I32));
    assert!(!value_fits_exec(0x1_0000_0000, VarType::I32));
    assert!(value_fits_exec(u64::MAX, VarType::I64));
}

#[test]
fn same_flags_mark_repeats() {
    let flags = same_flags(&vec![3, 3, 4, 4, 4, 5]);
    assert_eq!(flags, vec![false, true, false, true, true, false]);
    assert_eq!(same_flags(&vec![]), Vec::<bool>::new());
    assert_eq!(same_flags(&vec![9]), vec![false]);
}
