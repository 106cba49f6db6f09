use magpie::gen_constants::{generate_rotation_tables, write_rotation_tables};

#[test]
fn tables_have_the_documented_shape() {
    let (ccw, cw) = generate_rotation_tables();
    assert_eq!(ccw.len(), 8);
    assert_eq!(cw.len(), 8);
    for row in ccw.iter().chain(cw.iter()) {
        assert_eq!(row.len(), 256);
    }
}

#[test]
fn table_entries_follow_the_rotation_formulas() {
    let (ccw, cw) = generate_rotation_tables();
    // Row 0, byte 1 (column 0 set): clockwise to bit (7 - 0) * 8 + 0 = 56,
    // counterclockwise to bit 0 * 8 + (7 - 0) = 7.
    assert_eq!(cw[0][1], 1u64 << 56);
    assert_eq!(ccw[0][1], 1u64 << 7);
    // Row 7, byte 0x80 (column 7 set): clockwise to bit (7 - 7) * 8 + 7 = 7,
    // counterclockwise to bit 7 * 8 + (7 - 7) = 56.
    assert_eq!(cw[7][0x80], 1u64 << 7);
    assert_eq!(ccw[7][0x80], 1u64 << 56);
    // The zero byte contributes nothing in any row.
    for row in 0..8 {
        assert_eq!(cw[row][0], 0);
        assert_eq!(ccw[row][0], 0);
    }
    // A full recomputation from the formulas agrees entry by entry.
    for row in 0..8 {
        for byte in 0..256u64 {
            let mut cw_val = 0u64;
            let mut ccw_val = 0u64;
            for col in 0..8 {
                if (byte >> col) & 1 != 0 {
                    cw_val |= 1u64 << ((7 - col) * 8 + row);
                    ccw_val |= 1u64 << (col * 8 + (7 - row));
                }
            }
            assert_eq!(cw[row as usize][byte as usize], cw_val);
            assert_eq!(ccw[row as usize][byte as usize], ccw_val);
        }
    }
}

#[test]
fn written_tables_are_well_formed_source_text() {
    let text = write_rotation_tables();
    let (ccw, cw) = generate_rotation_tables();

    assert!(text.starts_with("pub const CCW_ROTATION_TABLE: [[u64; 256]; 8] = [\n"));
    assert!(text.contains("pub const CW_ROTATION_TABLE: [[u64; 256]; 8] = [\n"));
    assert!(text.ends_with("];\n"));

    // One bracketed line of 256 entries per row: 5 + 256 * 20 + 3 bytes.
    let row_len = 5 + 256 * 20 + 3;
    let ccw_header = "pub const CCW_ROTATION_TABLE: [[u64; 256]; 8] = [\n";
    let cw_header = "pub const CW_ROTATION_TABLE: [[u64; 256]; 8] = [\n";
    let expected_len = ccw_header.len() + 8 * row_len + "];\n\n".len() + cw_header.len() + 8
        * row_len + "];\n".len();
    assert_eq!(text.len(), expected_len);

    // The first printed row is row 0 of the counterclockwise table.
    let first_row_start = ccw_header.len();
    let first_row = &text[first_row_start..first_row_start + row_len];
    assert!(first_row.starts_with("    [0x0000000000000000, 0x0000000000000080, "));
    assert!(first_row.ends_with("],\n"));

    // Spot-check that formatted entries match the generated values.
    assert!(text.contains(&format!("0x{:016x}, ", cw[0][1])));
    assert!(text.contains(&format!("0x{:016x}, ", ccw[7][0x80])));
}
