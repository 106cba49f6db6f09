use magpie::bitboard::Bitboard;

#[test]
fn test_bitboard_rotations() {
    //  corner
    let b: Bitboard =
        0b00000011_00000001_00000100_00000000_00000000_00000000_00000000_00000000u64.into();
    println!("b:\n{}", b.render());
    println!("ccw:\n{}", b.ccw().render());
    println!("180:\n{}", b.flip180().render());
    println!("cw:\n{}", b.cw().render());
}

#[test]
fn empty_board_scenario() {
    let b: Bitboard = 0u64.into();
    assert_eq!(b.count_set(), 0);
    assert_eq!(b.count_empty(), 64);
    assert!(b.is_empty());
    let mut hot = b.hot_bits();
    assert_eq!(hot.len(), 0);
    assert!(hot.next().is_none());
    let (ccw, d180, cw) = b.rotations();
    assert_eq!(ccw.raw(), 0);
    assert_eq!(d180.raw(), 0);
    assert_eq!(cw.raw(), 0);
}

#[test]
fn single_corner_bit_scenario() {
    // Bit 63 occupies row 7, column 7 of the mask: clockwise it moves to
    // bit (7 - 7) * 8 + 7 = 7, counterclockwise to bit 7 * 8 + (7 - 7) = 56.
    let b: Bitboard = 0x8000000000000000u64.into();
    assert_eq!(b.count_set(), 1);
    assert_eq!(b.cw().raw(), 0x0000000000000080);
    assert_eq!(b.ccw().raw(), 0x0100000000000000);
    assert_eq!(b.flip180().raw(), 0x0000000000000001);
}

#[test]
fn full_board_scenario() {
    let b: Bitboard = u64::MAX.into();
    assert_eq!(b.count_set(), 64);
    assert_eq!(b.count_empty(), 0);
    let (ccw, d180, cw) = b.rotations();
    assert_eq!(ccw.raw(), u64::MAX);
    assert_eq!(d180.raw(), u64::MAX);
    assert_eq!(cw.raw(), u64::MAX);
}

#[test]
fn three_bit_decomposition_scenario() {
    let raw: u64 = (1 << 63) | (1 << 20) | (1 << 5);
    let b: Bitboard = raw.into();
    let mut hot = b.hot_bits();
    assert_eq!(hot.len(), 3);
    let mut reunion: u64 = 0;
    let mut seen: usize = 0;
    while let Some(p) = hot.next() {
        assert_eq!(p.raw().count_ones(), 1);
        reunion |= p.raw();
        seen += 1;
    }
    assert_eq!(seen, 3);
    assert_eq!(reunion, raw);
}

#[test]
fn count_set_plus_count_empty_is_64() {
    for &raw in &[0u64, 1, 0xf0f0, 0x123456789abcdef0, u64::MAX] {
        let b: Bitboard = raw.into();
        assert_eq!(b.count_set() as u32 + b.count_empty() as u32, 64);
        assert_eq!(b.count_set() as u32, raw.count_ones());
    }
}

#[test]
fn rotations_preserve_count_set() {
    let b: Bitboard = 0x123456789abcdef0u64.into();
    let (ccw, d180, cw) = b.rotations();
    let count = b.count_set();
    assert_eq!(count, ccw.count_set());
    assert_eq!(count, d180.count_set());
    assert_eq!(count, cw.count_set());
}

#[test]
fn rotate_ccw_cw_is_identity() {
    let b: Bitboard = 0x0123456789abcdefu64.into();
    assert_eq!(b.ccw().cw().raw(), b.raw());
    assert_eq!(b.cw().ccw().raw(), b.raw());
}

#[test]
fn double_cw_is_double_ccw_is_180() {
    let b: Bitboard = 0xfedcba9876543210u64.into();
    let double_cw = b.cw().cw();
    let double_ccw = b.ccw().ccw();
    let d180 = b.flip180();
    assert_eq!(double_cw.raw(), double_ccw.raw());
    assert_eq!(double_cw.raw(), d180.raw());
}

#[test]
fn bits_always_yields_64_boards() {
    let b: Bitboard = (1u64 << 63).into();
    let parts = b.bits();
    assert_eq!(parts.len(), 64);
    assert_eq!(parts[0].raw(), 1u64 << 63);
    for part in parts.iter().skip(1) {
        assert_eq!(part.raw(), 0);
    }
    let full: Bitboard = u64::MAX.into();
    let full_parts = full.bits();
    assert_eq!(full_parts.len(), 64);
    for (k, part) in full_parts.iter().enumerate() {
        assert_eq!(part.raw(), 1u64 << (63 - k));
    }
}

#[test]
fn hot_bits_yields_highest_bit_first() {
    let b: Bitboard = ((1u64 << 40) | (1u64 << 2) | (1u64 << 63)).into();
    let mut hot = b.hot_bits();
    assert_eq!(hot.len(), 3);
    assert_eq!(hot.next().unwrap().raw(), 1u64 << 63);
    assert_eq!(hot.len(), 2);
    assert_eq!(hot.next().unwrap().raw(), 1u64 << 40);
    assert_eq!(hot.next().unwrap().raw(), 1u64 << 2);
    assert_eq!(hot.len(), 0);
    assert!(hot.next().is_none());
}

#[test]
fn raw_and_conversions_round_trip() {
    let b: Bitboard = 0xdeadbeefdeadbeefu64.into();
    assert_eq!(b.raw(), 0xdeadbeefdeadbeef);
    let back: u64 = b.into();
    assert_eq!(back, 0xdeadbeefdeadbeef);
    let d = Bitboard::default();
    assert_eq!(d.raw(), 0);
}

#[test]
fn render_draws_rank_seven_first() {
    let empty: Bitboard = 0u64.into();
    let blank_line = ". ".repeat(8) + "\n";
    assert_eq!(empty.render(), blank_line.repeat(8));

    // Bit 63 is square (rank 0, file 0), printed at the start of the last
    // line.
    let corner: Bitboard = (1u64 << 63).into();
    let mut expected = blank_line.repeat(7);
    expected.push_str("1 ");
    expected.push_str(&(". ".repeat(7) + "\n"));
    assert_eq!(corner.render(), expected);
}
