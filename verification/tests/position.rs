use magpie::position::Position;

#[test]
fn checked_construction_accepts_only_single_bits() {
    assert!(Position::new(0).is_none());
    assert!(Position::new(3).is_none());
    assert!(Position::new(u64::MAX).is_none());
    for k in 0..64u32 {
        let p = Position::new(1u64 << k).expect("single-bit mask");
        assert_eq!(p.raw(), 1u64 << k);
    }
}
