use magpie::stone::Stone;

#[test]
fn stone_flip_equality() {
    for stone in [Stone::Black, Stone::White] {
        assert_ne!(stone, stone.flip());
        assert_eq!(stone, stone.flip().flip());
    }
}

#[test]
fn flip_swaps_the_two_colors() {
    assert_eq!(Stone::White, Stone::Black.flip());
    assert_eq!(Stone::Black, Stone::White.flip());
}
