//! The rotation geometry of the 8x8 board: which source bit lands on each
//! destination bit under a quarter turn or a half turn, the per-row
//! contributions that the lookup tables hold, and the algebraic laws that
//! the three transforms satisfy.
//!
//! A bit at `(row, col)` of the 64-bit mask, with row `r` occupying bits
//! `[r * 8, r * 8 + 8)`, moves to bit `(7 - col) * 8 + row` under the
//! clockwise quarter turn and to bit `col * 8 + (7 - row)` under the
//! counterclockwise one.

use vstd::prelude::*;

use crate::bits::{
    gather, lemma_bit_or, lemma_bit_single, lemma_bit_zero, lemma_gather_bit,
    lemma_popcnt_permute, lemma_small_bit, lemma_u64_ext, nth_bit, popcnt64,
};

verus! {

/// Source bit index that lands on bit `j` under the clockwise quarter turn.
pub open spec fn cw_src(j: u64) -> u64
    recommends
        j < 64,
{
    ((j % 8) * 8 + 7 - j / 8) as u64
}

/// Source bit index that lands on bit `j` under the counterclockwise
/// quarter turn.
pub open spec fn ccw_src(j: u64) -> u64
    recommends
        j < 64,
{
    ((7 - j % 8) * 8 + j / 8) as u64
}

/// Source bit index that lands on bit `j` under the 180 degree reflection.
pub open spec fn rev_src(j: u64) -> u64
    recommends
        j < 64,
{
    (63 - j) as u64
}

/// The board rotated 90 degrees clockwise.
pub open spec fn rotate_cw_spec(b: u64) -> u64 {
    gather(b, |j: u64| cw_src(j), 64)
}

/// The board rotated 90 degrees counterclockwise.
pub open spec fn rotate_ccw_spec(b: u64) -> u64 {
    gather(b, |j: u64| ccw_src(j), 64)
}

/// The board with its bit order reversed end to end.
pub open spec fn reflect180_spec(b: u64) -> u64 {
    gather(b, |j: u64| rev_src(j), 64)
}

/// The three index maps stay within the board, and composing a clockwise
/// with a counterclockwise step (in either order) is the identity, while
/// two equal quarter turns reverse the bit order.
pub proof fn lemma_src_maps(j: u64)
    requires
        j < 64,
    ensures
        cw_src(j) < 64,
        ccw_src(j) < 64,
        rev_src(j) < 64,
        ccw_src(cw_src(j)) == j,
        cw_src(ccw_src(j)) == j,
        cw_src(cw_src(j)) == rev_src(j),
        ccw_src(ccw_src(j)) == rev_src(j),
        rev_src(rev_src(j)) == j,
{
    lemma_div_mod8(j);
    lemma_decode((j % 8) as u64, (7 - j / 8) as u64);
    lemma_decode((7 - j % 8) as u64, (j / 8) as u64);
    lemma_decode(((63 - j) / 8) as u64, ((63 - j) % 8) as u64);
    lemma_div_mod8(cw_src(j));
    lemma_div_mod8(ccw_src(j));
    lemma_div_mod8(rev_src(j));
}

/// A row-column pair below 8 decodes uniquely from `row * 8 + col`.
proof fn lemma_decode(q: u64, r: u64)
    requires
        q < 8,
        r < 8,
    ensures
        (q * 8 + r) / 8 == q,
        (q * 8 + r) % 8 == r,
{
    vstd::arithmetic::div_mod::lemma_fundamental_div_mod_converse(
        q * 8 + r,
        8,
        q as int,
        r as int,
    );
}

/// Decomposition of a clockwise destination index back into row and column.
proof fn lemma_dest_decode_cw(row: u64, col: u64)
    requires
        row < 8,
        col < 8,
    ensures
        (7 - col) * 8 + row < 64,
        ((7 - col) * 8 + row) % 8 == row,
        ((7 - col) * 8 + row) / 8 == 7 - col,
{
    lemma_decode((7 - col) as u64, row);
}

/// Decomposition of a counterclockwise destination index back into row and
/// column.
proof fn lemma_dest_decode_ccw(row: u64, col: u64)
    requires
        row < 8,
        col < 8,
    ensures
        col * 8 + (7 - row) < 64,
        (col * 8 + (7 - row)) % 8 == 7 - row,
        (col * 8 + (7 - row)) / 8 == col,
{
    lemma_decode(col, (7 - row) as u64);
}

/// Euclidean decomposition of a bit index into its row and column.
proof fn lemma_div_mod8(j: u64)
    requires
        j < 64,
    ensures
        j % 8 < 8,
        j / 8 < 8,
        j == (j / 8) * 8 + j % 8,
{
    vstd::arithmetic::div_mod::lemma_fundamental_div_mod(j as int, 8);
}

/// The destination bits contributed by `byte` occupying row `row`, under
/// the clockwise quarter turn: one destination bit per set source bit.
pub fn cw_row_contribution(row: u64, byte: u64) -> (e: u64)
    requires
        row < 8,
        byte < 256,
    ensures
        forall|j: u64|
            j < 64 ==> nth_bit(e, j) == (j % 8 == row && nth_bit(byte, (7 - j / 8) as u64)),
{
    let mut e: u64 = 0;
    let mut col: u64 = 0;
    proof {
        assert forall|j: u64| j < 64 implies !nth_bit(0u64, j) by {
            lemma_bit_zero(j);
        }
    }
    while col < 8
        invariant
            row < 8,
            byte < 256,
            col <= 8,
            forall|j: u64|
                j < 64 ==> nth_bit(e, j) == (j % 8 == row && 7 - j / 8 < col && nth_bit(
                    byte,
                    (7 - j / 8) as u64,
                )),
        decreases 8 - col,
    {
        let hot = (byte >> col) & 1 == 1;
        if hot {
            let t: u64 = (7 - col) * 8 + row;
            let ghost e0: u64 = e;
            proof {
                lemma_dest_decode_cw(row, col);
            }
            e = e | (1u64 << t);
            proof {
                assert forall|j: u64|
                    j < 64 implies nth_bit(e, j) == (j % 8 == row && 7 - j / 8 < col + 1
                    && nth_bit(byte, (7 - j / 8) as u64)) by {
                    lemma_bit_or(e0, 1u64 << t, j);
                    lemma_bit_single(t, j);
                    lemma_div_mod8(j);
                    if j != t && j % 8 == row && 7 - j / 8 == col {
                        assert(j == (j / 8) * 8 + j % 8);
                        assert(j == t);
                    }
                }
            }
        } else {
            proof {
                assert forall|j: u64|
                    j < 64 implies nth_bit(e, j) == (j % 8 == row && 7 - j / 8 < col + 1
                    && nth_bit(byte, (7 - j / 8) as u64)) by {
                    lemma_div_mod8(j);
                }
            }
        }
        col = col + 1;
    }
    proof {
        assert forall|j: u64|
            j < 64 implies nth_bit(e, j) == (j % 8 == row && nth_bit(byte, (7 - j / 8) as u64)) by {
            lemma_div_mod8(j);
        }
    }
    e
}

/// The destination bits contributed by `byte` occupying row `row`, under
/// the counterclockwise quarter turn.
pub fn ccw_row_contribution(row: u64, byte: u64) -> (e: u64)
    requires
        row < 8,
        byte < 256,
    ensures
        forall|j: u64|
            j < 64 ==> nth_bit(e, j) == (j % 8 == 7 - row && nth_bit(byte, (j / 8) as u64)),
{
    let mut e: u64 = 0;
    let mut col: u64 = 0;
    proof {
        assert forall|j: u64| j < 64 implies !nth_bit(0u64, j) by {
            lemma_bit_zero(j);
        }
    }
    while col < 8
        invariant
            row < 8,
            byte < 256,
            col <= 8,
            forall|j: u64|
                j < 64 ==> nth_bit(e, j) == (j % 8 == 7 - row && j / 8 < col && nth_bit(
                    byte,
                    (j / 8) as u64,
                )),
        decreases 8 - col,
    {
        let hot = (byte >> col) & 1 == 1;
        if hot {
            let t: u64 = col * 8 + (7 - row);
            let ghost e0: u64 = e;
            proof {
                lemma_dest_decode_ccw(row, col);
            }
            e = e | (1u64 << t);
            proof {
                assert forall|j: u64|
                    j < 64 implies nth_bit(e, j) == (j % 8 == 7 - row && j / 8 < col + 1
                    && nth_bit(byte, (j / 8) as u64)) by {
                    lemma_bit_or(e0, 1u64 << t, j);
                    lemma_bit_single(t, j);
                    lemma_div_mod8(j);
                    if j != t && j % 8 == 7 - row && j / 8 == col {
                        assert(j == (j / 8) * 8 + j % 8);
                        assert(j == t);
                    }
                }
            }
        } else {
            proof {
                assert forall|j: u64|
                    j < 64 implies nth_bit(e, j) == (j % 8 == 7 - row && j / 8 < col + 1
                    && nth_bit(byte, (j / 8) as u64)) by {
                    lemma_div_mod8(j);
                }
            }
        }
        col = col + 1;
    }
    proof {
        assert forall|j: u64|
            j < 64 implies nth_bit(e, j) == (j % 8 == 7 - row && nth_bit(byte, (j / 8) as u64)) by {
            lemma_div_mod8(j);
        }
    }
    e
}

/// The lookup-table entry for `byte` occupying row `row`, clockwise.
pub open spec fn cw_entry_spec(row: u64, byte: u64) -> u64 {
    gather(
        byte,
        |j: u64|
            if j % 8 == row {
                (7 - j / 8) as u64
            } else {
                8u64
            },
        64,
    )
}

/// The lookup-table entry for `byte` occupying row `row`, counterclockwise.
pub open spec fn ccw_entry_spec(row: u64, byte: u64) -> u64 {
    gather(
        byte,
        |j: u64|
            if j % 8 == 7 - row {
                (j / 8) as u64
            } else {
                8u64
            },
        64,
    )
}

/// A word with the clockwise per-row bit characterization is the clockwise
/// table entry.
pub proof fn lemma_cw_contribution_is_entry(row: u64, byte: u64, e: u64)
    requires
        row < 8,
        byte < 256,
        forall|j: u64|
            j < 64 ==> nth_bit(e, j) == (j % 8 == row && nth_bit(byte, (7 - j / 8) as u64)),
    ensures
        e == cw_entry_spec(row, byte),
{
    let f = |j: u64|
        if j % 8 == row {
            (7 - j / 8) as u64
        } else {
            8u64
        };
    assert forall|j: u64| j < 64 implies nth_bit(e, j) == nth_bit(cw_entry_spec(row, byte), j) by {
        lemma_gather_bit(byte, f, 64, j);
        if j % 8 != row {
            lemma_small_bit(byte, 8);
        }
    }
    lemma_u64_ext(e, cw_entry_spec(row, byte));
}

/// A word with the counterclockwise per-row bit characterization is the
/// counterclockwise table entry.
pub proof fn lemma_ccw_contribution_is_entry(row: u64, byte: u64, e: u64)
    requires
        row < 8,
        byte < 256,
        forall|j: u64|
            j < 64 ==> nth_bit(e, j) == (j % 8 == 7 - row && nth_bit(byte, (j / 8) as u64)),
    ensures
        e == ccw_entry_spec(row, byte),
{
    let f = |j: u64|
        if j % 8 == 7 - row {
            (j / 8) as u64
        } else {
            8u64
        };
    assert forall|j: u64| j < 64 implies nth_bit(e, j) == nth_bit(ccw_entry_spec(row, byte), j) by {
        lemma_gather_bit(byte, f, 64, j);
        if j % 8 != 7 - row {
            lemma_small_bit(byte, 8);
        }
    }
    lemma_u64_ext(e, ccw_entry_spec(row, byte));
}

/// Each bit of a rotated board is the mapped source bit of the original.
pub proof fn lemma_rotate_bits(b: u64, j: u64)
    requires
        j < 64,
    ensures
        nth_bit(rotate_cw_spec(b), j) == nth_bit(b, cw_src(j)),
        nth_bit(rotate_ccw_spec(b), j) == nth_bit(b, ccw_src(j)),
        nth_bit(reflect180_spec(b), j) == nth_bit(b, rev_src(j)),
{
    lemma_gather_bit(b, |j2: u64| cw_src(j2), 64, j);
    lemma_gather_bit(b, |j2: u64| ccw_src(j2), 64, j);
    lemma_gather_bit(b, |j2: u64| rev_src(j2), 64, j);
}

/// Rotating clockwise then counterclockwise, or counterclockwise then
/// clockwise, returns the original board.
pub proof fn lemma_rotate_ccw_cw_identity(b: u64)
    ensures
        rotate_cw_spec(rotate_ccw_spec(b)) == b,
        rotate_ccw_spec(rotate_cw_spec(b)) == b,
{
    let y = rotate_ccw_spec(b);
    assert forall|j: u64| j < 64 implies nth_bit(rotate_cw_spec(y), j) == nth_bit(b, j) by {
        lemma_src_maps(j);
        lemma_rotate_bits(y, j);
        lemma_rotate_bits(b, cw_src(j));
    }
    lemma_u64_ext(rotate_cw_spec(y), b);
    let z = rotate_cw_spec(b);
    assert forall|j: u64| j < 64 implies nth_bit(rotate_ccw_spec(z), j) == nth_bit(b, j) by {
        lemma_src_maps(j);
        lemma_rotate_bits(z, j);
        lemma_rotate_bits(b, ccw_src(j));
    }
    lemma_u64_ext(rotate_ccw_spec(z), b);
}

/// Two clockwise quarter turns, two counterclockwise quarter turns, and the
/// 180 degree reflection all agree.
pub proof fn lemma_double_rotation_is_reflection(b: u64)
    ensures
        rotate_cw_spec(rotate_cw_spec(b)) == reflect180_spec(b),
        rotate_ccw_spec(rotate_ccw_spec(b)) == reflect180_spec(b),
{
    let y = rotate_cw_spec(b);
    assert forall|j: u64|
        j < 64 implies nth_bit(rotate_cw_spec(y), j) == nth_bit(reflect180_spec(b), j) by {
        lemma_src_maps(j);
        lemma_rotate_bits(y, j);
        lemma_rotate_bits(b, cw_src(j));
        lemma_rotate_bits(b, j);
    }
    lemma_u64_ext(rotate_cw_spec(y), reflect180_spec(b));
    let z = rotate_ccw_spec(b);
    assert forall|j: u64|
        j < 64 implies nth_bit(rotate_ccw_spec(z), j) == nth_bit(reflect180_spec(b), j) by {
        lemma_src_maps(j);
        lemma_rotate_bits(z, j);
        lemma_rotate_bits(b, ccw_src(j));
        lemma_rotate_bits(b, j);
    }
    lemma_u64_ext(rotate_ccw_spec(z), reflect180_spec(b));
}

/// Each of the three transforms preserves the number of set bits: every
/// transform is a bijection on the 64 bit positions.
pub proof fn lemma_rotations_preserve_count_set(b: u64)
    ensures
        popcnt64(rotate_cw_spec(b)) == popcnt64(b),
        popcnt64(rotate_ccw_spec(b)) == popcnt64(b),
        popcnt64(reflect180_spec(b)) == popcnt64(b),
{
    let fcw = |j: u64| cw_src(j);
    let fccw = |j: u64| ccw_src(j);
    let frev = |j: u64| rev_src(j);
    assert forall|j: u64| j < 64 implies #[trigger] fcw(j) < 64 && #[trigger] fccw(j) < 64
        && #[trigger] frev(j) < 64 by {
        lemma_src_maps(j);
    }
    assert forall|j: u64| j < 64 implies #[trigger] fccw(fcw(j)) == j && #[trigger] fcw(fccw(j))
        == j && #[trigger] frev(frev(j)) == j by {
        lemma_src_maps(j);
    }
    assert forall|j: u64| j < 64 implies nth_bit(rotate_cw_spec(b), j) == nth_bit(
        b,
        #[trigger] fcw(j),
    ) by {
        lemma_rotate_bits(b, j);
    }
    assert forall|j: u64| j < 64 implies nth_bit(rotate_ccw_spec(b), j) == nth_bit(
        b,
        #[trigger] fccw(j),
    ) by {
        lemma_rotate_bits(b, j);
    }
    assert forall|j: u64| j < 64 implies nth_bit(reflect180_spec(b), j) == nth_bit(
        b,
        #[trigger] frev(j),
    ) by {
        lemma_rotate_bits(b, j);
    }
    lemma_popcnt_permute(b, rotate_cw_spec(b), fcw, fccw);
    lemma_popcnt_permute(b, rotate_ccw_spec(b), fccw, fcw);
    lemma_popcnt_permute(b, reflect180_spec(b), frev, frev);
}

} // verus!
