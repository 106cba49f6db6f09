//! The 8x8 board surface and its transform engine: rotation, reflection,
//! population counts, and decomposition of set bits into single squares.

use vstd::prelude::*;
use vstd::string::StringExecFns;

use crate::bits::{
    lemma_bit_or, lemma_bit_single, lemma_bit_zero, lemma_byte_bits, lemma_msb,
    lemma_nonzero_has_bit, lemma_popcnt_clear, lemma_popcnt_le, lemma_popcnt_single, lemma_u64_ext,
    msb64, nth_bit, popcnt64, popcount_u64,
};
use crate::position::Position;
use crate::rotation::{
    ccw_row_contribution, ccw_src, cw_row_contribution, cw_src, lemma_rotate_bits, reflect180_spec,
    rev_src, rotate_ccw_spec, rotate_cw_spec,
};

verus! {

/// Represents an 8x8 board as a `u64`.
///
/// There are no restrictions placed on the bits represented, unlike the
/// similar [`Position`] where only a single bit may be set.
#[derive(Clone, Copy, Debug)]
pub struct Bitboard(pub u64);

impl View for Bitboard {
    type V = u64;

    open spec fn view(&self) -> u64 {
        self.0
    }
}

impl Default for Bitboard {
    /// The empty board.
    fn default() -> (r: Self)
        ensures
            r@ == 0,
    {
        Bitboard(0)
    }
}

impl From<u64> for Bitboard {
    fn from(bitboard: u64) -> (r: Self) {
        Bitboard(bitboard)
    }
}

impl vstd::std_specs::convert::FromSpecImpl<u64> for Bitboard {
    open spec fn obeys_from_spec() -> bool {
        true
    }

    open spec fn from_spec(v: u64) -> Bitboard {
        Bitboard(v)
    }
}

impl From<Bitboard> for u64 {
    fn from(bitboard: Bitboard) -> (r: u64) {
        bitboard.0
    }
}

impl vstd::std_specs::convert::FromSpecImpl<Bitboard> for u64 {
    open spec fn obeys_from_spec() -> bool {
        true
    }

    open spec fn from_spec(v: Bitboard) -> u64 {
        v@
    }
}

impl Bitboard {
    /// Retrieves the underlying u64.
    #[must_use]
    pub fn raw(self) -> (r: u64)
        ensures
            r == self@,
    {
        self.0
    }

    /// Returns true if and only if no bits are set.
    #[must_use]
    pub fn is_empty(self) -> (r: bool)
        ensures
            r == (self@ == 0),
    {
        self.0 == 0
    }

    /// Counts the number of set bits.
    #[must_use]
    pub fn count_set(self) -> (r: u8)
        ensures
            r as nat == popcnt64(self@),
    {
        popcount_u64(self.0)
    }

    /// Counts the number of bits that are set to zero: together with
    /// `count_set` it always accounts for all 64 squares.
    #[must_use]
    pub fn count_empty(self) -> (r: u8)
        ensures
            r as nat == 64 - popcnt64(self@),
            r as nat + popcnt64(self@) == 64,
    {
        proof {
            lemma_popcnt_le(self.0, 64);
        }
        64 - popcount_u64(self.0)
    }

    /// Extracts each bit as its own bitboard: the intersection of this board
    /// with each of the 64 single-bit masks, in canonical order (bit 63
    /// first, bit 0 last). Always returns exactly 64 boards.
    #[must_use]
    pub fn bits(self) -> (r: Vec<Bitboard>)
        ensures
            r@.len() == 64,
            forall|k: int|
                0 <= k < 64 ==> r@[k]@ == self@ & (1u64 << ((63 - k) as u64)),
    {
        let mut r: Vec<Bitboard> = Vec::new();
        let mut i: u64 = 0;
        while i < 64
            invariant
                i <= 64,
                r@.len() == i,
                forall|k: int|
                    0 <= k < i ==> r@[k]@ == self@ & (1u64 << ((63 - k) as u64)),
            decreases 64 - i,
        {
            r.push(Bitboard(self.0 & (1u64 << (63 - i))));
            i = i + 1;
        }
        r
    }

    /// Extracts each bit set to one as its own single-bit position,
    /// most-significant bit first: a one-shot cursor over a diminishing
    /// private copy of the mask, with exactly `count_set()` elements.
    #[must_use]
    pub fn hot_bits(self) -> (r: HotBits)
        ensures
            r.wf(),
            r.mask_spec() == self@,
            r.remaining_spec() as nat == popcnt64(self@),
    {
        HotBits { remaining: popcount_u64(self.0), bitboard: self.0 }
    }

    /// The board rotated 90 degrees counterclockwise, assembled from the
    /// per-row contributions of the counterclockwise rotation table.
    pub fn ccw(&self) -> (r: Self)
        ensures
            r@ == rotate_ccw_spec(self@),
    {
        let b = self.0;
        let mut out: u64 = 0;
        let mut row: u64 = 0;
        proof {
            assert forall|j: u64| j < 64 implies !nth_bit(0u64, j) by {
                lemma_bit_zero(j);
            }
        }
        while row < 8
            invariant
                row <= 8,
                b == self@,
                forall|j: u64|
                    j < 64 ==> nth_bit(out, j) == (7 - j % 8 < row && nth_bit(b, ccw_src(j))),
            decreases 8 - row,
        {
            let byte = (b >> (row * 8)) & 0xff;
            proof {
                lemma_byte_bits(b, row, 0);
            }
            let part = ccw_row_contribution(row, byte);
            let ghost out0: u64 = out;
            out = out | part;
            proof {
                assert forall|j: u64|
                    j < 64 implies nth_bit(out, j) == (7 - j % 8 < row + 1 && nth_bit(
                    b,
                    ccw_src(j),
                )) by {
                    lemma_bit_or(out0, part, j);
                    if j % 8 == 7 - row {
                        lemma_byte_bits(b, row, (j / 8) as u64);
                    }
                }
            }
            row = row + 1;
        }
        proof {
            assert forall|j: u64| j < 64 implies nth_bit(out, j) == nth_bit(
                rotate_ccw_spec(b),
                j,
            ) by {
                lemma_rotate_bits(b, j);
            }
            lemma_u64_ext(out, rotate_ccw_spec(b));
        }
        Bitboard(out)
    }

    /// The board rotated 90 degrees clockwise, assembled from the per-row
    /// contributions of the clockwise rotation table.
    pub fn cw(&self) -> (r: Self)
        ensures
            r@ == rotate_cw_spec(self@),
    {
        let b = self.0;
        let mut out: u64 = 0;
        let mut row: u64 = 0;
        proof {
            assert forall|j: u64| j < 64 implies !nth_bit(0u64, j) by {
                lemma_bit_zero(j);
            }
        }
        while row < 8
            invariant
                row <= 8,
                b == self@,
                forall|j: u64|
                    j < 64 ==> nth_bit(out, j) == (j % 8 < row && nth_bit(b, cw_src(j))),
            decreases 8 - row,
        {
            let byte = (b >> (row * 8)) & 0xff;
            proof {
                lemma_byte_bits(b, row, 0);
            }
            let part = cw_row_contribution(row, byte);
            let ghost out0: u64 = out;
            out = out | part;
            proof {
                assert forall|j: u64|
                    j < 64 implies nth_bit(out, j) == (j % 8 < row + 1 && nth_bit(
                    b,
                    cw_src(j),
                )) by {
                    lemma_bit_or(out0, part, j);
                    if j % 8 == row {
                        lemma_byte_bits(b, row, (7 - j / 8) as u64);
                    }
                }
            }
            row = row + 1;
        }
        proof {
            assert forall|j: u64| j < 64 implies nth_bit(out, j) == nth_bit(
                rotate_cw_spec(b),
                j,
            ) by {
                lemma_rotate_bits(b, j);
            }
            lemma_u64_ext(out, rotate_cw_spec(b));
        }
        Bitboard(out)
    }

    /// The board reflected 180 degrees: the bit order of the full 64-bit
    /// mask reversed end to end.
    pub fn flip180(&self) -> (r: Self)
        ensures
            r@ == reflect180_spec(self@),
    {
        let b = self.0;
        let mut out: u64 = 0;
        let mut k: u64 = 0;
        proof {
            assert forall|j: u64| j < 64 implies !nth_bit(0u64, j) by {
                lemma_bit_zero(j);
            }
        }
        while k < 64
            invariant
                k <= 64,
                b == self@,
                forall|j: u64| j < 64 ==> nth_bit(out, j) == (j < k && nth_bit(b, rev_src(j))),
            decreases 64 - k,
        {
            let ghost out0: u64 = out;
            if (b >> (63 - k)) & 1 == 1 {
                out = out | (1u64 << k);
            }
            proof {
                assert forall|j: u64|
                    j < 64 implies nth_bit(out, j) == (j < k + 1 && nth_bit(b, rev_src(j))) by {
                    lemma_bit_or(out0, 1u64 << k, j);
                    lemma_bit_single(k, j);
                }
            }
            k = k + 1;
        }
        proof {
            assert forall|j: u64| j < 64 implies nth_bit(out, j) == nth_bit(
                reflect180_spec(b),
                j,
            ) by {
                lemma_rotate_bits(b, j);
            }
            lemma_u64_ext(out, reflect180_spec(b));
        }
        Bitboard(out)
    }

    /// Returns (ccw, d180, cw): all three transforms of this board.
    pub fn rotations(&self) -> (r: (Self, Self, Self))
        ensures
            r.0@ == rotate_ccw_spec(self@),
            r.1@ == reflect180_spec(self@),
            r.2@ == rotate_cw_spec(self@),
    {
        (self.ccw(), self.flip180(), self.cw())
    }

    /// Renders the 8x8 grid as 8 lines of 8 squares, rank 7 printed first
    /// (top) and rank 0 last (bottom), marking each set square with `1` and
    /// each clear square with `.`.
    #[must_use]
    pub fn render(&self) -> (r: String)
        ensures
            r@ == board_text(self@),
    {
        let b = self.0;
        let mut s = String::new();
        let mut line: u64 = 0;
        proof {
            assert(s@ =~= board_lines_text(b, 0));
        }
        while line < 8
            invariant
                b == self@,
                line <= 8,
                s@ == board_lines_text(b, line as int),
            decreases 8 - line,
        {
            let rank = 7 - line;
            let ghost pre = s@;
            let mut file: u64 = 0;
            proof {
                assert(s@ =~= pre + rank_cells_text(b, rank as int, 0));
            }
            while file < 8
                invariant
                    line < 8,
                    rank == 7 - line,
                    file <= 8,
                    s@ == pre + rank_cells_text(b, rank as int, file as int),
                decreases 8 - file,
            {
                let pos = rank * 8 + file;
                if (b >> (63 - pos)) & 1 == 1 {
                    s.append("1 ");
                } else {
                    s.append(". ");
                }
                proof {
                    assert(s@ =~= pre + rank_cells_text(b, rank as int, file as int + 1));
                }
                file = file + 1;
            }
            s.append("\n");
            proof {
                assert(s@ =~= board_lines_text(b, line as int + 1));
            }
            line = line + 1;
        }
        s
    }
}

/// The printed form of one square of rank `rank`: the glyph for its bit,
/// followed by a space.
pub open spec fn cell_text(b: u64, rank: int, file: int) -> Seq<char> {
    if nth_bit(b, (63 - (rank * 8 + file)) as u64) {
        "1 "@
    } else {
        ". "@
    }
}

/// The first `n` printed squares of one rank line.
pub open spec fn rank_cells_text(b: u64, rank: int, n: int) -> Seq<char>
    decreases n,
{
    if n <= 0 {
        Seq::empty()
    } else {
        rank_cells_text(b, rank, n - 1) + cell_text(b, rank, n - 1)
    }
}

/// The first `k` printed lines of a board, rank 7 first.
pub open spec fn board_lines_text(b: u64, k: int) -> Seq<char>
    decreases k,
{
    if k <= 0 {
        Seq::empty()
    } else {
        board_lines_text(b, k - 1) + rank_cells_text(b, 8 - k, 8) + "\n"@
    }
}

/// The full printed board: 8 lines of 8 squares, rank 7 on top.
pub open spec fn board_text(b: u64) -> Seq<char> {
    board_lines_text(b, 8)
}

/// A one-shot cursor over the set bits of a board, highest bit first. Each
/// element is consumed from a diminishing internal copy of the mask; the
/// number of elements still to come is known up front.
pub struct HotBits {
    remaining: u8,
    bitboard: u64,
}

impl HotBits {
    /// The set bits not yet handed out.
    pub closed spec fn mask_spec(self) -> u64 {
        self.bitboard
    }

    /// The count of positions still to come.
    pub closed spec fn remaining_spec(self) -> u8 {
        self.remaining
    }

    /// The advertised count always matches the set bits left in the mask.
    pub open spec fn wf(self) -> bool {
        self.remaining_spec() as nat == popcnt64(self.mask_spec())
    }

    /// How many positions are still to come.
    pub fn len(&self) -> (n: usize)
        ensures
            n == self.remaining_spec(),
    {
        self.remaining as usize
    }

    /// Hands out the highest-order set bit as a single-bit position and
    /// clears it from the internal mask; `None` once the mask is exhausted.
    pub fn next(&mut self) -> (r: Option<Position>)
        requires
            old(self).wf(),
        ensures
            final(self).wf(),
            old(self).mask_spec() == 0 ==> r is None && *final(self) == *old(self),
            old(self).mask_spec() != 0 ==> ({
                let m = msb64(old(self).mask_spec());
                &&& r matches Some(p) && p@ == 1u64 << m && p.wf()
                &&& final(self).mask_spec() == old(self).mask_spec() & !(1u64 << m)
                &&& final(self).remaining_spec() == old(self).remaining_spec() - 1
            }),
    {
        if self.bitboard == 0 {
            None
        } else {
            let bb = self.bitboard;
            proof {
                lemma_nonzero_has_bit(bb);
                lemma_msb(bb);
            }
            let mut j: u64 = 63;
            while (bb >> j) & 1 != 1
                invariant
                    j < 64,
                    bb != 0,
                    exists|t: u64| t <= j && nth_bit(bb, t),
                    forall|k: u64| j < k && k < 64 ==> !nth_bit(bb, k),
                decreases j,
            {
                proof {
                    let t = choose|t: u64| t <= j && nth_bit(bb, t);
                    assert(t < j);
                }
                j = j - 1;
            }
            proof {
                // j carries a set bit with none above it, so it is the msb.
                assert(nth_bit(bb, j));
                let m = msb64(bb);
                if j < m {
                    assert(!nth_bit(bb, m));
                }
                assert(j == m);
                lemma_popcnt_clear(bb, j);
                lemma_popcnt_single(j);
            }
            let position = 1u64 << j;
            self.bitboard = self.bitboard & !position;
            self.remaining = self.remaining - 1;
            Some(Position::new_unchecked(position))
        }
    }
}

} // verus!
