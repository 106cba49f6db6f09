//! Build-time generation of the rotation lookup tables: the dense
//! `(row, byte)` tables that let the transform engine rotate a board with
//! eight lookups, and the source text that materializes them as compiled-in
//! constants. The generation is a pure function of the rotation formulas:
//! it produces the same tables on every run.

use vstd::prelude::*;
use vstd::string::StringExecFns;

use crate::rotation::{
    ccw_entry_spec, ccw_row_contribution, cw_entry_spec, cw_row_contribution,
    lemma_ccw_contribution_is_entry, lemma_cw_contribution_is_entry,
};

verus! {

/// Generates the two rotation lookup tables: for each of the 8 row
/// positions and each of the 256 byte values, the 64-bit contribution of
/// that byte occupying that row to the rotated board. Returned as
/// (counterclockwise, clockwise), each with exactly 8 x 256 entries.
pub fn generate_rotation_tables() -> (r: (Vec<Vec<u64>>, Vec<Vec<u64>>))
    ensures
        r.0@.len() == 8,
        r.1@.len() == 8,
        forall|row: int| 0 <= row < 8 ==> (#[trigger] r.0@[row])@.len() == 256,
        forall|row: int| 0 <= row < 8 ==> (#[trigger] r.1@[row])@.len() == 256,
        forall|row: int, byte: int|
            0 <= row < 8 && 0 <= byte < 256 ==> r.0@[row]@[byte] == ccw_entry_spec(
                row as u64,
                byte as u64,
            ),
        forall|row: int, byte: int|
            0 <= row < 8 && 0 <= byte < 256 ==> r.1@[row]@[byte] == cw_entry_spec(
                row as u64,
                byte as u64,
            ),
{
    let mut ccw_table: Vec<Vec<u64>> = Vec::new();
    let mut cw_table: Vec<Vec<u64>> = Vec::new();
    let mut row: u64 = 0;
    while row < 8
        invariant
            row <= 8,
            ccw_table@.len() == row,
            cw_table@.len() == row,
            forall|r2: int| 0 <= r2 < row ==> (#[trigger] ccw_table@[r2])@.len() == 256,
            forall|r2: int| 0 <= r2 < row ==> (#[trigger] cw_table@[r2])@.len() == 256,
            forall|r2: int, b2: int|
                0 <= r2 < row && 0 <= b2 < 256 ==> ccw_table@[r2]@[b2] == ccw_entry_spec(
                    r2 as u64,
                    b2 as u64,
                ),
            forall|r2: int, b2: int|
                0 <= r2 < row && 0 <= b2 < 256 ==> cw_table@[r2]@[b2] == cw_entry_spec(
                    r2 as u64,
                    b2 as u64,
                ),
        decreases 8 - row,
    {
        let mut ccw_row: Vec<u64> = Vec::new();
        let mut cw_row: Vec<u64> = Vec::new();
        let mut byte: u64 = 0;
        while byte < 256
            invariant
                row < 8,
                byte <= 256,
                ccw_row@.len() == byte,
                cw_row@.len() == byte,
                forall|b2: int| 0 <= b2 < byte ==> ccw_row@[b2] == ccw_entry_spec(row, b2 as u64),
                forall|b2: int| 0 <= b2 < byte ==> cw_row@[b2] == cw_entry_spec(row, b2 as u64),
            decreases 256 - byte,
        {
            let ccw_val = ccw_row_contribution(row, byte);
            let cw_val = cw_row_contribution(row, byte);
            proof {
                lemma_ccw_contribution_is_entry(row, byte, ccw_val);
                lemma_cw_contribution_is_entry(row, byte, cw_val);
            }
            ccw_row.push(ccw_val);
            cw_row.push(cw_val);
            byte = byte + 1;
        }
        ccw_table.push(ccw_row);
        cw_table.push(cw_row);
        row = row + 1;
    }
    (ccw_table, cw_table)
}

/// The printed form of one hex digit.
pub open spec fn hex_digit_text(d: u64) -> Seq<char> {
    if d == 0 {
        "0"@
    } else if d == 1 {
        "1"@
    } else if d == 2 {
        "2"@
    } else if d == 3 {
        "3"@
    } else if d == 4 {
        "4"@
    } else if d == 5 {
        "5"@
    } else if d == 6 {
        "6"@
    } else if d == 7 {
        "7"@
    } else if d == 8 {
        "8"@
    } else if d == 9 {
        "9"@
    } else if d == 10 {
        "a"@
    } else if d == 11 {
        "b"@
    } else if d == 12 {
        "c"@
    } else if d == 13 {
        "d"@
    } else if d == 14 {
        "e"@
    } else {
        "f"@
    }
}

/// Hex digit `i` of `v`, counted from the most significant end.
pub open spec fn nibble(v: u64, i: int) -> u64 {
    (v >> (((15 - i) * 4) as u64)) & 0xf
}

/// The first `k` hex digits of the 16-digit rendering of `v`.
pub open spec fn hex_digits_text(v: u64, k: int) -> Seq<char>
    decreases k,
{
    if k <= 0 {
        Seq::empty()
    } else {
        hex_digits_text(v, k - 1) + hex_digit_text(nibble(v, k - 1))
    }
}

/// One table entry as printed: `0x`, 16 hex digits, a comma and a space.
pub open spec fn entry_text(v: u64) -> Seq<char> {
    "0x"@ + hex_digits_text(v, 16) + ", "@
}

/// The first `n` entries of one table row as printed.
pub open spec fn entries_text(t: Seq<u64>, n: int) -> Seq<char>
    decreases n,
{
    if n <= 0 {
        Seq::empty()
    } else {
        entries_text(t, n - 1) + entry_text(t[n - 1])
    }
}

/// One table row as printed: indentation, 256 entries, closing bracket.
pub open spec fn row_text(t: Seq<u64>) -> Seq<char> {
    "    ["@ + entries_text(t, 256) + "],\n"@
}

/// The first `n` rows of a table as printed.
pub open spec fn rows_text(t: Seq<Seq<u64>>, n: int) -> Seq<char>
    decreases n,
{
    if n <= 0 {
        Seq::empty()
    } else {
        rows_text(t, n - 1) + row_text(t[n - 1])
    }
}

/// The counterclockwise table as a mathematical value.
pub open spec fn ccw_table_spec() -> Seq<Seq<u64>> {
    Seq::new(8, |r: int| Seq::new(256, |b: int| ccw_entry_spec(r as u64, b as u64)))
}

/// The clockwise table as a mathematical value.
pub open spec fn cw_table_spec() -> Seq<Seq<u64>> {
    Seq::new(8, |r: int| Seq::new(256, |b: int| cw_entry_spec(r as u64, b as u64)))
}

/// The full generated source text declaring the two table constants.
pub open spec fn rotation_tables_text() -> Seq<char> {
    "pub const CCW_ROTATION_TABLE: [[u64; 256]; 8] = [\n"@ + rows_text(ccw_table_spec(), 8)
        + "];\n\n"@ + "pub const CW_ROTATION_TABLE: [[u64; 256]; 8] = [\n"@ + rows_text(
        cw_table_spec(),
        8,
    ) + "];\n"@
}

/// Appends the 16-hex-digit rendering of `v`.
fn push_hex(s: &mut String, v: u64)
    ensures
        final(s)@ == old(s)@ + hex_digits_text(v, 16),
{
    let mut i: u64 = 0;
    proof {
        assert(s@ =~= old(s)@ + hex_digits_text(v, 0));
    }
    while i < 16
        invariant
            i <= 16,
            s@ == old(s)@ + hex_digits_text(v, i as int),
        decreases 16 - i,
    {
        let d = (v >> ((15 - i) * 4)) & 0xf;
        proof {
            assert(d == nibble(v, i as int));
        }
        if d == 0 {
            s.append("0");
        } else if d == 1 {
            s.append("1");
        } else if d == 2 {
            s.append("2");
        } else if d == 3 {
            s.append("3");
        } else if d == 4 {
            s.append("4");
        } else if d == 5 {
            s.append("5");
        } else if d == 6 {
            s.append("6");
        } else if d == 7 {
            s.append("7");
        } else if d == 8 {
            s.append("8");
        } else if d == 9 {
            s.append("9");
        } else if d == 10 {
            s.append("a");
        } else if d == 11 {
            s.append("b");
        } else if d == 12 {
            s.append("c");
        } else if d == 13 {
            s.append("d");
        } else if d == 14 {
            s.append("e");
        } else {
            s.append("f");
        }
        proof {
            assert(s@ =~= old(s)@ + hex_digits_text(v, i as int + 1));
        }
        i = i + 1;
    }
}

/// Appends one table entry.
fn push_entry(s: &mut String, v: u64)
    ensures
        final(s)@ == old(s)@ + entry_text(v),
{
    s.append("0x");
    push_hex(s, v);
    s.append(", ");
    proof {
        assert(s@ =~= old(s)@ + entry_text(v));
    }
}

/// Appends one printed table row.
fn push_row(s: &mut String, t: &Vec<u64>)
    requires
        t@.len() == 256,
    ensures
        final(s)@ == old(s)@ + row_text(t@),
{
    s.append("    [");
    let mut n: usize = 0;
    proof {
        assert(s@ =~= old(s)@ + "    ["@ + entries_text(t@, 0));
    }
    while n < 256
        invariant
            t@.len() == 256,
            n <= 256,
            s@ == old(s)@ + "    ["@ + entries_text(t@, n as int),
        decreases 256 - n,
    {
        push_entry(s, t[n]);
        proof {
            assert(s@ =~= old(s)@ + "    ["@ + entries_text(t@, n as int + 1));
        }
        n = n + 1;
    }
    s.append("],\n");
    proof {
        assert(s@ =~= old(s)@ + row_text(t@));
    }
}

/// Appends the eight printed rows of a generated table whose entries match
/// `spec_table` row by row.
fn push_rows(s: &mut String, t: &Vec<Vec<u64>>, Ghost(spec_table): Ghost<Seq<Seq<u64>>>)
    requires
        t@.len() == 8,
        spec_table.len() == 8,
        forall|r: int| 0 <= r < 8 ==> (#[trigger] t@[r])@.len() == 256,
        forall|r: int| 0 <= r < 8 ==> (#[trigger] t@[r])@ == spec_table[r],
    ensures
        final(s)@ == old(s)@ + rows_text(spec_table, 8),
{
    let mut r: usize = 0;
    proof {
        assert(s@ =~= old(s)@ + rows_text(spec_table, 0));
    }
    while r < 8
        invariant
            t@.len() == 8,
            spec_table.len() == 8,
            forall|r2: int| 0 <= r2 < 8 ==> (#[trigger] t@[r2])@.len() == 256,
            forall|r2: int| 0 <= r2 < 8 ==> (#[trigger] t@[r2])@ == spec_table[r2],
            r <= 8,
            s@ == old(s)@ + rows_text(spec_table, r as int),
        decreases 8 - r,
    {
        push_row(s, &t[r]);
        proof {
            assert(s@ =~= old(s)@ + rows_text(spec_table, r as int + 1));
        }
        r = r + 1;
    }
}

/// Writes the generated source text for the two rotation table constants:
/// the counterclockwise table first, then the clockwise one, each as a
/// `[[u64; 256]; 8]` constant with one bracketed line per row.
pub fn write_rotation_tables() -> (r: String)
    ensures
        r@ == rotation_tables_text(),
{
    let tables = generate_rotation_tables();
    let ccw_table = tables.0;
    let cw_table = tables.1;
    proof {
        let ghost ccw_spec = ccw_table_spec();
        let ghost cw_spec = cw_table_spec();
        assert forall|r2: int| 0 <= r2 < 8 implies (#[trigger] ccw_table@[r2])@ == ccw_spec[r2] by {
            assert(ccw_table@[r2]@ =~= ccw_spec[r2]);
        }
        assert forall|r2: int| 0 <= r2 < 8 implies (#[trigger] cw_table@[r2])@ == cw_spec[r2] by {
            assert(cw_table@[r2]@ =~= cw_spec[r2]);
        }
    }
    let mut result = String::new();
    result.append("pub const CCW_ROTATION_TABLE: [[u64; 256]; 8] = [\n");
    push_rows(&mut result, &ccw_table, Ghost(ccw_table_spec()));
    result.append("];\n\n");
    result.append("pub const CW_ROTATION_TABLE: [[u64; 256]; 8] = [\n");
    push_rows(&mut result, &cw_table, Ghost(cw_table_spec()));
    result.append("];\n");
    proof {
        assert(result@ =~= rotation_tables_text());
    }
    result
}

} // verus!
