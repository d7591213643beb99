//! Which pixels of a bitmap glyph are lit. A glyph is a list of rows,
//! top first; in each row the leftmost of `cols` columns is the highest of
//! the row's low `cols` bits.

use vstd::prelude::*;

verus! {

/// Bit `k` of `bits` is set.
pub open spec fn bit_set(bits: u8, k: u8) -> bool {
    (bits >> k) & 1u8 == 1u8
}

/// Column `col` of a row of `cols` columns is lit.
pub open spec fn pixel_lit(bits: u8, cols: u8, col: u8) -> bool {
    bit_set(bits, (cols - 1 - col) as u8)
}

/// The lit pixels among the first `c` columns of row `row`, left to right.
pub open spec fn lit_in_row(bits: u8, row: usize, cols: u8, c: int) -> Seq<(usize, usize)>
    decreases c,
{
    if c <= 0 {
        Seq::empty()
    } else if pixel_lit(bits, cols, (c - 1) as u8) {
        lit_in_row(bits, row, cols, c - 1).push((row, (c - 1) as usize))
    } else {
        lit_in_row(bits, row, cols, c - 1)
    }
}

/// The lit pixels of the first `r` rows, top to bottom and left to right,
/// as (row, column) pairs.
pub open spec fn lit_pixels(rows: Seq<u8>, cols: u8, r: int) -> Seq<(usize, usize)>
    decreases r,
{
    if r <= 0 {
        Seq::empty()
    } else {
        lit_pixels(rows, cols, r - 1) + lit_in_row(rows[r - 1], (r - 1) as usize, cols, cols as int)
    }
}

/// The lit pixels of a glyph, as (row, column) pairs, top to bottom and
/// left to right.
pub fn glyph_pixels(rows: &Vec<u8>, cols: u8) -> (pixels: Vec<(usize, usize)>)
    requires
        1 <= cols <= 8,
    ensures
        pixels@ == lit_pixels(rows@, cols, rows@.len() as int),
{
    let mut pixels: Vec<(usize, usize)> = Vec::new();
    let mut row: usize = 0;
    while row < rows.len()
        invariant
            1 <= cols <= 8,
            row <= rows@.len(),
            pixels@ == lit_pixels(rows@, cols, row as int),
        decreases rows@.len() - row,
    {
        let bits = rows[row];
        let ghost before = pixels@;
        let mut col: u8 = 0;
        while col < cols
            invariant
                1 <= cols <= 8,
                row < rows@.len(),
                bits == rows@[row as int],
                col <= cols,
                pixels@ == before + lit_in_row(bits, row, cols, col as int),
            decreases cols - col,
        {
            let lit = (bits >> (cols - 1 - col)) & 1 == 1;
            if lit {
                pixels.push((row, col as usize));
            }
            proof {
                assert(pixels@ =~= before + lit_in_row(bits, row, cols, col + 1));
            }
            col = col + 1;
        }
        row = row + 1;
    }
    pixels
}


/// 2 to the power `k`.
pub open spec fn two_to_the(k: nat) -> nat
    decreases k,
{
    if k == 0 {
        1
    } else {
        2 * two_to_the((k - 1) as nat)
    }
}

/// Column `col` of a row of `cols` columns is lit exactly when the row's
/// binary digit of weight 2^(cols - 1 - col) is 1: the leftmost column is
/// the highest of the row's `cols` low bits.
pub proof fn law_pixel_is_a_binary_digit(bits: u8, cols: u8, col: u8)
    requires
        col < cols <= 8,
    ensures
        pixel_lit(bits, cols, col) <==> (bits as int / two_to_the((cols - 1 - col) as nat) as int) % 2 == 1,
{
    let k = (cols - 1 - col) as u8;
    reveal_with_fuel(two_to_the, 8);
    if k == 0 {
        assert(((bits >> 0u8) & 1u8 == 1u8) <==> (bits / 1u8) % 2u8 == 1u8) by (bit_vector);
    } else if k == 1 {
        assert(((bits >> 1u8) & 1u8 == 1u8) <==> (bits / 2u8) % 2u8 == 1u8) by (bit_vector);
    } else if k == 2 {
        assert(((bits >> 2u8) & 1u8 == 1u8) <==> (bits / 4u8) % 2u8 == 1u8) by (bit_vector);
    } else if k == 3 {
        assert(((bits >> 3u8) & 1u8 == 1u8) <==> (bits / 8u8) % 2u8 == 1u8) by (bit_vector);
    } else if k == 4 {
        assert(((bits >> 4u8) & 1u8 == 1u8) <==> (bits / 16u8) % 2u8 == 1u8) by (bit_vector);
    } else if k == 5 {
        assert(((bits >> 5u8) & 1u8 == 1u8) <==> (bits / 32u8) % 2u8 == 1u8) by (bit_vector);
    } else if k == 6 {
        assert(((bits >> 6u8) & 1u8 == 1u8) <==> (bits / 64u8) % 2u8 == 1u8) by (bit_vector);
    } else {
        assert(((bits >> 7u8) & 1u8 == 1u8) <==> (bits / 128u8) % 2u8 == 1u8) by (bit_vector);
    }
}

proof fn lemma_lit_in_row_members(bits: u8, row: usize, cols: u8, c: int, r: usize, cc: usize)
    requires
        0 <= c <= cols <= 8,
    ensures
        lit_in_row(bits, row, cols, c).contains((r, cc)) <==> (r == row && cc < c && pixel_lit(bits, cols, cc as u8)),
    decreases c,
{
    if c > 0 {
        lemma_lit_in_row_members(bits, row, cols, c - 1, r, cc);
        let prev = lit_in_row(bits, row, cols, c - 1);
        if pixel_lit(bits, cols, (c - 1) as u8) {
            let now = prev.push((row, (c - 1) as usize));
            if now.contains((r, cc)) && !prev.contains((r, cc)) {
                let k = choose|k: int| 0 <= k < now.len() && now[k] == (r, cc);
                assert(k == prev.len());
            }
            if prev.contains((r, cc)) {
                let k = choose|k: int| 0 <= k < prev.len() && prev[k] == (r, cc);
                assert(now[k] == (r, cc));
            }
            if r == row && cc == c - 1 {
                assert(now[prev.len() as int] == (r, cc));
            }
        }
    }
}

/// The lit pixels of a glyph are exactly the (row, column) pairs inside
/// the glyph whose binary digit is 1 (see `law_pixel_is_a_binary_digit`).
pub proof fn law_glyph_pixels_are_the_lit_ones(rows: Seq<u8>, cols: u8, n: int, r: usize, c: usize)
    requires
        1 <= cols <= 8,
        0 <= n <= rows.len(),
        rows.len() <= usize::MAX,
    ensures
        lit_pixels(rows, cols, n).contains((r, c)) <==> (r < n && c < cols && pixel_lit(rows[r as int], cols, c as u8)),
    decreases n,
{
    if n > 0 {
        law_glyph_pixels_are_the_lit_ones(rows, cols, n - 1, r, c);
        let prev = lit_pixels(rows, cols, n - 1);
        let row = lit_in_row(rows[n - 1], (n - 1) as usize, cols, cols as int);
        lemma_lit_in_row_members(rows[n - 1], (n - 1) as usize, cols, cols as int, r, c);
        let all = prev + row;
        if all.contains((r, c)) {
            let k = choose|k: int| 0 <= k < all.len() && all[k] == (r, c);
            if k < prev.len() {
                assert(prev[k] == (r, c));
            } else {
                assert(row[k - prev.len()] == (r, c));
            }
        }
        if prev.contains((r, c)) {
            let k = choose|k: int| 0 <= k < prev.len() && prev[k] == (r, c);
            assert(all[k] == (r, c));
        }
        if row.contains((r, c)) {
            let k = choose|k: int| 0 <= k < row.len() && row[k] == (r, c);
            assert(all[prev.len() + k] == (r, c));
        }
    }
}

} // verus!
