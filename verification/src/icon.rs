//! Layout of the macOS menu bar icon: a wide template image holding the two
//! readout rows, one character per fixed-width cell, so that the figures
//! do not jitter as they change.
use vstd::prelude::*;

use crate::speed::{cap99, format_rows, speed_row, speed_row_is_nine_wide, usage_row};
use crate::text::{chars_of, decimal, int_text, pad_left};

verus! {

/// Backing-store scale of the icon (Retina).
pub const ICON_SCALE: u32 = 2;

/// Icon width in points.
pub const ICON_WIDTH: u32 = 66;

/// Icon height in points.
pub const ICON_HEIGHT: u32 = 20;

/// Icon width in pixels (`ICON_WIDTH * ICON_SCALE`).
pub const ICON_PIXEL_WIDTH: u32 = 132;

/// Icon height in pixels (`ICON_HEIGHT * ICON_SCALE`).
pub const ICON_PIXEL_HEIGHT: u32 = 40;

/// Width of one character cell, in pixels.
pub const GLYPH_CELL: u64 = 14;

/// Left padding before the first cell, in pixels.
pub const GLYPH_LEFT: u64 = 3;

/// Baseline of the upper row, in pixels from the bottom of the image.
pub const TOP_BASELINE: u64 = 22;

/// Baseline of the lower row, in pixels from the bottom of the image.
pub const BOTTOM_BASELINE: u64 = 3;

/// One character to draw, centred in the cell that starts at `cell_x`, on
/// the baseline `baseline` (both in pixels; y grows upward).
#[derive(Clone, Copy, PartialEq, Eq, Debug)]
pub struct GlyphCell {
    pub ch: char,
    pub cell_x: u64,
    pub baseline: u64,
}

/// The glyphs of one row: every character but spaces, the `i`-th in the
/// cell starting at `GLYPH_LEFT + i * GLYPH_CELL`.
pub open spec fn row_glyphs(row: Seq<char>, baseline: u64) -> Seq<GlyphCell>
    decreases row.len(),
{
    if row.len() == 0 {
        Seq::<GlyphCell>::empty()
    } else {
        let rest = row_glyphs(row.drop_last(), baseline);
        if row.last() == ' ' {
            rest
        } else {
            rest.push(
                GlyphCell {
                    ch: row.last(),
                    cell_x: (GLYPH_LEFT + (row.len() - 1) * GLYPH_CELL) as u64,
                    baseline,
                },
            )
        }
    }
}

/// The glyphs of the icon: the usage row on the upper baseline, then the
/// speed row on the lower one.
pub open spec fn icon_layout(cpu: i32, mem: i32, down: u64, up: u64) -> Seq<GlyphCell> {
    row_glyphs(usage_row(cpu as int, mem as int), TOP_BASELINE) + row_glyphs(
        speed_row(down as nat, up as nat),
        BOTTOM_BASELINE,
    )
}

proof fn lemma_row_glyphs_push(row: Seq<char>, baseline: u64, cell: GlyphCell)
    requires
        row.len() > 0,
        row.last() != ' ',
        cell.ch == row.last(),
        cell.cell_x == (GLYPH_LEFT + (row.len() - 1) * GLYPH_CELL) as u64,
        cell.baseline == baseline,
    ensures
        row_glyphs(row, baseline) =~= row_glyphs(row.drop_last(), baseline).push(cell),
{
}

proof fn lemma_row_glyphs_space(row: Seq<char>, baseline: u64)
    requires
        row.len() > 0,
        row.last() == ' ',
    ensures
        row_glyphs(row, baseline) =~= row_glyphs(row.drop_last(), baseline),
{
}

pub open spec fn pow10(k: nat) -> nat
    decreases k,
{
    if k == 0 {
        1
    } else {
        10 * pow10((k - 1) as nat)
    }
}

proof fn lemma_decimal_len_bound(n: nat, k: nat)
    requires
        k >= 1,
        n < pow10(k),
    ensures
        decimal(n).len() <= k,
    decreases n,
{
    if n >= 10 {
        assert(k >= 2) by {
            if k == 1 {
                assert(pow10(1) == 10 * pow10(0));
            }
        }
        assert(pow10(k) == 10 * pow10((k - 1) as nat));
        lemma_decimal_len_bound(n / 10, (k - 1) as nat);
    }
}

proof fn lemma_percent_text_len(x: i32)
    ensures
        pad_left(int_text(cap99(x as int)), 2).len() <= 11,
{
    let c = cap99(x as int);
    assert(pow10(10) == 10000000000) by {
        reveal_with_fuel(pow10, 11);
    }
    if c < 0 {
        lemma_decimal_len_bound((-c) as nat, 10);
    } else {
        lemma_decimal_len_bound(c as nat, 10);
    }
}

proof fn lemma_concat_push(a: Seq<GlyphCell>, b: Seq<GlyphCell>, c: GlyphCell)
    ensures
        (a + b).push(c) =~= a + b.push(c),
{
}

fn push_row_glyphs(out: &mut Vec<GlyphCell>, row: &Vec<char>, baseline: u64)
    requires
        row@.len() <= 1000,
    ensures
        final(out)@ == old(out)@ + row_glyphs(row@, baseline),
{
    let ghost start = out@;
    let mut i: usize = 0;
    assert(row_glyphs(row@.take(0), baseline) =~= Seq::<GlyphCell>::empty());
    assert(out@ =~= start + row_glyphs(row@.take(0), baseline));
    while i < row.len()
        invariant
            i <= row.len() <= 1000,
            out@ == start + row_glyphs(row@.take(i as int), baseline),
        decreases row.len() - i,
    {
        let c = row[i];
        let ghost t = row@.take(i + 1);
        let ghost g = row_glyphs(row@.take(i as int), baseline);
        proof {
            assert(t.drop_last() =~= row@.take(i as int));
            assert(t.last() == c);
        }
        if c != ' ' {
            let cell = GlyphCell { ch: c, cell_x: GLYPH_LEFT + (i as u64) * GLYPH_CELL, baseline };
            proof {
                lemma_row_glyphs_push(t, baseline, cell);
                lemma_concat_push(start, g, cell);
            }
            out.push(cell);
        } else {
            proof {
                lemma_row_glyphs_space(t, baseline);
            }
        }
        i = i + 1;
    }
    assert(row@.take(i as int) =~= row@);
}

/// The glyphs the menu bar icon draws for the given figures.
pub fn icon_glyphs(cpu: i32, mem: i32, down_bps: u64, up_bps: u64) -> (g: Vec<GlyphCell>)
    ensures
        g@ == icon_layout(cpu, mem, down_bps, up_bps),
{
    let (row1, row2) = format_rows(cpu, mem, down_bps, up_bps);
    let upper = chars_of(row1.as_str());
    let lower = chars_of(row2.as_str());
    proof {
        lemma_percent_text_len(cpu);
        lemma_percent_text_len(mem);
        speed_row_is_nine_wide(down_bps as nat, up_bps as nat);
    }
    let mut g: Vec<GlyphCell> = Vec::new();
    push_row_glyphs(&mut g, &upper, TOP_BASELINE);
    push_row_glyphs(&mut g, &lower, BOTTOM_BASELINE);
    assert(g@ =~= icon_layout(cpu, mem, down_bps, up_bps));
    g
}

} // verus!
