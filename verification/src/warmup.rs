//! The synthetic screen used to warm up the recognition engine: dark text
//! in a 5x7 pixel font, scaled three times, repeated along rows on a light
//! background, like a dense terminal. Text detectors do not see stripes or
//! boxes as text, so letter shapes are needed to exercise both models.

use vstd::prelude::*;
use crate::image::{byte_index, lemma_raster_before, lemma_row_end, Image};

verus! {

/// The phrase repeated along every row.
pub const PHRASE: [char; 32] = [
    'S', 'A', 'M', 'P', 'L', 'E', ' ', 'T', 'E', 'X', 'T', ' ', 'O', 'C', 'R', ' ', 'W', 'A', 'R', 'M', 'U',
    'P', ' ', 'M', 'A', 'I', 'N', ' ', 'I', 'D', 'E', 'A',
];

/// The letters the font has.
pub const GLYPH_CHARS: [char; 17] = [
    'A', 'C', 'D', 'E', 'H', 'I', 'L', 'M', 'N', 'O', 'P', 'R', 'S', 'T', 'U', 'W', 'X',
];

/// The 5x7 glyphs of those letters: seven rows from the top, the five
/// columns as the bits 4 (left) to 0 (right).
pub const GLYPH_ROWS: [[u8; 7]; 17] = [
    [0x0E, 0x11, 0x11, 0x1F, 0x11, 0x11, 0x11],
    [0x0E, 0x11, 0x10, 0x10, 0x10, 0x11, 0x0E],
    [0x1E, 0x11, 0x11, 0x11, 0x11, 0x11, 0x1E],
    [0x1F, 0x10, 0x10, 0x1E, 0x10, 0x10, 0x1F],
    [0x11, 0x11, 0x11, 0x1F, 0x11, 0x11, 0x11],
    [0x0E, 0x04, 0x04, 0x04, 0x04, 0x04, 0x0E],
    [0x10, 0x10, 0x10, 0x10, 0x10, 0x10, 0x1F],
    [0x11, 0x1B, 0x15, 0x15, 0x11, 0x11, 0x11],
    [0x11, 0x19, 0x15, 0x13, 0x11, 0x11, 0x11],
    [0x0E, 0x11, 0x11, 0x11, 0x11, 0x11, 0x0E],
    [0x1E, 0x11, 0x11, 0x1E, 0x10, 0x10, 0x10],
    [0x1E, 0x11, 0x11, 0x1E, 0x14, 0x12, 0x11],
    [0x0F, 0x10, 0x10, 0x0E, 0x01, 0x01, 0x1E],
    [0x1F, 0x04, 0x04, 0x04, 0x04, 0x04, 0x04],
    [0x11, 0x11, 0x11, 0x11, 0x11, 0x11, 0x0E],
    [0x11, 0x11, 0x11, 0x15, 0x15, 0x15, 0x0A],
    [0x11, 0x11, 0x0A, 0x04, 0x0A, 0x11, 0x11],
];

/// Colour of the background.
pub const BACKGROUND: u8 = 252;

/// Colour of the text.
pub const INK: u8 = 30;

/// The position of the first entry from `i` on in the font for `c`.
pub open spec fn glyph_index_from(c: char, i: int) -> Option<int>
    decreases 17 - i,
{
    if i < 0 || i >= 17 {
        None
    } else if GLYPH_CHARS@[i] == c {
        Some(i)
    } else {
        glyph_index_from(c, i + 1)
    }
}

/// A size less the 36-pixel margin, or 0 (`saturating_sub(36)`).
pub open spec fn inner_limit(n: int) -> int {
    if n >= 36 {
        n - 36
    } else {
        0
    }
}

/// Top of text row `k`.
pub open spec fn row_top(k: int, row_step: int) -> int {
    36 + k * row_step
}

/// Row `k` is drawn: its 21 pixels of height end inside the margin.
pub open spec fn row_drawn(k: int, row_step: int, height: int) -> bool {
    row_top(k, row_step) + 21 <= inner_limit(height)
}

/// Character cell `j` of a row (24 pixels: five dot columns and three of
/// spacing, three pixels each) is drawn: it ends inside the margin.
pub open spec fn cell_drawn(j: int, width: int) -> bool {
    36 + 24 * j + 24 <= inner_limit(width)
}

/// Column `column` (0 on the left) of a glyph row holds a dot.
pub open spec fn dot_set(bits: u8, column: u32) -> bool {
    bits & (1u8 << (4 - column) as u8) != 0
}

/// Text row `k` puts a dot of glyph `g`, column `column`, on pixel row `py`.
pub open spec fn row_hit(k: int, row_step: int, height: int, py: int, g: int, column: u32) -> bool {
    &&& row_drawn(k, row_step, height)
    &&& row_top(k, row_step) <= py < row_top(k, row_step) + 21
    &&& dot_set(GLYPH_ROWS@[g]@[(py - row_top(k, row_step)) / 3], column)
}

/// Pixel `(px, py)` is ink: it lies in the 3x3 block of a dot of the
/// glyph of a drawn cell in a drawn row. The cell of column `px` is
/// `(px - 36) / 24`, its character the phrase's character at that position
/// (the phrase repeats), the dot column the offset in the cell divided by
/// three (offsets 15 to 23 are spacing).
pub open spec fn ink_pixel(width: int, height: int, row_step: int, px: int, py: int) -> bool {
    let j = (px - 36) / 24;
    let offset = (px - 36) % 24;
    let c = PHRASE@[j % 32];
    &&& px >= 36
    &&& offset < 15
    &&& cell_drawn(j, width)
    &&& c != ' '
    &&& glyph_index_from(c, 0) is Some
    &&& exists|k: int| 0 <= k && #[trigger] row_hit(k, row_step, height, py, glyph_index_from(c, 0)->0, (offset / 3) as u32)
}

proof fn lemma_glyph_index_from(c: char, i: int)
    requires
        0 <= i,
    ensures
        glyph_index_from(c, i) matches Some(g) ==> i <= g < 17 && GLYPH_CHARS@[g] == c,
        glyph_index_from(c, i) is None ==> forall|m: int| i <= m < 17 ==> GLYPH_CHARS@[m] != c,
    decreases 17 - i,
{
    if i < 17 && GLYPH_CHARS@[i] != c {
        lemma_glyph_index_from(c, i + 1);
    }
}

/// The font entry of a character (`GLYPHS.iter().find(..)`).
fn glyph_index(c: char) -> (r: Option<usize>)
    ensures
        match r {
            Some(g) => glyph_index_from(c, 0) == Some(g as int),
            None => glyph_index_from(c, 0) is None,
        },
{
    let mut i: usize = 0;
    while i < 17
        invariant
            i <= 17,
            glyph_index_from(c, 0) == glyph_index_from(c, i as int),
        decreases 17 - i,
    {
        if GLYPH_CHARS[i] == c {
            return Some(i);
        }
        i = i + 1;
    }
    None
}

proof fn lemma_row_top_monotone(k1: int, k2: int, row_step: int)
    requires
        0 <= k1 <= k2,
        row_step > 0,
    ensures
        row_top(k1, row_step) <= row_top(k2, row_step),
        k1 < k2 ==> row_top(k1, row_step) + row_step <= row_top(k2, row_step),
{
    assert(k1 * row_step <= k2 * row_step) by (nonlinear_arith)
        requires
            k1 <= k2,
            row_step > 0,
    ;
    if k1 < k2 {
        assert(k1 * row_step + row_step <= k2 * row_step) by (nonlinear_arith)
            requires
                k1 < k2,
                row_step > 0,
        ;
    }
}

/// Whether a pixel of the synthetic screen is ink.
#[verifier::loop_isolation(false)]
fn is_ink(width: u32, height: u32, row_step: u32, px: u32, py: u32) -> (r: bool)
    requires
        row_step > 0,
        px < width,
        py < height,
    ensures
        r == ink_pixel(width as int, height as int, row_step as int, px as int, py as int),
{
    if px < 36 {
        return false;
    }
    let j = (px - 36) / 24;
    let offset = (px - 36) % 24;
    if offset >= 15 {
        return false;
    }
    let width_limit: u64 = if width >= 36 { (width - 36) as u64 } else { 0 };
    if 36 + 24 * (j as u64) + 24 > width_limit {
        return false;
    }
    let c = PHRASE[(j % 32) as usize];
    if c == ' ' {
        return false;
    }
    let g = match glyph_index(c) {
        Some(g) => g,
        None => {
            return false;
        },
    };
    proof {
        lemma_glyph_index_from(c, 0);
    }
    let column = offset / 3;
    let height_limit: u64 = if height >= 36 { (height - 36) as u64 } else { 0 };
    let ghost step = row_step as int;
    let mut top: u64 = 36;
    let ghost mut k: int = 0;
    loop
        invariant
            0 <= k,
            row_step > 0,
            step == row_step,
            g < 17,
            column < 5,
            top == row_top(k, step),
            top <= py + row_step as u64 + 36,
            height_limit == inner_limit(height as int),
            py < height,
            forall|m: int| 0 <= m < k ==> !#[trigger] row_hit(m, step, height as int, py as int, g as int, column),
        decreases py as int + 1 + row_step as int - top,
    {
        if top + 21 > height_limit || top > py as u64 {
            proof {
                assert forall|m: int| 0 <= m implies !#[trigger] row_hit(m, step, height as int, py as int, g as int, column) by {
                    if m >= k {
                        lemma_row_top_monotone(k, m, step);
                    }
                }
            }
            return false;
        }
        if (py as u64) < top + 21 {
            let r = ((py as u64 - top) / 3) as usize;
            let bits = GLYPH_ROWS[g][r];
            if bits & (1u8 << (4 - column) as u8) != 0 {
                assert(row_hit(k, step, height as int, py as int, g as int, column));
                return true;
            }
        }
        proof {
            assert(!row_hit(k, step, height as int, py as int, g as int, column));
            assert((k + 1) * step == k * step + step) by (nonlinear_arith);
        }
        top = top + row_step as u64;
        proof {
            k = k + 1;
        }
    }
}


/// The colour of a pixel of the synthetic screen.
pub open spec fn synthetic_byte(width: int, height: int, row_step: int, x: int, y: int) -> u8 {
    if ink_pixel(width, height, row_step, x, y) {
        INK
    } else {
        BACKGROUND
    }
}

/// A `width` x `height` screen of text rows starting every `row_step`
/// pixels, each filled with the phrase as far as the 36-pixel margins
/// allow: ink (30) on the dots of the glyphs, background (252) elsewhere.
pub fn synthetic_text_image(width: u32, height: u32, row_step: u32) -> (r: Image)
    requires
        row_step > 0,
        height + row_step <= u32::MAX,
        width * height * 3 <= usize::MAX,
    ensures
        r.width == width,
        r.height == height,
        r.wf(),
        forall|x: int, y: int, ch: int|
            0 <= x < width && 0 <= y < height && 0 <= ch < 3 ==> #[trigger] r.byte_at(x, y, ch) == synthetic_byte(
                width as int,
                height as int,
                row_step as int,
                x,
                y,
            ),
{
    let ghost wi = width as int;
    let mut data: Vec<u8> = Vec::new();
    let mut y: u32 = 0;
    while y < height
        invariant
            row_step > 0,
            wi == width,
            y <= height,
            data@.len() == byte_index(wi, 0, y as int, 0),
            forall|xx: int, yy: int, ch: int|
                0 <= xx < wi && 0 <= yy < y && 0 <= ch < 3 ==> data@[#[trigger] byte_index(wi, xx, yy, ch)]
                    == synthetic_byte(wi, height as int, row_step as int, xx, yy),
        decreases height - y,
    {
        let mut x: u32 = 0;
        while x < width
            invariant
                row_step > 0,
                wi == width,
                y < height,
                x <= width,
                data@.len() == byte_index(wi, x as int, y as int, 0),
                forall|xx: int, yy: int, ch: int|
                    0 <= xx < wi && 0 <= ch < 3 && (0 <= yy < y || (yy == y && 0 <= xx < x)) ==> data@[#[trigger] byte_index(wi, xx, yy, ch)]
                        == synthetic_byte(wi, height as int, row_step as int, xx, yy),
            decreases width - x,
        {
            let value = if is_ink(width, height, row_step, x, y) { INK } else { BACKGROUND };
            let ghost prev = data@;
            data.push(value);
            data.push(value);
            data.push(value);
            proof {
                assert forall|xx: int, yy: int, ch: int|
                    0 <= xx < wi && 0 <= ch < 3 && (0 <= yy < y || (yy == y && 0 <= xx < x + 1)) implies data@[#[trigger] byte_index(wi, xx, yy, ch)]
                        == synthetic_byte(wi, height as int, row_step as int, xx, yy) by {
                    if !(yy == y && xx == x) {
                        lemma_raster_before(wi, xx, yy, ch, x as int, y as int);
                        assert(data@[byte_index(wi, xx, yy, ch)] == prev[byte_index(wi, xx, yy, ch)]);
                    }
                }
            }
            x = x + 1;
        }
        proof {
            lemma_row_end(wi, y as int);
        }
        y = y + 1;
    }
    proof {
        assert(byte_index(wi, 0, height as int, 0) == width * height * 3) by (nonlinear_arith)
            requires
                wi == width,
        ;
    }
    Image { width, height, data }
}

/// The warm-up screen: the size and density of a real recognition area
/// (1440 x 900, a text row every 34 pixels).
pub fn synthetic_warmup_image() -> (r: Image)
    ensures
        r.width == 1440,
        r.height == 900,
        r.wf(),
        forall|x: int, y: int, ch: int|
            0 <= x < 1440 && 0 <= y < 900 && 0 <= ch < 3 ==> #[trigger] r.byte_at(x, y, ch) == synthetic_byte(1440, 900, 34, x, y),
{
    synthetic_text_image(1440, 900, 34)
}

} // verus!
