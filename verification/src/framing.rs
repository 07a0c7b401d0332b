//! Preparing a screenshot for a vision model: cutting out the area around
//! an OCR box with some context, and tinting the box so that the model sees
//! which text is meant. The box's floating-point corners are rounded to
//! pixels before these functions run.

use vstd::prelude::*;
use crate::image::{byte_index, lemma_byte_index_bounds, lemma_distinct_pixels, shifted_byte, window_copy, Image};

verus! {

/// Context kept on each side of the box, horizontally.
pub const CONTEXT_X: u32 = 60;

/// Context kept above and below the box.
pub const CONTEXT_Y: u32 = 40;

/// Widest crop sent to the model.
pub const MAX_CROP_WIDTH: u32 = 420;

/// Highest crop sent to the model.
pub const MAX_CROP_HEIGHT: u32 = 180;

/// Side of the crop along one axis: the box with its context on both
/// sides, at most `max`, and no more than the screenshot.
pub open spec fn context_side(extent: int, context: int, max: int, source: int) -> int {
    let padded = extent + 2 * context;
    let limited = if padded < max { padded } else { max };
    if limited < source { limited } else { source }
}

/// Start of the crop along one axis: centred on the box, moved back to
/// stay inside the screenshot.
pub open spec fn context_start(start: int, extent: int, side: int, source: int) -> int {
    let center = start + extent / 2;
    let first = if center - side / 2 > 0 { center - side / 2 } else { 0 };
    if first + side > source { source - side } else { first }
}

/// The area around the box `[left, right) x [top, bottom)` of the
/// screenshot, with context, centred on the box and kept inside the
/// screenshot. An empty box gives the whole screenshot.
pub fn crop_around_bounds(source: &Image, left: u32, top: u32, right: u32, bottom: u32) -> (r: Image)
    requires
        source.wf(),
        right <= source.width,
        bottom <= source.height,
    ensures
        (right <= left || bottom <= top) ==> r.width == source.width && r.height == source.height && r.data@
            == source.data@,
        !(right <= left || bottom <= top) ==> {
            let cw = context_side(right - left, CONTEXT_X as int, MAX_CROP_WIDTH as int, source.width as int);
            let ch = context_side(bottom - top, CONTEXT_Y as int, MAX_CROP_HEIGHT as int, source.height as int);
            &&& r.width == cw
            &&& r.height == ch
            &&& r.wf()
            &&& forall|dx: int, dy: int, c: int|
                0 <= dx < cw && 0 <= dy < ch && 0 <= c < 3 ==> #[trigger] r.byte_at(dx, dy, c) == shifted_byte(
                    *source,
                    context_start(left as int, right - left, cw, source.width as int),
                    context_start(top as int, bottom - top, ch, source.height as int),
                    dx,
                    dy,
                    c,
                )
        },
{
    let source_width = source.width;
    let source_height = source.height;
    if right <= left || bottom <= top {
        let data = source.data.clone();
        proof {
            assert(data@ =~= source.data@);
        }
        return Image { width: source_width, height: source_height, data };
    }
    let box_width = right - left;
    let box_height = bottom - top;
    let mut crop_width = box_width.saturating_add(CONTEXT_X * 2);
    if crop_width > MAX_CROP_WIDTH {
        crop_width = MAX_CROP_WIDTH;
    }
    if crop_width > source_width {
        crop_width = source_width;
    }
    let mut crop_height = box_height.saturating_add(CONTEXT_Y * 2);
    if crop_height > MAX_CROP_HEIGHT {
        crop_height = MAX_CROP_HEIGHT;
    }
    if crop_height > source_height {
        crop_height = source_height;
    }
    let center_x = left + box_width / 2;
    let center_y = top + box_height / 2;
    let mut source_left = center_x.saturating_sub(crop_width / 2);
    let mut source_top = center_y.saturating_sub(crop_height / 2);
    if source_left > source_width - crop_width {
        source_left = source_width - crop_width;
    }
    if source_top > source_height - crop_height {
        source_top = source_height - crop_height;
    }
    proof {
        assert(crop_width * crop_height * 3 <= 420 * 180 * 3) by (nonlinear_arith)
            requires
                crop_width <= 420,
                crop_height <= 180,
        ;
    }
    window_copy(source, source_left as i64, source_top as i64, crop_width, crop_height)
}

/// Padding of the highlight around the box, horizontally.
pub const HIGHLIGHT_PAD_X: i32 = 4;

/// Padding of the highlight above and below the box.
pub const HIGHLIGHT_PAD_Y: i32 = 3;

/// Channel `ch` of the highlight colour (255, 220, 40).
pub open spec fn highlight_color(ch: int) -> u8 {
    if ch == 0 {
        255u8
    } else if ch == 1 {
        220u8
    } else {
        40u8
    }
}

/// The highlight colour at 110/255 over the pixel, rounded down.
pub open spec fn highlight_blend(old: u8, color: u8) -> u8 {
    ((old * (255 - 110) + color * 110) / 255) as u8
}

/// The tinted area for a box whose corners were rounded outwards to
/// `(min_x, min_y)` and `(max_x, max_y)`: the box with its padding, cut to
/// the image. Gives `(left, top, right, bottom)`, right and bottom excluded.
pub open spec fn highlight_area(min_x: int, min_y: int, max_x: int, max_y: int, width: int, height: int) -> (
    int,
    int,
    int,
    int,
) {
    let left = if min_x - HIGHLIGHT_PAD_X > 0 { min_x - HIGHLIGHT_PAD_X } else { 0 };
    let top = if min_y - HIGHLIGHT_PAD_Y > 0 { min_y - HIGHLIGHT_PAD_Y } else { 0 };
    let right = if max_x + HIGHLIGHT_PAD_X < width { max_x + HIGHLIGHT_PAD_X } else { width };
    let bottom = if max_y + HIGHLIGHT_PAD_Y < height { max_y + HIGHLIGHT_PAD_Y } else { height };
    (left, top, right, bottom)
}

/// Channel `ch` of pixel `(px, py)` once the area is tinted.
pub open spec fn highlighted_byte(old: Image, area: (int, int, int, int), px: int, py: int, ch: int) -> u8 {
    if area.0 <= px < area.2 && area.1 <= py < area.3 {
        highlight_blend(old.byte_at(px, py, ch), highlight_color(ch))
    } else {
        old.byte_at(px, py, ch)
    }
}

fn blend_highlight(old: u8, color: u8) -> (r: u8)
    ensures
        r == highlight_blend(old, color),
{
    proof {
        assert(old * 145 <= 255 * 145 && color * 110 <= 255 * 110) by (nonlinear_arith);
    }
    ((old as u16 * (255 - 110) + color as u16 * 110) / 255) as u8
}

/// Tints one pixel with the highlight colour.
fn tint_pixel(image: &mut Image, x: usize, y: usize)
    requires
        old(image).wf(),
        x < old(image).width,
        y < old(image).height,
    ensures
        final(image).width == old(image).width,
        final(image).height == old(image).height,
        final(image).wf(),
        forall|px: int, py: int, ch: int|
            0 <= px < old(image).width && 0 <= py < old(image).height && 0 <= ch < 3 ==> #[trigger] final(image).byte_at(px, py, ch) == if px == x && py == y {
                highlight_blend(old(image).byte_at(px, py, ch), highlight_color(ch))
            } else {
                old(image).byte_at(px, py, ch)
            },
{
    let ghost before = *image;
    let ghost w = image.width as int;
    let total = image.data.len();
    proof {
        lemma_byte_index_bounds(w, image.height as int, x as int, y as int, 0);
        lemma_byte_index_bounds(w, image.height as int, x as int, y as int, 2);
        assert(0 <= y * image.width) by (nonlinear_arith)
            requires
                0 <= y,
        ;
    }
    let index = (y * (image.width as usize) + x) * 3;
    let r = blend_highlight(image.data[index], 255);
    let g = blend_highlight(image.data[index + 1], 220);
    let b = blend_highlight(image.data[index + 2], 40);
    image.data.set(index, r);
    image.data.set(index + 1, g);
    image.data.set(index + 2, b);
    proof {
        assert forall|px: int, py: int, ch: int|
            0 <= px < before.width && 0 <= py < before.height && 0 <= ch < 3 implies #[trigger] image.byte_at(px, py, ch)
                == if px == x && py == y {
                highlight_blend(before.byte_at(px, py, ch), highlight_color(ch))
            } else {
                before.byte_at(px, py, ch)
            } by {
            lemma_byte_index_bounds(w, before.height as int, px, py, ch);
            if px == x && py == y {
                assert(byte_index(w, px, py, ch) == index + ch);
            } else {
                lemma_distinct_pixels(w, px, py, ch, x as int, y as int);
            }
        }
    }
}

/// Tints the box whose corners were rounded outwards to `(min_x, min_y)`
/// and `(max_x, max_y)`, with its padding, so that the text stands out;
/// what lies outside the image is skipped.
pub fn highlight_bounds(image: &mut Image, min_x: i32, min_y: i32, max_x: i32, max_y: i32)
    requires
        old(image).wf(),
        old(image).width <= i32::MAX,
        old(image).height <= i32::MAX,
        min_x - HIGHLIGHT_PAD_X >= i32::MIN,
        min_y - HIGHLIGHT_PAD_Y >= i32::MIN,
        max_x + HIGHLIGHT_PAD_X <= i32::MAX,
        max_y + HIGHLIGHT_PAD_Y <= i32::MAX,
    ensures
        final(image).width == old(image).width,
        final(image).height == old(image).height,
        final(image).wf(),
        forall|px: int, py: int, ch: int|
            0 <= px < old(image).width && 0 <= py < old(image).height && 0 <= ch < 3 ==> #[trigger] final(image).byte_at(px, py, ch) == highlighted_byte(
                *old(image),
                highlight_area(
                    min_x as int,
                    min_y as int,
                    max_x as int,
                    max_y as int,
                    old(image).width as int,
                    old(image).height as int,
                ),
                px,
                py,
                ch,
            ),
{
    let ghost initial = *image;
    let ghost area = highlight_area(
        min_x as int,
        min_y as int,
        max_x as int,
        max_y as int,
        image.width as int,
        image.height as int,
    );
    let width = image.width as i32;
    let height = image.height as i32;
    let mut left = min_x - HIGHLIGHT_PAD_X;
    if left < 0 {
        left = 0;
    }
    let mut top = min_y - HIGHLIGHT_PAD_Y;
    if top < 0 {
        top = 0;
    }
    let mut right = max_x + HIGHLIGHT_PAD_X;
    if right > width {
        right = width;
    }
    let mut bottom = max_y + HIGHLIGHT_PAD_Y;
    if bottom > height {
        bottom = height;
    }
    if left >= right || top >= bottom {
        return;
    }
    let mut y: i32 = top;
    while y < bottom
        invariant
            initial.wf(),
            image.wf(),
            image.width == initial.width,
            image.height == initial.height,
            area == (left as int, top as int, right as int, bottom as int),
            0 <= left < right <= initial.width,
            0 <= top < bottom <= initial.height,
            top <= y <= bottom,
            forall|px: int, py: int, ch: int|
                0 <= px < initial.width && 0 <= py < initial.height && 0 <= ch < 3 ==> #[trigger] image.byte_at(
                    px,
                    py,
                    ch,
                ) == highlighted_byte(initial, (left as int, top as int, right as int, y as int), px, py, ch),
        decreases bottom - y,
    {
        let mut x: i32 = left;
        while x < right
            invariant
                initial.wf(),
                image.wf(),
                image.width == initial.width,
                image.height == initial.height,
                0 <= left < right <= initial.width,
                0 <= top <= y < bottom <= initial.height,
                left <= x <= right,
                forall|px: int, py: int, ch: int|
                    0 <= px < initial.width && 0 <= py < initial.height && 0 <= ch < 3 ==> #[trigger] image.byte_at(
                        px,
                        py,
                        ch,
                    ) == if (left <= px < right && top <= py < y) || (py == y && left <= px < x) {
                        highlight_blend(initial.byte_at(px, py, ch), highlight_color(ch))
                    } else {
                        initial.byte_at(px, py, ch)
                    },
            decreases right - x,
        {
            tint_pixel(image, x as usize, y as usize);
            x = x + 1;
        }
        y = y + 1;
    }
}

} // verus!
