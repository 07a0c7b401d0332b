//! RGB images and the pixel operations of the lookup pipeline: validated
//! construction, cropping a region, cropping around a click, nearest
//! neighbour upscaling, click marker and highlight drawing, conversion of
//! captured BGRA frames, and PNG encoding.
//!
//! An image stores `width * height` pixels row by row, three bytes (R, G, B)
//! per pixel.

use vstd::prelude::*;
use ::image::ImageEncoder;

verus! {

/// `u32::saturating_mul`: the product, or `u32::MAX` when it does not fit.
pub assume_specification[ u32::saturating_mul ](a: u32, b: u32) -> (r: u32)
    ensures
        r == if a * b > u32::MAX { u32::MAX as int } else { a * b },
;

/// An RGB image: `data` holds `width * height * 3` bytes, row by row.
#[derive(Clone, Debug)]
pub struct Image {
    pub width: u32,
    pub height: u32,
    pub data: Vec<u8>,
}

/// Position of channel `ch` of pixel `(x, y)` in an image `width` pixels wide.
pub open spec fn byte_index(width: int, x: int, y: int, ch: int) -> int {
    (y * width + x) * 3 + ch
}

/// Position `j` of row `r` in a buffer whose rows are `stride` bytes long.
pub open spec fn row_byte(r: int, j: int, stride: int) -> int {
    r * stride + j
}

impl Image {
    /// The buffer holds exactly three bytes for every pixel.
    pub open spec fn wf(&self) -> bool {
        self.data@.len() == self.width * self.height * 3
    }

    /// Channel `ch` of pixel `(x, y)`.
    pub open spec fn byte_at(&self, x: int, y: int, ch: int) -> u8 {
        self.data@[byte_index(self.width as int, x, y, ch)]
    }

    /// Builds an image from an RGB buffer, which must hold exactly
    /// `width * height * 3` bytes.
    pub fn new(width: u32, height: u32, data: Vec<u8>) -> (r: Result<Image, String>)
        requires
            width * height * 3 <= usize::MAX,
        ensures
            r is Ok <==> data@.len() == width * height * 3,
            r matches Ok(image) ==> image.width == width && image.height == height && image.data
                == data && image.wf(),
            r matches Err(message) ==> message@ == buffer_size_message(
                (width * height * 3) as nat,
                data@.len(),
            ),
    {
        proof {
            lemma_mul_fits(width as int, height as int);
        }
        let expected_len = width as usize * height as usize * 3;
        if data.len() != expected_len {
            return Err(size_message(expected_len, data.len()));
        }
        Ok(Image { width, height, data })
    }

    /// Three bytes per pixel.
    pub fn bytes_per_pixel() -> (r: usize)
        ensures
            r == 3,
    {
        3
    }

    /// Size of the buffer in bytes.
    pub fn len(&self) -> (r: usize)
        ensures
            r == self.data@.len(),
    {
        self.data.len()
    }

    /// Whether the buffer is empty.
    pub fn is_empty(&self) -> (r: bool)
        ensures
            r == (self.data@.len() == 0),
    {
        self.data.len() == 0
    }
}

/// The decimal digits of a number, as `u128::to_string` writes them: the
/// digits from the most significant on, without leading zeros ("0" for 0).
pub open spec fn decimal(n: nat) -> Seq<char>
    decreases n,
{
    if n < 10 {
        seq![('0' as int + n) as char]
    } else {
        decimal(n / 10).push(('0' as int + n % 10) as char)
    }
}

/// `u128::to_string`: the decimal representation of the number.
#[verifier::external_body]
pub(crate) fn decimal_string(n: u128) -> (r: String)
    ensures
        r@ == decimal(n as nat),
{
    n.to_string()
}

/// "Invalid RGB buffer size: expected {expected}, got {got}".
pub open spec fn buffer_size_message(expected: nat, got: nat) -> Seq<char> {
    "Invalid RGB buffer size: expected "@ + decimal(expected) + ", got "@ + decimal(got)
}

fn size_message(expected: usize, got: usize) -> (r: String)
    ensures
        r@ == buffer_size_message(expected as nat, got as nat),
{
    let mut message = String::new();
    message.push_str("Invalid RGB buffer size: expected ");
    message.push_str(decimal_string(expected as u128).as_str());
    message.push_str(", got ");
    message.push_str(decimal_string(got as u128).as_str());
    message
}

proof fn lemma_mul_fits(a: int, b: int)
    requires
        0 <= a,
        0 <= b,
        a * b * 3 <= usize::MAX,
    ensures
        a * b <= usize::MAX,
        a * b * 3 == (a * b) * 3,
{
    assert(a * b <= a * b * 3) by (nonlinear_arith)
        requires
            0 <= a,
            0 <= b,
    ;
}

/// Pixel `(x, y)` with `x < width` and `y < height` has its three bytes in
/// the buffer.
pub proof fn lemma_byte_index_bounds(width: int, height: int, x: int, y: int, ch: int)
    requires
        0 <= x < width,
        0 <= y < height,
        0 <= ch < 3,
    ensures
        0 <= byte_index(width, x, y, ch) < width * height * 3,
        byte_index(width, x, y, ch) == row_byte(y, x * 3 + ch, width * 3),
{
    assert(0 <= (y * width + x) * 3 + ch < width * height * 3) by (nonlinear_arith)
        requires
            0 <= x < width,
            0 <= y < height,
            0 <= ch < 3,
    ;
    assert((y * width + x) * 3 + ch == y * (width * 3) + (x * 3 + ch)) by (nonlinear_arith);
}

/// Byte `j` of row `r` of a buffer with `rows` rows of `stride` bytes is in the buffer.
proof fn lemma_row_byte_bounds(r: int, j: int, stride: int, rows: int)
    requires
        0 <= r < rows,
        0 <= j < stride,
    ensures
        0 <= row_byte(r, j, stride) < rows * stride,
        0 <= r * stride <= row_byte(r, j, stride),
        row_byte(r + 1, 0, stride) == row_byte(r, stride, stride),
{
    assert(0 <= r * stride + j < rows * stride) by (nonlinear_arith)
        requires
            0 <= r < rows,
            0 <= j < stride,
    ;
    assert(0 <= r * stride) by (nonlinear_arith)
        requires
            0 <= r,
            0 <= j < stride,
    ;
    assert((r + 1) * stride == r * stride + stride) by (nonlinear_arith);
}

/// A rectangular area of an image: its top-left corner and its size.
#[derive(Clone, Copy, Debug)]
pub struct Region {
    pub x: i32,
    pub y: i32,
    pub width: u32,
    pub height: u32,
}

impl Region {
    pub fn new(x: i32, y: i32, width: u32, height: u32) -> (r: Region)
        ensures
            r.x == x,
            r.y == y,
            r.width == width,
            r.height == height,
    {
        Region { x, y, width, height }
    }
}

/// Why a region cannot be cut out of an image.
#[derive(Debug)]
pub enum CropError {
    /// The region reaches outside the image.
    OutOfBounds,
    /// The region has no width or no height.
    EmptyRegion,
    /// The cut-out buffer was refused by `Image::new`.
    InvalidImage(String),
}

/// The region lies entirely inside an image of the given size.
pub open spec fn region_inside(region: Region, width: int, height: int) -> bool {
    &&& region.x >= 0
    &&& region.y >= 0
    &&& region.x + region.width <= width
    &&& region.y + region.height <= height
}

/// `out` is the part of `image` covered by `region`, pixel for pixel.
pub open spec fn is_region_of(out: Image, image: Image, region: Region) -> bool {
    &&& out.width == region.width
    &&& out.height == region.height
    &&& out.wf()
    &&& forall|r: int, c: int, ch: int|
        0 <= r < region.height && 0 <= c < region.width && 0 <= ch < 3 ==> #[trigger] out.byte_at(c, r, ch)
            == image.byte_at(region.x + c, region.y + r, ch)
}

/// Cuts `region` out of the image. An empty region and a region reaching
/// outside the image are refused.
pub fn crop(image: &Image, region: Region) -> (r: Result<Image, CropError>)
    requires
        image.wf(),
    ensures
        (region.width == 0 || region.height == 0) <==> r matches Err(CropError::EmptyRegion),
        (region.width != 0 && region.height != 0 && !region_inside(region, image.width as int, image.height as int))
            <==> r matches Err(CropError::OutOfBounds),
        !(r matches Err(CropError::InvalidImage(_))),
        r matches Ok(out) ==> is_region_of(out, *image, region),
{
    if region.width == 0 || region.height == 0 {
        return Err(CropError::EmptyRegion);
    }
    let x = region.x as i64;
    let y = region.y as i64;
    let right = x + region.width as i64;
    let bottom = y + region.height as i64;
    let image_width = image.width as i64;
    let image_height = image.height as i64;
    if x < 0 || y < 0 || right > image_width || bottom > image_height {
        return Err(CropError::OutOfBounds);
    }
    let width = region.width as usize;
    let height = region.height as usize;
    let xs = region.x as usize;
    let ys = region.y as usize;
    let bytes_per_pixel = Image::bytes_per_pixel();
    let total = image.data.len();
    let ghost ih = image.height as int;
    proof {
        assert(image.width * 3 <= image.width * image.height * 3) by (nonlinear_arith)
            requires
                image.height >= 1,
        ;
    }
    let source_stride = image.width as usize * bytes_per_pixel;
    let cropped_stride = width * bytes_per_pixel;
    proof {
        assert(width * height * 3 <= image.width * image.height * 3) by (nonlinear_arith)
            requires
                width <= image.width,
                height <= image.height,
        ;
        assert(image.width * image.height * 3 == ih * source_stride) by (nonlinear_arith)
            requires
                source_stride == image.width * 3,
                ih == image.height,
        ;
        assert(height * cropped_stride == width * height * 3) by (nonlinear_arith)
            requires
                cropped_stride == width * 3,
        ;
    }
    let mut data: Vec<u8> = Vec::new();
    let mut row: usize = 0;
    while row < height
        invariant
            image.wf(),
            width == region.width,
            height == region.height,
            width > 0,
            xs == region.x,
            ys == region.y,
            xs + width <= image.width,
            ys + height <= image.height,
            ih == image.height,
            source_stride == image.width * 3,
            cropped_stride == width * 3,
            image.data@.len() == ih * source_stride,
            total == image.data@.len(),
            bytes_per_pixel == 3,
            height * cropped_stride == width * height * 3,
            row <= height,
            data@.len() == row * cropped_stride,
            forall|r: int, j: int|
                0 <= r < row && 0 <= j < cropped_stride ==> data@[#[trigger] row_byte(r, j, cropped_stride as int)]
                    == image.data@[row_byte(ys + r, xs * 3 + j, source_stride as int)],
        decreases height - row,
    {
        proof {
            lemma_row_byte_bounds(row as int, 0, cropped_stride as int, height as int);
            lemma_row_byte_bounds((ys + row) as int, xs * 3, source_stride as int, ih);
        }
        let source_start = (ys + row) * source_stride + xs * bytes_per_pixel;
        let ghost prev = data@;
        let mut j: usize = 0;
        while j < cropped_stride
            invariant
                image.wf(),
                row < height,
                width > 0,
                xs + width <= image.width,
                ys + height <= image.height,
                source_stride == image.width * 3,
                cropped_stride == width * 3,
                image.data@.len() == ih * source_stride,
                total == image.data@.len(),
                ih == image.height,
                source_start == row_byte((ys + row) as int, xs * 3, source_stride as int),
                j <= cropped_stride,
                prev.len() == row * cropped_stride,
                data@.len() == row * cropped_stride + j,
                data@.subrange(0, row * cropped_stride) == prev,
                forall|jj: int|
                    0 <= jj < j ==> data@[#[trigger] row_byte(row as int, jj, cropped_stride as int)] == image.data@[row_byte(ys + row, xs * 3 + jj, source_stride as int)],
            decreases cropped_stride - j,
        {
            proof {
                lemma_row_byte_bounds((ys + row) as int, xs * 3 + j, source_stride as int, ih);
            }
            data.push(image.data[source_start + j]);
            proof {
                assert(data@.subrange(0, row * cropped_stride) == prev);
            }
            j = j + 1;
        }
        proof {
            assert forall|r: int, jj: int|
                0 <= r < row + 1 && 0 <= jj < cropped_stride implies data@[#[trigger] row_byte(r, jj, cropped_stride as int)]
                    == image.data@[row_byte(ys + r, xs * 3 + jj, source_stride as int)] by {
                lemma_row_byte_bounds(r, jj, cropped_stride as int, height as int);
                if r < row {
                    lemma_row_byte_bounds(r, jj, cropped_stride as int, row as int);
                    assert(data@[row_byte(r, jj, cropped_stride as int)] == prev[row_byte(r, jj, cropped_stride as int)]);
                }
            }
            lemma_row_byte_bounds(row as int, 0, cropped_stride as int, height as int);
        }
        row = row + 1;
    }
    let out = Image::new(region.width, region.height, data);
    match out {
        Ok(out) => {
            proof {
                assert forall|r: int, c: int, ch: int|
                    0 <= r < region.height && 0 <= c < region.width && 0 <= ch < 3 implies #[trigger] out.byte_at(c, r, ch)
                        == image.byte_at(region.x + c, region.y + r, ch) by {
                    lemma_byte_index_bounds(width as int, height as int, c, r, ch);
                    lemma_byte_index_bounds(image.width as int, ih, xs + c, ys + r, ch);
                    assert(xs * 3 + (c * 3 + ch) == (xs + c) * 3 + ch);
                    assert(data@[row_byte(r, c * 3 + ch, cropped_stride as int)] == image.data@[row_byte(ys + r, xs * 3 + (c * 3 + ch), source_stride as int)]);
                }
            }
            Ok(out)
        },
        Err(message) => Err(CropError::InvalidImage(message)),
    }
}

/// Cuts a region out of the image, or gives an empty 0x0 image when the
/// region cannot be cut out.
pub fn crop_region(image: &Image, region: Region) -> (r: Image)
    requires
        image.wf(),
    ensures
        (region.width != 0 && region.height != 0 && region_inside(region, image.width as int, image.height as int))
            ==> is_region_of(r, *image, region),
        !(region.width != 0 && region.height != 0 && region_inside(region, image.width as int, image.height as int))
            ==> r.width == 0 && r.height == 0 && r.data@.len() == 0,
{
    match crop(image, region) {
        Ok(out) => out,
        Err(_) => Image { width: 0, height: 0, data: Vec::new() },
    }
}


/// Channel bytes of raster-earlier pixels come before those of later pixels.
pub proof fn lemma_raster_before(w: int, x1: int, y1: int, c: int, x2: int, y2: int)
    requires
        0 <= x1 < w,
        0 <= c < 3,
        0 <= y1,
        0 <= x2,
        y1 < y2 || (y1 == y2 && x1 < x2),
    ensures
        0 <= byte_index(w, x1, y1, c) < byte_index(w, x2, y2, 0),
{
    if y1 < y2 {
        assert((y1 * w + x1) * 3 + c < (y2 * w + x2) * 3) by (nonlinear_arith)
            requires
                0 <= x1 < w,
                0 <= c < 3,
                0 <= y1 < y2,
                0 <= x2,
        ;
    }
    assert(0 <= (y1 * w + x1) * 3 + c) by (nonlinear_arith)
        requires
            0 <= x1 < w,
            0 <= c < 3,
            0 <= y1,
    ;
}

/// The end of a row is the start of the next one.
pub proof fn lemma_row_end(w: int, y: int)
    ensures
        byte_index(w, w, y, 0) == byte_index(w, 0, y + 1, 0),
{
    assert((y * w + w) * 3 == ((y + 1) * w + 0) * 3) by (nonlinear_arith);
}

/// Channel `ch` of the pixel at `(dx, dy)` of a crop whose top-left corner
/// lies at `(left, top)` of `source`: the source pixel there, or black
/// where the crop reaches outside the source.
pub open spec fn shifted_byte(source: Image, left: int, top: int, dx: int, dy: int, ch: int) -> u8 {
    let sx = left + dx;
    let sy = top + dy;
    if sx < 0 || sy < 0 || sx >= source.width || sy >= source.height {
        0u8
    } else {
        source.byte_at(sx, sy, ch)
    }
}

/// A `crop_width` x `crop_height` image centred on the click; parts outside
/// the source are black.
pub fn crop_around_point(source: &Image, click_x: i32, click_y: i32, crop_width: u32, crop_height: u32) -> (r: Image)
    requires
        source.wf(),
        source.width <= i32::MAX,
        source.height <= i32::MAX,
        crop_width <= i32::MAX,
        crop_height <= i32::MAX,
        crop_width * crop_height * 3 <= usize::MAX,
        i32::MIN <= click_x - crop_width / 2,
        click_x - crop_width / 2 + crop_width <= i32::MAX,
        i32::MIN <= click_y - crop_height / 2,
        click_y - crop_height / 2 + crop_height <= i32::MAX,
    ensures
        r.width == crop_width,
        r.height == crop_height,
        r.wf(),
        forall|dx: int, dy: int, ch: int|
            0 <= dx < crop_width && 0 <= dy < crop_height && 0 <= ch < 3 ==> #[trigger] r.byte_at(dx, dy, ch)
                == shifted_byte(*source, click_x - crop_width / 2, click_y - crop_height / 2, dx, dy, ch),
{
    let left = click_x as i64 - (crop_width / 2) as i64;
    let top = click_y as i64 - (crop_height / 2) as i64;
    window_copy(source, left, top, crop_width, crop_height)
}

/// A `crop_width` x `crop_height` window of the source whose top-left
/// corner lies at `(left, top)`; parts outside the source are black.
pub fn window_copy(source: &Image, left: i64, top: i64, crop_width: u32, crop_height: u32) -> (r: Image)
    requires
        source.wf(),
        crop_width * crop_height * 3 <= usize::MAX,
        left + crop_width <= i64::MAX,
        top + crop_height <= i64::MAX,
    ensures
        r.width == crop_width,
        r.height == crop_height,
        r.wf(),
        forall|dx: int, dy: int, ch: int|
            0 <= dx < crop_width && 0 <= dy < crop_height && 0 <= ch < 3 ==> #[trigger] r.byte_at(dx, dy, ch)
                == shifted_byte(*source, left as int, top as int, dx, dy, ch),
{
    let total = source.data.len();
    let source_width = source.width as i64;
    let source_height = source.height as i64;
    let crop_width_i64 = crop_width as i64;
    let crop_height_i64 = crop_height as i64;
    let ghost cw = crop_width as int;
    let mut data: Vec<u8> = Vec::new();
    let mut dst_y: i64 = 0;
    while dst_y < crop_height_i64
        invariant
            source.wf(),
            total == source.data@.len(),
            cw == crop_width,
            crop_width_i64 == crop_width,
            crop_height_i64 == crop_height,
            source_width == source.width,
            source_height == source.height,
            left + crop_width <= i64::MAX,
            top + crop_height <= i64::MAX,
            0 <= dst_y <= crop_height,
            data@.len() == byte_index(cw, 0, dst_y as int, 0),
            forall|x: int, y: int, ch: int|
                0 <= x < cw && 0 <= y < dst_y && 0 <= ch < 3 ==> data@[#[trigger] byte_index(cw, x, y, ch)]
                    == shifted_byte(*source, left as int, top as int, x, y, ch),
        decreases crop_height_i64 - dst_y,
    {
        let mut dst_x: i64 = 0;
        while dst_x < crop_width_i64
            invariant
                source.wf(),
                total == source.data@.len(),
                cw == crop_width,
                crop_width_i64 == crop_width,
                source_width == source.width,
                source_height == source.height,
                left + crop_width <= i64::MAX,
                top + crop_height <= i64::MAX,
                0 <= dst_y < crop_height,
                0 <= dst_x <= crop_width,
                data@.len() == byte_index(cw, dst_x as int, dst_y as int, 0),
                forall|x: int, y: int, ch: int|
                    0 <= x < cw && 0 <= ch < 3 && (0 <= y < dst_y || (y == dst_y && 0 <= x < dst_x)) ==> data@[#[trigger] byte_index(cw, x, y, ch)]
                        == shifted_byte(*source, left as int, top as int, x, y, ch),
            decreases crop_width_i64 - dst_x,
        {
            let src_x = left + dst_x;
            let src_y = top + dst_y;
            let ghost prev = data@;
            if src_x < 0 || src_y < 0 || src_x >= source_width || src_y >= source_height {
                data.push(0);
                data.push(0);
                data.push(0);
            } else {
                proof {
                    lemma_byte_index_bounds(source.width as int, source.height as int, src_x as int, src_y as int, 0);
                    lemma_byte_index_bounds(source.width as int, source.height as int, src_x as int, src_y as int, 2);
                }
                let src_index = ((src_y as usize) * (source.width as usize) + (src_x as usize)) * 3;
                data.push(source.data[src_index]);
                data.push(source.data[src_index + 1]);
                data.push(source.data[src_index + 2]);
            }
            proof {
                assert forall|x: int, y: int, ch: int|
                    0 <= x < cw && 0 <= ch < 3 && (0 <= y < dst_y || (y == dst_y && 0 <= x < dst_x + 1)) implies data@[#[trigger] byte_index(cw, x, y, ch)]
                        == shifted_byte(*source, left as int, top as int, x, y, ch) by {
                    if !(y == dst_y && x == dst_x) {
                        lemma_raster_before(cw, x, y, ch, dst_x as int, dst_y as int);
                        assert(data@[byte_index(cw, x, y, ch)] == prev[byte_index(cw, x, y, ch)]);
                    }
                }
            }
            dst_x = dst_x + 1;
        }
        proof {
            lemma_row_end(cw, dst_y as int);
        }
        dst_y = dst_y + 1;
    }
    proof {
        assert(byte_index(cw, 0, crop_height as int, 0) == crop_width * crop_height * 3) by (nonlinear_arith)
            requires
                cw == crop_width,
        ;
    }
    Image { width: crop_width, height: crop_height, data }
}


proof fn lemma_div_below(x: int, s: int, w: int)
    requires
        0 <= x < w * s,
        s > 0,
    ensures
        0 <= x / s < w,
{
    assert(0 <= x / s < w) by (nonlinear_arith)
        requires
            0 <= x < w * s,
            s > 0,
    ;
}

/// Enlarges the image `scale` times, every pixel becoming a
/// `scale` x `scale` block; a scale of 0 or 1 copies the image.
pub fn upscale_nearest(source: &Image, scale: u32) -> (r: Image)
    requires
        source.wf(),
        source.width * scale <= u32::MAX,
        source.height * scale <= u32::MAX,
        source.width * scale * (source.height * scale) * 3 <= usize::MAX,
    ensures
        scale <= 1 ==> r.width == source.width && r.height == source.height && r.data@ == source.data@,
        scale > 1 ==> {
            &&& r.width == source.width * scale
            &&& r.height == source.height * scale
            &&& r.wf()
            &&& forall|x: int, y: int, ch: int|
                0 <= x < r.width && 0 <= y < r.height && 0 <= ch < 3 ==> #[trigger] r.byte_at(x, y, ch)
                    == source.byte_at(x / scale as int, y / scale as int, ch)
        },
{
    if scale <= 1 {
        return Image { width: source.width, height: source.height, data: source.data.clone() };
    }
    let width = source.width.saturating_mul(scale);
    let height = source.height.saturating_mul(scale);
    let total = source.data.len();
    let ghost wi = width as int;
    let mut data: Vec<u8> = Vec::new();
    let mut y: u32 = 0;
    while y < height
        invariant
            source.wf(),
            total == source.data@.len(),
            scale > 1,
            width == source.width * scale,
            height == source.height * scale,
            wi == width,
            y <= height,
            data@.len() == byte_index(wi, 0, y as int, 0),
            forall|xx: int, yy: int, ch: int|
                0 <= xx < wi && 0 <= yy < y && 0 <= ch < 3 ==> data@[#[trigger] byte_index(wi, xx, yy, ch)]
                    == source.byte_at(xx / scale as int, yy / scale as int, ch),
        decreases height - y,
    {
        let source_y = y / scale;
        proof {
            lemma_div_below(y as int, scale as int, source.height as int);
        }
        let mut x: u32 = 0;
        while x < width
            invariant
                source.wf(),
                total == source.data@.len(),
                scale > 1,
                width == source.width * scale,
                height == source.height * scale,
                wi == width,
                y < height,
                source_y == y / scale,
                source_y < source.height,
                x <= width,
                data@.len() == byte_index(wi, x as int, y as int, 0),
                forall|xx: int, yy: int, ch: int|
                    0 <= xx < wi && 0 <= ch < 3 && (0 <= yy < y || (yy == y && 0 <= xx < x)) ==> data@[#[trigger] byte_index(wi, xx, yy, ch)]
                        == source.byte_at(xx / scale as int, yy / scale as int, ch),
            decreases width - x,
        {
            let source_x = x / scale;
            proof {
                lemma_div_below(x as int, scale as int, source.width as int);
                lemma_byte_index_bounds(source.width as int, source.height as int, source_x as int, source_y as int, 0);
                lemma_byte_index_bounds(source.width as int, source.height as int, source_x as int, source_y as int, 2);
            }
            let source_index = ((source_y as usize) * (source.width as usize) + (source_x as usize)) * 3;
            let ghost prev = data@;
            data.push(source.data[source_index]);
            data.push(source.data[source_index + 1]);
            data.push(source.data[source_index + 2]);
            proof {
                assert forall|xx: int, yy: int, ch: int|
                    0 <= xx < wi && 0 <= ch < 3 && (0 <= yy < y || (yy == y && 0 <= xx < x + 1)) implies data@[#[trigger] byte_index(wi, xx, yy, ch)]
                        == source.byte_at(xx / scale as int, yy / scale as int, ch) by {
                    if !(yy == y && xx == x) {
                        lemma_raster_before(wi, xx, yy, ch, x as int, y as int);
                        assert(data@[byte_index(wi, xx, yy, ch)] == prev[byte_index(wi, xx, yy, ch)]);
                    }
                }
            }
            x = x + 1;
        }
        proof {
            lemma_row_end(wi, y as int);
        }
        y = y + 1;
    }
    proof {
        assert(byte_index(wi, 0, height as int, 0) == width * height * 3) by (nonlinear_arith)
            requires
                wi == width,
        ;
    }
    Image { width, height, data }
}

/// Paints one pixel; a position outside the image is ignored.
pub fn set_pixel(image: &mut Image, x: i32, y: i32, r: u8, g: u8, b: u8)
    requires
        old(image).wf(),
    ensures
        final(image).width == old(image).width,
        final(image).height == old(image).height,
        final(image).wf(),
        (0 <= x < old(image).width && 0 <= y < old(image).height) ==> final(image).data@ == old(image).data@.update(
            byte_index(old(image).width as int, x as int, y as int, 0),
            r,
        ).update(byte_index(old(image).width as int, x as int, y as int, 1), g).update(
            byte_index(old(image).width as int, x as int, y as int, 2),
            b,
        ),
        !(0 <= x < old(image).width && 0 <= y < old(image).height) ==> final(image).data@ == old(image).data@,
{
    if x < 0 || y < 0 || (x as i64) >= (image.width as i64) || (y as i64) >= (image.height as i64) {
        return;
    }
    let total = image.data.len();
    proof {
        lemma_byte_index_bounds(image.width as int, image.height as int, x as int, y as int, 0);
        lemma_byte_index_bounds(image.width as int, image.height as int, x as int, y as int, 2);
        assert(0 <= y * image.width) by (nonlinear_arith)
            requires
                0 <= y,
        ;
    }
    let index = ((y as usize) * (image.width as usize) + (x as usize)) * 3;
    if index + 2 >= total {
        return;
    }
    image.data.set(index, r);
    image.data.set(index + 1, g);
    image.data.set(index + 2, b);
}


/// Channel `ch` of the marker colour (255, 220, 0).
pub open spec fn marker_color(ch: int) -> u8 {
    if ch == 0 {
        255u8
    } else if ch == 1 {
        220u8
    } else {
        0u8
    }
}

/// 40% of the marker colour over 60% of the pixel, rounded to the nearest
/// integer: `round(old * 0.6 + colour * 0.4)`. The exact value
/// `(3 * old + 2 * colour) / 5` is never halfway between two integers, so
/// this is `(3 * old + 2 * colour + 2) / 5`.
pub open spec fn marker_blend(old: u8, color: u8) -> u8 {
    ((3 * old + 2 * color + 2) / 5) as u8
}

/// The click marker covers `(px, py)`: a translucent disc of radius 14
/// around `(x, y)`, with an opaque cross of arm 3 at its centre.
pub open spec fn on_marker_cross(x: int, y: int, px: int, py: int) -> bool {
    (py == y && -3 <= px - x <= 3) || (px == x && -3 <= py - y <= 3)
}

pub open spec fn on_marker_disc(x: int, y: int, px: int, py: int) -> bool {
    (px - x) * (px - x) + (py - y) * (py - y) <= 14 * 14
}

/// Channel `ch` of pixel `(px, py)` after the click marker is drawn.
pub open spec fn marked_byte(old: Image, x: int, y: int, px: int, py: int, ch: int) -> u8 {
    if on_marker_cross(x, y, px, py) {
        marker_color(ch)
    } else if on_marker_disc(x, y, px, py) {
        marker_blend(old.byte_at(px, py, ch), marker_color(ch))
    } else {
        old.byte_at(px, py, ch)
    }
}

fn blend_channel(old: u8, color: u8) -> (r: u8)
    ensures
        r == marker_blend(old, color),
{
    ((3 * (old as u32) + 2 * (color as u32) + 2) / 5) as u8
}

/// Draws the click marker centred at `(x, y)`: a yellow translucent disc
/// and a yellow cross; pixels outside the image are skipped.
pub fn draw_click_marker(image: &mut Image, x: i32, y: i32)
    requires
        old(image).wf(),
        old(image).width <= i32::MAX,
        old(image).height <= i32::MAX,
        i32::MIN + 14 <= x <= i32::MAX - 14,
        i32::MIN + 14 <= y <= i32::MAX - 14,
    ensures
        final(image).width == old(image).width,
        final(image).height == old(image).height,
        final(image).wf(),
        forall|px: int, py: int, ch: int|
            0 <= px < old(image).width && 0 <= py < old(image).height && 0 <= ch < 3 ==> #[trigger] final(image).byte_at(px, py, ch)
                == marked_byte(*old(image), x as int, y as int, px, py, ch),
{
    let ghost initial = *image;
    let width = image.width as i32;
    let height = image.height as i32;
    let total = image.data.len();
    let mut dy: i32 = -14;
    while dy <= 14
        invariant
            initial.wf(),
            image.wf(),
            image.width == initial.width,
            image.height == initial.height,
            total == image.data@.len(),
            width == image.width,
            height == image.height,
            image.width <= i32::MAX,
            image.height <= i32::MAX,
            i32::MIN + 14 <= x <= i32::MAX - 14,
            i32::MIN + 14 <= y <= i32::MAX - 14,
            -14 <= dy <= 15,
            forall|px: int, py: int, ch: int|
                0 <= px < initial.width && 0 <= py < initial.height && 0 <= ch < 3 ==> #[trigger] image.byte_at(px, py, ch)
                    == if py - y < dy && -14 <= py - y && -14 <= px - x <= 14 && on_marker_disc(x as int, y as int, px, py) {
                        marker_blend(initial.byte_at(px, py, ch), marker_color(ch))
                    } else {
                        initial.byte_at(px, py, ch)
                    },
        decreases 15 - dy,
    {
        let mut dx: i32 = -14;
        while dx <= 14
            invariant
                initial.wf(),
                image.wf(),
                image.width == initial.width,
                image.height == initial.height,
                total == image.data@.len(),
                width == image.width,
                height == image.height,
                i32::MIN + 14 <= x <= i32::MAX - 14,
                i32::MIN + 14 <= y <= i32::MAX - 14,
                -14 <= dy <= 14,
                -14 <= dx <= 15,
                forall|px: int, py: int, ch: int|
                    0 <= px < initial.width && 0 <= py < initial.height && 0 <= ch < 3 ==> #[trigger] image.byte_at(px, py, ch)
                        == if ((py - y < dy && -14 <= py - y) || (py - y == dy && px - x < dx)) && -14 <= px - x <= 14
                            && on_marker_disc(x as int, y as int, px, py) {
                            marker_blend(initial.byte_at(px, py, ch), marker_color(ch))
                        } else {
                            initial.byte_at(px, py, ch)
                        },
            decreases 15 - dx,
        {
            let px = x + dx;
            let py = y + dy;
            proof {
                assert(0 <= dx * dx <= 225 && 0 <= dy * dy <= 196) by (nonlinear_arith)
                    requires
                        -14 <= dx <= 15,
                        -14 <= dy <= 14,
                ;
            }
            if dx * dx + dy * dy <= 14 * 14 && px >= 0 && py >= 0 && px < width && py < height {
                proof {
                    lemma_byte_index_bounds(image.width as int, image.height as int, px as int, py as int, 0);
                    lemma_byte_index_bounds(image.width as int, image.height as int, px as int, py as int, 2);
                    assert(0 <= py * image.width) by (nonlinear_arith)
                        requires
                            0 <= py,
                    ;
                }
                let index = ((py as usize) * (image.width as usize) + (px as usize)) * 3;
                assert(index + 2 < total);
                if index + 2 < total {
                    let ghost before = *image;
                    let r = blend_channel(image.data[index], 255);
                    let g = blend_channel(image.data[index + 1], 220);
                    let b = blend_channel(image.data[index + 2], 0);
                    image.data.set(index, r);
                    image.data.set(index + 1, g);
                    image.data.set(index + 2, b);
                    proof {
                        assert(before.byte_at(px as int, py as int, 0) == initial.byte_at(px as int, py as int, 0));
                        assert(before.byte_at(px as int, py as int, 1) == initial.byte_at(px as int, py as int, 1));
                        assert(before.byte_at(px as int, py as int, 2) == initial.byte_at(px as int, py as int, 2));
                        assert(image.byte_at(px as int, py as int, 0) == r);
                        assert(image.byte_at(px as int, py as int, 1) == g);
                        assert(image.byte_at(px as int, py as int, 2) == b);
                        assert forall|qx: int, qy: int, ch: int|
                            0 <= qx < initial.width && 0 <= qy < initial.height && 0 <= ch < 3 && !(qx == px && qy == py) implies #[trigger] image.byte_at(qx, qy, ch)
                                == before.byte_at(qx, qy, ch) by {
                            lemma_byte_index_bounds(image.width as int, image.height as int, qx, qy, ch);
                            lemma_distinct_pixels(image.width as int, qx, qy, ch, px as int, py as int);
                        }
                        assert forall|qx: int, qy: int, ch: int|
                            0 <= qx < initial.width && 0 <= qy < initial.height && 0 <= ch < 3 implies #[trigger] image.byte_at(qx, qy, ch)
                                == if ((qy - y < dy && -14 <= qy - y) || (qy - y == dy && qx - x < dx + 1)) && -14 <= qx - x <= 14
                                    && on_marker_disc(x as int, y as int, qx, qy) {
                                    marker_blend(initial.byte_at(qx, qy, ch), marker_color(ch))
                                } else {
                                    initial.byte_at(qx, qy, ch)
                                } by {
                            if qx == px && qy == py {
                                if ch == 0 {} else if ch == 1 {} else {}
                            }
                        }
                    }
                }
            }
            dx = dx + 1;
        }
        dy = dy + 1;
    }
    proof {
        assert forall|px: int, py: int| #[trigger] on_marker_disc(x as int, y as int, px, py) implies -14 <= px - x <= 14
            && -14 <= py - y <= 14 by {
            lemma_disc_bounds(px - x, py - y);
        }
    }
    let mut offset: i32 = -3;
    while offset <= 3
        invariant
            initial.wf(),
            image.wf(),
            image.width == initial.width,
            image.height == initial.height,
            i32::MIN + 14 <= x <= i32::MAX - 14,
            i32::MIN + 14 <= y <= i32::MAX - 14,
            -3 <= offset <= 4,
            forall|px: int, py: int, ch: int|
                0 <= px < initial.width && 0 <= py < initial.height && 0 <= ch < 3 ==> #[trigger] image.byte_at(px, py, ch)
                    == if (py == y && -3 <= px - x < offset) || (px == x && -3 <= py - y < offset) {
                        marker_color(ch)
                    } else if on_marker_disc(x as int, y as int, px, py) {
                        marker_blend(initial.byte_at(px, py, ch), marker_color(ch))
                    } else {
                        initial.byte_at(px, py, ch)
                    },
        decreases 4 - offset,
    {
        let ghost before = *image;
        set_pixel(image, x + offset, y, 255, 220, 0);
        proof {
            lemma_set_pixel_effect(before, *image, (x + offset) as int, y as int);
        }
        let ghost middle = *image;
        set_pixel(image, x, y + offset, 255, 220, 0);
        proof {
            lemma_set_pixel_effect(middle, *image, x as int, (y + offset) as int);
        }
        offset = offset + 1;
    }
}

proof fn lemma_disc_bounds(dx: int, dy: int)
    requires
        dx * dx + dy * dy <= 14 * 14,
    ensures
        -14 <= dx <= 14,
        -14 <= dy <= 14,
{
    assert(-14 <= dx <= 14 && -14 <= dy <= 14) by (nonlinear_arith)
        requires
            dx * dx + dy * dy <= 14 * 14,
    ;
}

/// Different pixels own different bytes.
pub proof fn lemma_distinct_pixels(w: int, qx: int, qy: int, ch: int, px: int, py: int)
    requires
        0 <= qx < w,
        0 <= px < w,
        0 <= qy,
        0 <= py,
        0 <= ch < 3,
        !(qx == px && qy == py),
    ensures
        byte_index(w, qx, qy, ch) != byte_index(w, px, py, 0),
        byte_index(w, qx, qy, ch) != byte_index(w, px, py, 1),
        byte_index(w, qx, qy, ch) != byte_index(w, px, py, 2),
{
    if qy < py || (qy == py && qx < px) {
        lemma_raster_before(w, qx, qy, ch, px, py);
        lemma_raster_before(w, qx, qy, 2, px, py);
        assert(byte_index(w, qx, qy, ch) <= byte_index(w, qx, qy, 2));
    } else {
        lemma_raster_before(w, px, py, 2, qx, qy);
        assert(byte_index(w, px, py, 2) < byte_index(w, qx, qy, 0) <= byte_index(w, qx, qy, ch));
    }
}

/// What `set_pixel` with the marker colour does, pixel by pixel.
proof fn lemma_set_pixel_effect(before: Image, after: Image, x: int, y: int)
    requires
        before.wf(),
        after.width == before.width,
        after.height == before.height,
        (0 <= x < before.width && 0 <= y < before.height) ==> after.data@ == before.data@.update(
            byte_index(before.width as int, x, y, 0),
            255u8,
        ).update(byte_index(before.width as int, x, y, 1), 220u8).update(
            byte_index(before.width as int, x, y, 2),
            0u8,
        ),
        !(0 <= x < before.width && 0 <= y < before.height) ==> after.data@ == before.data@,
    ensures
        forall|px: int, py: int, ch: int|
            0 <= px < before.width && 0 <= py < before.height && 0 <= ch < 3 ==> #[trigger] after.byte_at(px, py, ch)
                == if px == x && py == y {
                    marker_color(ch)
                } else {
                    before.byte_at(px, py, ch)
                },
{
    assert forall|px: int, py: int, ch: int|
        0 <= px < before.width && 0 <= py < before.height && 0 <= ch < 3 implies #[trigger] after.byte_at(px, py, ch)
            == if px == x && py == y {
                marker_color(ch)
            } else {
                before.byte_at(px, py, ch)
            } by {
        lemma_byte_index_bounds(before.width as int, before.height as int, px, py, ch);
        if 0 <= x < before.width && 0 <= y < before.height {
            lemma_byte_index_bounds(before.width as int, before.height as int, x, y, 0);
            lemma_byte_index_bounds(before.width as int, before.height as int, x, y, 2);
            if !(px == x && py == y) {
                lemma_distinct_pixels(before.width as int, px, py, ch, x, y);
            }
        }
    }
}


// ---------------------------------------------------------------------------
// Captured frames
// ---------------------------------------------------------------------------

/// "Invalid frame size: expected {expected}, got {got}".
pub open spec fn frame_size_message(expected: nat, got: nat) -> Seq<char> {
    "Invalid frame size: expected "@ + decimal(expected) + ", got "@ + decimal(got)
}

fn frame_message(expected: usize, got: usize) -> (r: String)
    ensures
        r@ == frame_size_message(expected as nat, got as nat),
{
    let mut message = String::new();
    message.push_str("Invalid frame size: expected ");
    message.push_str(decimal_string(expected as u128).as_str());
    message.push_str(", got ");
    message.push_str(decimal_string(got as u128).as_str());
    message
}

/// Channel `ch` (R, G, B) of pixel number `k` of a BGRA frame.
pub open spec fn bgra_channel(pixels: Seq<u8>, k: int, ch: int) -> u8 {
    pixels[k * 4 + (2 - ch)]
}

/// Converts a captured BGRA frame (four bytes per pixel, blue first) into
/// an RGB image, dropping alpha. A buffer of another size is refused.
pub fn rgb_from_bgra(pixels: &Vec<u8>, width: u32, height: u32) -> (r: Result<Image, String>)
    requires
        width * height * 4 <= usize::MAX,
    ensures
        r is Ok <==> pixels@.len() == width * height * 4,
        r matches Err(message) ==> message@ == frame_size_message((width * height * 4) as nat, pixels@.len()),
        r matches Ok(image) ==> {
            &&& image.width == width
            &&& image.height == height
            &&& image.wf()
            &&& forall|k: int, ch: int|
                0 <= k < width * height && 0 <= ch < 3 ==> #[trigger] image.data@[k * 3 + ch] == bgra_channel(pixels@, k, ch)
        },
{
    proof {
        assert(width * height <= width * height * 4) by (nonlinear_arith);
    }
    let count = width as usize * height as usize;
    let expected_len = count * 4;
    if pixels.len() != expected_len {
        return Err(frame_message(expected_len, pixels.len()));
    }
    let mut rgb: Vec<u8> = Vec::new();
    let mut k: usize = 0;
    while k < count
        invariant
            count == width * height,
            pixels@.len() == count * 4,
            count * 4 <= usize::MAX,
            k <= count,
            rgb@.len() == k * 3,
            forall|kk: int, ch: int| 0 <= kk < k && 0 <= ch < 3 ==> #[trigger] rgb@[kk * 3 + ch] == bgra_channel(pixels@, kk, ch),
        decreases count - k,
    {
        let ghost prev = rgb@;
        rgb.push(pixels[k * 4 + 2]);
        rgb.push(pixels[k * 4 + 1]);
        rgb.push(pixels[k * 4]);
        proof {
            assert forall|kk: int, ch: int| 0 <= kk < k + 1 && 0 <= ch < 3 implies #[trigger] rgb@[kk * 3 + ch] == bgra_channel(pixels@, kk, ch) by {
                if kk < k {
                    assert(rgb@[kk * 3 + ch] == prev[kk * 3 + ch]);
                }
            }
        }
        k = k + 1;
    }
    assert(count * 3 == width * height * 3);
    Ok(Image { width, height, data: rgb })
}

/// Width of the area around the click that goes to OCR.
pub const OCR_CROP_WIDTH: i32 = 1440;

/// Height of the area around the click that goes to OCR.
pub const OCR_CROP_HEIGHT: i32 = 900;

/// The area around a click cut out of a captured monitor frame.
pub struct CapturedScreen {
    /// The RGB pixels of the area.
    pub image: Image,
    /// Top-left corner of the area in desktop coordinates.
    pub origin_x: i32,
    pub origin_y: i32,
    /// The click relative to the top-left corner of the area.
    pub click_x: i32,
    pub click_y: i32,
}

pub open spec fn clamp(v: int, lo: int, hi: int) -> int {
    if v < lo {
        lo
    } else if v > hi {
        hi
    } else {
        v
    }
}

/// Left (or top) edge of the crop: the click clamped into the frame, less
/// half the crop, clamped so that the crop stays inside the frame.
pub open spec fn crop_start(local_click: int, frame_size: int, crop_size: int) -> int {
    clamp(clamp(local_click, 0, frame_size - 1) - crop_size / 2, 0, frame_size - crop_size)
}

pub open spec fn crop_extent(frame_size: int, limit: int) -> int {
    if limit < frame_size {
        limit
    } else {
        frame_size
    }
}

fn clamp_i32(v: i32, lo: i32, hi: i32) -> (r: i32)
    requires
        lo <= hi,
    ensures
        r == clamp(v as int, lo as int, hi as int),
{
    if v < lo {
        lo
    } else if v > hi {
        hi
    } else {
        v
    }
}

/// Cuts the area of at most `OCR_CROP_WIDTH` x `OCR_CROP_HEIGHT` pixels
/// around a click out of a captured BGRA frame of the monitor whose
/// top-left corner is `(display_x, display_y)`, converting it to RGB. The
/// area is centred on the click as far as the frame allows. A frame buffer
/// of the wrong size is refused.
pub fn crop_frame_around_click(
    pixels: &Vec<u8>,
    width: i32,
    height: i32,
    display_x: i32,
    display_y: i32,
    click_x: i32,
    click_y: i32,
) -> (r: Result<CapturedScreen, String>)
    requires
        width >= 1,
        height >= 1,
        width * height * 4 <= usize::MAX,
        i32::MIN <= click_x - display_x <= i32::MAX,
        i32::MIN <= click_y - display_y <= i32::MAX,
        display_x + width <= i32::MAX,
        display_y + height <= i32::MAX,
    ensures
        r is Ok <==> pixels@.len() == width * height * 4,
        r matches Err(message) ==> message@ == frame_size_message((width * height * 4) as nat, pixels@.len()),
        r matches Ok(captured) ==> {
            let cw = crop_extent(width as int, OCR_CROP_WIDTH as int);
            let ch = crop_extent(height as int, OCR_CROP_HEIGHT as int);
            let left = crop_start(click_x - display_x, width as int, cw);
            let top = crop_start(click_y - display_y, height as int, ch);
            &&& captured.image.width == cw
            &&& captured.image.height == ch
            &&& captured.image.wf()
            &&& captured.origin_x == display_x + left
            &&& captured.origin_y == display_y + top
            &&& captured.click_x == click_x - display_x - left
            &&& captured.click_y == click_y - display_y - top
            &&& forall|x: int, y: int, c: int|
                0 <= x < cw && 0 <= y < ch && 0 <= c < 3 ==> #[trigger] captured.image.byte_at(x, y, c)
                    == bgra_channel(pixels@, (top + y) * width + left + x, c)
        },
{
    proof {
        assert(width * height <= width * height * 4) by (nonlinear_arith)
            requires
                width >= 1,
                height >= 1,
        ;
    }
    let expected_len = (width as usize) * (height as usize) * 4;
    if pixels.len() != expected_len {
        return Err(frame_message(expected_len, pixels.len()));
    }
    let local_click_x = click_x - display_x;
    let local_click_y = click_y - display_y;
    let center_x = clamp_i32(local_click_x, 0, width - 1);
    let center_y = clamp_i32(local_click_y, 0, height - 1);
    let crop_width = if OCR_CROP_WIDTH < width { OCR_CROP_WIDTH } else { width };
    let crop_height = if OCR_CROP_HEIGHT < height { OCR_CROP_HEIGHT } else { height };
    let crop_left = clamp_i32(center_x - crop_width / 2, 0, width - crop_width);
    let crop_top = clamp_i32(center_y - crop_height / 2, 0, height - crop_height);
    let w = width as usize;
    let cw = crop_width as usize;
    let left = crop_left as usize;
    let ghost cwi = crop_width as int;
    let mut rgb: Vec<u8> = Vec::new();
    let mut row: i32 = crop_top;
    assert(byte_index(cwi, 0, 0, 0) == 0) by (nonlinear_arith);
    assert(row - crop_top == 0);
    while row < crop_top + crop_height
        invariant
            pixels@.len() == width * height * 4,
            width * height * 4 <= usize::MAX,
            w == width,
            cw == crop_width,
            cwi == crop_width,
            left == crop_left,
            1 <= crop_width <= width,
            1 <= crop_height <= height,
            0 <= crop_left <= width - crop_width,
            0 <= crop_top <= height - crop_height,
            crop_top <= row <= crop_top + crop_height,
            rgb@.len() == byte_index(cwi, 0, (row - crop_top) as int, 0),
            forall|x: int, y: int, c: int|
                0 <= x < cwi && 0 <= y < row - crop_top && 0 <= c < 3 ==> rgb@[#[trigger] byte_index(cwi, x, y, c)]
                    == bgra_channel(pixels@, (crop_top + y) * width + crop_left + x, c),
        decreases crop_top + crop_height - row,
    {
        let mut col: usize = 0;
        while col < cw
            invariant
                pixels@.len() == width * height * 4,
                w == width,
                cw == crop_width,
                cwi == crop_width,
                left == crop_left,
                1 <= crop_width <= width,
                0 <= crop_left <= width - crop_width,
                0 <= crop_top <= row < crop_top + crop_height <= height,
                width * height * 4 <= usize::MAX,
                col <= cw,
                rgb@.len() == byte_index(cwi, col as int, (row - crop_top) as int, 0),
                forall|x: int, y: int, c: int|
                    0 <= x < cwi && 0 <= c < 3 && (0 <= y < row - crop_top || (y == row - crop_top && x < col)) ==> rgb@[#[trigger] byte_index(cwi, x, y, c)]
                        == bgra_channel(pixels@, (crop_top + y) * width + crop_left + x, c),
            decreases cw - col,
        {
            proof {
                assert(0 <= row * width + left + col < width * height) by (nonlinear_arith)
                    requires
                        0 <= row < height,
                        0 <= left + col < width,
                ;
                assert(0 <= row * width) by (nonlinear_arith)
                    requires
                        0 <= row,
                        0 <= width,
                ;
            }
            let k = (row as usize) * w + left + col;
            let ghost prev = rgb@;
            rgb.push(pixels[k * 4 + 2]);
            rgb.push(pixels[k * 4 + 1]);
            rgb.push(pixels[k * 4]);
            proof {
                assert forall|x: int, y: int, c: int|
                    0 <= x < cwi && 0 <= c < 3 && (0 <= y < row - crop_top || (y == row - crop_top && x < col + 1)) implies rgb@[#[trigger] byte_index(cwi, x, y, c)]
                        == bgra_channel(pixels@, (crop_top + y) * width + crop_left + x, c) by {
                    if !(y == row - crop_top && x == col) {
                        lemma_raster_before(cwi, x, y, c, col as int, (row - crop_top) as int);
                        assert(rgb@[byte_index(cwi, x, y, c)] == prev[byte_index(cwi, x, y, c)]);
                    }
                }
            }
            col = col + 1;
        }
        proof {
            lemma_row_end(cwi, (row - crop_top) as int);
        }
        row = row + 1;
    }
    proof {
        assert(byte_index(cwi, 0, crop_height as int, 0) == crop_width * crop_height * 3) by (nonlinear_arith)
            requires
                cwi == crop_width,
        ;
    }
    let image = Image { width: crop_width as u32, height: crop_height as u32, data: rgb };
    Ok(CapturedScreen {
        image,
        origin_x: display_x + crop_left,
        origin_y: display_y + crop_top,
        click_x: local_click_x - crop_left,
        click_y: local_click_y - crop_top,
    })
}

// ---------------------------------------------------------------------------
// PNG
// ---------------------------------------------------------------------------

/// The PNG file that the `image` crate's `PngEncoder` (default compression
/// and filter) writes for an RGB buffer of the given size, or the text of
/// the encoder's error.
pub uninterp spec fn png_encoding(data: Seq<u8>, width: u32, height: u32) -> Result<Seq<u8>, Seq<char>>;

pub open spec fn result_view(r: Result<Vec<u8>, String>) -> Result<Seq<u8>, Seq<char>> {
    match r {
        Ok(bytes) => Ok(bytes@),
        Err(message) => Err(message@),
    }
}

/// The eight bytes every PNG file starts with.
pub open spec fn png_signature() -> Seq<u8> {
    seq![137u8, 80u8, 78u8, 71u8, 13u8, 10u8, 26u8, 10u8]
}

/// `PngEncoder::write_image` of the `image` crate into a memory buffer,
/// with an 8-bit RGB colour type; an error becomes its `to_string` text.
/// The encoder asserts that the buffer holds `width * height * 3` bytes, so
/// that is required. Its result is a function of the pixels and the size,
/// and a written file starts with the PNG signature (the `png` crate's
/// encoder writes it before anything else). The `png` crate refuses an
/// image without width or height.
#[verifier::external_body]
fn png_encode_rgb(data: &Vec<u8>, width: u32, height: u32) -> (r: Result<Vec<u8>, String>)
    requires
        data@.len() == width * height * 3,
    ensures
        result_view(r) == png_encoding(data@, width, height),
        r matches Ok(bytes) ==> bytes@.len() >= 8 && bytes@.take(8) == png_signature(),
        width == 0 || height == 0 ==> r is Err,
{
    let mut output = Vec::new();
    let encoder = ::image::codecs::png::PngEncoder::new(&mut output);
    match encoder.write_image(data, width, height, ::image::ExtendedColorType::Rgb8) {
        Ok(()) => Ok(output),
        Err(error) => Err(error.to_string()),
    }
}

/// Encodes the image as a PNG file; an encoder error is reported as
/// "Failed to encode PNG: {error}".
pub fn encode_png(image: &Image) -> (r: Result<Vec<u8>, String>)
    requires
        image.wf(),
    ensures
        match png_encoding(image.data@, image.width, image.height) {
            Ok(bytes) => r matches Ok(b) && b@ == bytes,
            Err(message) => r matches Err(m) && m@ == "Failed to encode PNG: "@ + message,
        },
        r matches Ok(bytes) ==> bytes@.len() >= 8 && bytes@.take(8) == png_signature(),
        image.width == 0 || image.height == 0 ==> r is Err,
{
    match png_encode_rgb(&image.data, image.width, image.height) {
        Ok(bytes) => Ok(bytes),
        Err(message) => {
            let mut full = String::new();
            full.push_str("Failed to encode PNG: ");
            full.push_str(message.as_str());
            Err(full)
        },
    }
}


/// The `image` crate's RGB buffer handed to the recognition engine; Verus
/// sees nothing inside it.
#[verifier::external_body]
pub struct RgbFrame(pub ::image::RgbImage);

/// "invalid RGB image buffer: expected {expected} bytes, got {got}".
pub open spec fn rgb_buffer_message(expected: nat, got: nat) -> Seq<char> {
    "invalid RGB image buffer: expected "@ + decimal(expected) + " bytes, got "@ + decimal(got)
}

/// `ImageBuffer::from_raw` for 8-bit RGB pixels: the buffer as an image of
/// the given size (`None` when the buffer is too short for it).
#[verifier::external_body]
fn rgb_image_from_raw(width: u32, height: u32, data: Vec<u8>) -> (r: Option<RgbFrame>)
    requires
        data@.len() == width * height * 3,
    ensures
        r is Some,
{
    ::image::RgbImage::from_raw(width, height, data).map(RgbFrame)
}

/// The image as the `image` crate's RGB buffer for the recognition engine;
/// a buffer of the wrong size is refused.
pub fn image_to_rgb_image(image: &Image) -> (r: Result<RgbFrame, String>)
    requires
        image.width * image.height * 3 <= usize::MAX,
    ensures
        r is Ok <==> image.wf(),
        r matches Err(m) ==> m@ == rgb_buffer_message((image.width * image.height * 3) as nat, image.data@.len()),
{
    proof {
        lemma_mul_fits(image.width as int, image.height as int);
    }
    let expected_len = image.width as usize * image.height as usize * 3;
    if image.data.len() != expected_len {
        let mut message = String::new();
        message.push_str("invalid RGB image buffer: expected ");
        message.push_str(decimal_string(expected_len as u128).as_str());
        message.push_str(" bytes, got ");
        message.push_str(decimal_string(image.data.len() as u128).as_str());
        return Err(message);
    }
    match rgb_image_from_raw(image.width, image.height, image.data.clone()) {
        Some(rgb) => Ok(rgb),
        None => Err("failed to construct RgbImage from captured screen".to_string()),
    }
}

} // verus!
