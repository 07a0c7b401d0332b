use armadillo_learn_desktop::framing::{crop_around_bounds, highlight_bounds};
use armadillo_learn_desktop::image::Image;

fn gradient(width: u32, height: u32) -> Image {
    let mut data = Vec::with_capacity((width * height * 3) as usize);
    for y in 0..height {
        for x in 0..width {
            data.push((x % 256) as u8);
            data.push((y % 256) as u8);
            data.push(((x + y) % 256) as u8);
        }
    }
    Image { width, height, data }
}

fn expected_crop(source: &Image, bbox: (f32, f32, f32, f32)) -> Image {
    let (x1, y1, x2, y2) = bbox;
    let left = x1.min(x2).max(0.0).floor() as u32;
    let top = y1.min(y2).max(0.0).floor() as u32;
    let right = x1.max(x2).min(source.width as f32).ceil() as u32;
    let bottom = y1.max(y2).min(source.height as f32).ceil() as u32;
    if right <= left || bottom <= top {
        return source.clone();
    }
    let (bw, bh) = (right - left, bottom - top);
    let cw = bw.saturating_add(120).min(420).min(source.width);
    let ch = bh.saturating_add(80).min(180).min(source.height);
    let mut sl = (left + bw / 2).saturating_sub(cw / 2);
    let mut st = (top + bh / 2).saturating_sub(ch / 2);
    if sl + cw > source.width {
        sl = source.width.saturating_sub(cw);
    }
    if st + ch > source.height {
        st = source.height.saturating_sub(ch);
    }
    let mut out = Image { width: cw, height: ch, data: vec![0; (cw * ch * 3) as usize] };
    for dy in 0..ch {
        for dx in 0..cw {
            let (sx, sy) = (sl + dx, st + dy);
            if sx >= source.width || sy >= source.height {
                continue;
            }
            let s = ((sy * source.width + sx) * 3) as usize;
            let d = ((dy * cw + dx) * 3) as usize;
            out.data[d..d + 3].copy_from_slice(&source.data[s..s + 3]);
        }
    }
    out
}

fn library_crop(source: &Image, bbox: (f32, f32, f32, f32)) -> Image {
    let (x1, y1, x2, y2) = bbox;
    let left = x1.min(x2).max(0.0).floor() as u32;
    let top = y1.min(y2).max(0.0).floor() as u32;
    let right = x1.max(x2).min(source.width as f32).ceil() as u32;
    let bottom = y1.max(y2).min(source.height as f32).ceil() as u32;
    crop_around_bounds(source, left, top, right, bottom)
}

fn expected_highlight(image: &mut Image, min_x: f32, min_y: f32, max_x: f32, max_y: f32) {
    let left = (min_x.floor() as i32 - 4).max(0);
    let top = (min_y.floor() as i32 - 3).max(0);
    let right = (max_x.ceil() as i32 + 4).min(image.width as i32);
    let bottom = (max_y.ceil() as i32 + 3).min(image.height as i32);
    if left >= right || top >= bottom {
        return;
    }
    for y in top..bottom {
        for x in left..right {
            let i = ((y as usize) * (image.width as usize) + (x as usize)) * 3;
            for (c, color) in [255u16, 220, 40].iter().enumerate() {
                let old = image.data[i + c] as u16;
                image.data[i + c] = ((old * (255 - 110) + color * 110) / 255) as u8;
            }
        }
    }
}

#[test]
fn crop_keeps_context_around_box() {
    let source = gradient(800, 400);
    let crop = library_crop(&source, (300.0, 150.0, 340.5, 170.2));
    assert_eq!((crop.width, crop.height), (161, 101));
    // The crop is centred on the box: its top-left corner is the source
    // pixel (320 - 80, 160 - 50).
    assert_eq!(&crop.data[0..3], &[240u8, 110, 94]);
}

#[test]
fn crop_is_limited_in_size() {
    let source = gradient(800, 400);
    let crop = library_crop(&source, (10.0, 10.0, 700.0, 300.0));
    assert_eq!((crop.width, crop.height), (420, 180));
}

#[test]
fn crop_moves_back_inside_the_screenshot() {
    let source = gradient(800, 400);
    let crop = library_crop(&source, (790.0, 390.0, 799.0, 399.0));
    let expected = expected_crop(&source, (790.0, 390.0, 799.0, 399.0));
    assert_eq!((crop.width, crop.height), (129, 89));
    assert_eq!(crop.data, expected.data);
    // The crop ends at the screenshot's last column and row.
    let last = crop.data.len() - 3;
    assert_eq!(&crop.data[last..], &[(799 % 256) as u8, (399 % 256) as u8, ((799 + 399) % 256) as u8]);
}

#[test]
fn empty_box_gives_whole_screenshot() {
    let source = gradient(50, 30);
    let crop = library_crop(&source, (10.0, 10.0, 10.0, 20.0));
    assert_eq!((crop.width, crop.height), (50, 30));
    assert_eq!(crop.data, source.data);
    let outside = library_crop(&source, (60.0, 10.0, 70.0, 20.0));
    assert_eq!(outside.data, source.data);
}

#[test]
fn crop_matches_direct_computation_on_many_boxes() {
    let source = gradient(300, 120);
    for i in 0..60u32 {
        let x1 = (i * 37 % 330) as f32 - 10.5;
        let y1 = (i * 53 % 140) as f32 - 7.25;
        let x2 = x1 + (i * 11 % 90) as f32 + 0.5;
        let y2 = y1 + (i * 7 % 40) as f32;
        let bbox = if i % 2 == 0 { (x1, y1, x2, y2) } else { (x2, y2, x1, y1) };
        let a = library_crop(&source, bbox);
        let b = expected_crop(&source, bbox);
        assert_eq!((a.width, a.height), (b.width, b.height), "box {:?}", bbox);
        assert_eq!(a.data, b.data, "box {:?}", bbox);
    }
}

#[test]
fn highlight_tints_box_with_padding() {
    let mut image = Image { width: 20, height: 10, data: vec![100; 20 * 10 * 3] };
    highlight_bounds(&mut image, 8, 4, 10, 5);
    let at = |img: &Image, x: usize, y: usize| img.data[(y * 20 + x) * 3..(y * 20 + x) * 3 + 3].to_vec();
    // 100 * 145 / 255 + colour * 110 / 255, rounded down.
    assert_eq!(at(&image, 4, 1), vec![166, 151, 74]);
    assert_eq!(at(&image, 13, 7), vec![166, 151, 74]);
    assert_eq!(at(&image, 3, 1), vec![100, 100, 100]);
    assert_eq!(at(&image, 14, 4), vec![100, 100, 100]);
    assert_eq!(at(&image, 8, 8), vec![100, 100, 100]);
}

#[test]
fn highlight_matches_direct_computation() {
    for (min_x, min_y, max_x, max_y) in [
        (3.2f32, 2.7f32, 12.1f32, 6.0f32),
        (-10.0, -10.0, 2.0, 1.0),
        (25.0, 3.0, 40.0, 4.0),
        (0.0, 0.0, 30.0, 30.0),
        (5.0, 5.0, 4.0, 4.0),
    ] {
        let mut a = gradient(24, 16);
        let mut b = gradient(24, 16);
        highlight_bounds(&mut a, min_x.floor() as i32, min_y.floor() as i32, max_x.ceil() as i32, max_y.ceil() as i32);
        expected_highlight(&mut b, min_x, min_y, max_x, max_y);
        assert_eq!(a.data, b.data);
    }
}
