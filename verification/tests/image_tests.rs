use armadillo_learn_desktop::image::{
    crop, crop_around_point, crop_frame_around_click, crop_region, draw_click_marker, encode_png,
    image_to_rgb_image, rgb_from_bgra, set_pixel, upscale_nearest, CropError, Image, Region,
};

/// A `width` x `height` image whose pixel (x, y) is (x, y, x + y).
fn gradient(width: u32, height: u32) -> Image {
    let mut data = Vec::new();
    for y in 0..height {
        for x in 0..width {
            data.push(x as u8);
            data.push(y as u8);
            data.push((x + y) as u8);
        }
    }
    Image::new(width, height, data).unwrap()
}

fn pixel(image: &Image, x: u32, y: u32) -> [u8; 3] {
    let i = ((y * image.width + x) * 3) as usize;
    [image.data[i], image.data[i + 1], image.data[i + 2]]
}

#[test]
fn image_new_checks_the_buffer() {
    assert!(Image::new(2, 2, vec![0; 12]).is_ok());
    assert_eq!(
        Image::new(2, 2, vec![0; 11]).err(),
        Some("Invalid RGB buffer size: expected 12, got 11".to_string())
    );
    let image = gradient(2, 3);
    assert_eq!(image.len(), 18);
    assert!(!image.is_empty());
    assert_eq!(Image::bytes_per_pixel(), 3);
}

#[test]
fn crop_cuts_the_region() {
    let image = gradient(4, 3);
    let out = crop(&image, Region::new(1, 1, 2, 2)).unwrap();
    assert_eq!((out.width, out.height), (2, 2));
    assert_eq!(pixel(&out, 0, 0), [1, 1, 2]);
    assert_eq!(pixel(&out, 1, 1), [2, 2, 4]);
    assert!(matches!(crop(&image, Region::new(3, 0, 2, 1)), Err(CropError::OutOfBounds)));
    assert!(matches!(crop(&image, Region::new(-1, 0, 1, 1)), Err(CropError::OutOfBounds)));
    assert!(matches!(crop(&image, Region::new(0, 0, 0, 1)), Err(CropError::EmptyRegion)));
    let same = crop_region(&image, Region::new(0, 0, 4, 3));
    assert_eq!(same.data, image.data);
}

#[test]
fn crop_around_point_pads_with_black() {
    let image = gradient(4, 4);
    let out = crop_around_point(&image, 0, 0, 4, 2);
    assert_eq!((out.width, out.height), (4, 2));
    assert_eq!(pixel(&out, 0, 0), [0, 0, 0]);
    assert_eq!(pixel(&out, 3, 1), [1, 0, 1]);
    let inside = crop_around_point(&image, 2, 2, 2, 2);
    assert_eq!(pixel(&inside, 0, 0), [1, 1, 2]);
    assert_eq!(pixel(&inside, 1, 1), [2, 2, 4]);
}

#[test]
fn upscale_repeats_pixels() {
    let image = gradient(2, 1);
    let big = upscale_nearest(&image, 2);
    assert_eq!((big.width, big.height), (4, 2));
    assert_eq!(pixel(&big, 0, 1), [0, 0, 0]);
    assert_eq!(pixel(&big, 3, 0), [1, 0, 1]);
    let copy = upscale_nearest(&image, 1);
    assert_eq!(copy.data, image.data);
}

#[test]
fn marker_blends_yellow_and_draws_cross() {
    let mut image = Image::new(40, 40, vec![100; 40 * 40 * 3]).unwrap();
    draw_click_marker(&mut image, 20, 20);
    assert_eq!(pixel(&image, 20, 20), [255, 220, 0]);
    assert_eq!(pixel(&image, 23, 20), [255, 220, 0]);
    // 100 * 0.6 + 255 * 0.4 = 162, 100 * 0.6 + 220 * 0.4 = 148, 100 * 0.6 = 60.
    assert_eq!(pixel(&image, 30, 20), [162, 148, 60]);
    assert_eq!(pixel(&image, 20, 34), [162, 148, 60]);
    assert_eq!(pixel(&image, 30, 30), [100, 100, 100]);
    assert_eq!(pixel(&image, 0, 0), [100, 100, 100]);
    let mut edge = Image::new(3, 3, vec![0; 27]).unwrap();
    draw_click_marker(&mut edge, 0, 0);
    assert_eq!(pixel(&edge, 0, 0), [255, 220, 0]);
    set_pixel(&mut edge, 5, 5, 1, 2, 3);
    set_pixel(&mut edge, 2, 2, 1, 2, 3);
    assert_eq!(pixel(&edge, 2, 2), [1, 2, 3]);
}

#[test]
fn bgra_frames_become_rgb() {
    let frame = vec![1, 2, 3, 255, 4, 5, 6, 255];
    let image = rgb_from_bgra(&frame, 2, 1).unwrap();
    assert_eq!(image.data, vec![3, 2, 1, 6, 5, 4]);
    assert_eq!(
        rgb_from_bgra(&frame, 3, 1).err(),
        Some("Invalid frame size: expected 12, got 8".to_string())
    );
}

#[test]
fn frame_crop_is_centred_on_the_click() {
    let width = 2000;
    let height = 1000;
    let frame = vec![7u8; (width * height * 4) as usize];
    let captured = crop_frame_around_click(&frame, width, height, 100, 0, 1100, 500).unwrap();
    assert_eq!((captured.image.width, captured.image.height), (1440, 900));
    assert_eq!((captured.origin_x, captured.origin_y), (100 + 280, 50));
    assert_eq!((captured.click_x, captured.click_y), (720, 450));
    let corner = crop_frame_around_click(&frame, width, height, 0, 0, 5, 5).unwrap();
    assert_eq!((corner.origin_x, corner.origin_y, corner.click_x, corner.click_y), (0, 0, 5, 5));
    assert!(crop_frame_around_click(&frame[..8].to_vec(), width, height, 0, 0, 5, 5).is_err());
}

#[test]
fn png_encoding_round_trips_through_the_image_crate() {
    let image = gradient(3, 2);
    let png = encode_png(&image).unwrap();
    assert_eq!(&png[..8], &[0x89, b'P', b'N', b'G', 0x0D, 0x0A, 0x1A, 0x0A]);
    let decoded = ::image::load_from_memory(&png).unwrap().to_rgb8();
    assert_eq!((decoded.width(), decoded.height()), (3, 2));
    assert_eq!(decoded.into_raw(), image.data);
}

#[test]
fn rgb_buffer_for_the_engine() {
    let image = gradient(2, 2);
    let frame = image_to_rgb_image(&image).ok().unwrap();
    assert_eq!(frame.0.as_raw(), &image.data);
    let broken = Image { width: 2, height: 2, data: vec![0; 5] };
    assert_eq!(
        image_to_rgb_image(&broken).err(),
        Some("invalid RGB image buffer: expected 12 bytes, got 5".to_string())
    );
}

#[test]
fn png_of_an_empty_image_is_refused_with_the_prefix() {
    let image = Image { width: 0, height: 3, data: Vec::new() };
    let error = encode_png(&image).unwrap_err();
    assert!(error.starts_with("Failed to encode PNG: "), "{error}");
}
