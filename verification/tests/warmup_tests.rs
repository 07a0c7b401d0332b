use armadillo_learn_desktop::warmup::{synthetic_text_image, synthetic_warmup_image, GLYPH_CHARS, GLYPH_ROWS, PHRASE};

/// The synthetic screen painted the way the recognition warm-up always
/// painted it: glyph by glyph, 3x3 blocks of ink per dot.
fn painted(width: u32, height: u32, row_step: u32) -> Vec<u8> {
    let mut data = vec![252u8; (width * height * 3) as usize];
    let mut top = 36u32;

    while top + 21 <= height.saturating_sub(36) {
        let mut x = 36u32;

        for character in PHRASE.iter().cycle() {
            if x + 24 > width.saturating_sub(36) {
                break;
            }

            if *character != ' ' {
                if let Some(index) = GLYPH_CHARS.iter().position(|c| c == character) {
                    for (glyph_row, bits) in GLYPH_ROWS[index].iter().enumerate() {
                        for column in 0..5u32 {
                            if bits & (1 << (4 - column)) == 0 {
                                continue;
                            }

                            for dy in 0..3 {
                                for dx in 0..3 {
                                    let px = x + column * 3 + dx;
                                    let py = top + glyph_row as u32 * 3 + dy;
                                    let i = ((py * width + px) * 3) as usize;
                                    data[i] = 30;
                                    data[i + 1] = 30;
                                    data[i + 2] = 30;
                                }
                            }
                        }
                    }
                }
            }

            x += 24;
        }

        top += row_step;
    }

    data
}

#[test]
fn synthetic_screen_matches_glyph_painting() {
    for (width, height, row_step) in [(200, 150, 34), (300, 120, 10), (100, 100, 1), (30, 30, 5), (97, 93, 21)] {
        let image = synthetic_text_image(width, height, row_step);
        assert_eq!((image.width, image.height), (width, height));
        assert_eq!(image.data, painted(width, height, row_step), "{width}x{height} step {row_step}");
    }
}

#[test]
fn warmup_screen_is_dense_text() {
    let image = synthetic_warmup_image();
    assert_eq!((image.width, image.height), (1440, 900));
    assert_eq!(image.data, painted(1440, 900, 34));
    let ink = image.data.iter().filter(|&&b| b == 30).count();
    assert!(ink > 0);
    // The top-left dot of the first 'S' (row 0x0F: columns 1..4) starts at (39, 36).
    let at = |x: u32, y: u32| image.data[((y * 1440 + x) * 3) as usize];
    assert_eq!(at(36, 36), 252);
    assert_eq!(at(39, 36), 30);
    assert_eq!(at(0, 0), 252);
}
