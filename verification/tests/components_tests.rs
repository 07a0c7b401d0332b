use armadillo_learn_desktop::components::mask_regions;
use armadillo_learn_desktop::image::Region;

fn flood_regions(data: &[f32], width: usize, height: usize, threshold: f32) -> Vec<Region> {
    if data.len() != width * height {
        return Vec::new();
    }
    let mut visited = vec![false; data.len()];
    let mut regions = Vec::new();
    for y in 0..height {
        for x in 0..width {
            let index = y * width + x;
            if visited[index] {
                continue;
            }
            visited[index] = true;
            if data[index] <= threshold {
                continue;
            }
            let mut queue = std::collections::VecDeque::new();
            queue.push_back((x, y));
            let (mut min_x, mut min_y, mut max_x, mut max_y) = (x, y, x, y);
            let mut count = 0usize;
            while let Some((cx, cy)) = queue.pop_front() {
                count += 1;
                min_x = min_x.min(cx);
                min_y = min_y.min(cy);
                max_x = max_x.max(cx);
                max_y = max_y.max(cy);
                for (nx, ny) in [
                    (cx.wrapping_sub(1), cy),
                    (cx + 1, cy),
                    (cx, cy.wrapping_sub(1)),
                    (cx, cy + 1),
                ] {
                    if nx >= width || ny >= height {
                        continue;
                    }
                    let n = ny * width + nx;
                    if visited[n] {
                        continue;
                    }
                    visited[n] = true;
                    if data[n] > threshold {
                        queue.push_back((nx, ny));
                    }
                }
            }
            let (rw, rh) = (max_x - min_x + 1, max_y - min_y + 1);
            if count < 20 || rw < 3 || rh < 3 {
                continue;
            }
            regions.push(Region::new(min_x as i32, min_y as i32, rw as u32, rh as u32));
        }
    }
    regions
}

fn threshold_mask(data: &[f32], threshold: f32) -> Vec<bool> {
    data.iter().map(|value| *value > threshold).collect()
}

fn same(a: &[Region], b: &[Region]) -> bool {
    a.len() == b.len()
        && a.iter().zip(b).all(|(r, s)| r.x == s.x && r.y == s.y && r.width == s.width && r.height == s.height)
}

fn pseudo_random_map(seed: u64, width: usize, height: usize) -> Vec<f32> {
    let mut state = seed;
    (0..width * height)
        .map(|_| {
            state = state.wrapping_mul(6364136223846793005).wrapping_add(1442695040888963407);
            ((state >> 33) % 1000) as f32 / 1000.0
        })
        .collect()
}

#[test]
fn empty_map_has_no_regions() {
    assert!(mask_regions(&Vec::new(), 0, 0).is_empty());
    assert!(mask_regions(&vec![false; 12], 4, 3).is_empty());
}

#[test]
fn mask_of_wrong_length_has_no_regions() {
    assert!(mask_regions(&vec![true; 11], 4, 3).is_empty());
    assert!(mask_regions(&vec![true; 3], usize::MAX, 2).is_empty());
}

#[test]
fn filled_block_is_one_region() {
    let (w, h) = (10usize, 8usize);
    let mut mask = vec![false; w * h];
    for y in 2..7 {
        for x in 3..8 {
            mask[y * w + x] = true;
        }
    }
    let regions = mask_regions(&mask, w, h);
    assert_eq!(regions.len(), 1);
    assert_eq!((regions[0].x, regions[0].y, regions[0].width, regions[0].height), (3, 2, 5, 5));
}

#[test]
fn small_groups_are_dropped() {
    let (w, h) = (30usize, 6usize);
    let mut mask = vec![false; w * h];
    // 19 pixels in a 5 x 4 block less one: too few.
    for y in 0..4 {
        for x in 0..5 {
            mask[y * w + x] = true;
        }
    }
    mask[0] = false;
    // A 2-pixel-high bar of 24 pixels: too thin.
    for y in 0..2 {
        for x in 10..22 {
            mask[y * w + x] = true;
        }
    }
    assert!(mask_regions(&mask, w, h).is_empty());
}

#[test]
fn diagonal_pixels_do_not_join() {
    let (w, h) = (12usize, 12usize);
    let mut mask = vec![false; w * h];
    for y in 0..5 {
        for x in 0..5 {
            mask[y * w + x] = true;
        }
    }
    for y in 5..10 {
        for x in 5..10 {
            mask[y * w + x] = true;
        }
    }
    let regions = mask_regions(&mask, w, h);
    assert_eq!(regions.len(), 2);
    assert_eq!((regions[0].x, regions[0].y), (0, 0));
    assert_eq!((regions[1].x, regions[1].y), (5, 5));
}

#[test]
fn ring_is_one_region_reported_at_its_first_pixel() {
    let (w, h) = (9usize, 9usize);
    let mut mask = vec![false; w * h];
    for i in 1..8 {
        mask[w + i] = true;
        mask[7 * w + i] = true;
        mask[i * w + 1] = true;
        mask[i * w + 7] = true;
    }
    let regions = mask_regions(&mask, w, h);
    assert_eq!(regions.len(), 1);
    assert_eq!((regions[0].x, regions[0].y, regions[0].width, regions[0].height), (1, 1, 7, 7));
}

#[test]
fn u_shape_found_from_its_top_left() {
    // Two arms joined at the bottom: the scan meets the right arm's top
    // after the left arm's and must not report it again.
    let (w, h) = (10usize, 10usize);
    let mut mask = vec![false; w * h];
    for y in 0..9 {
        mask[y * w + 1] = true;
        mask[y * w + 2] = true;
        mask[y * w + 7] = true;
        mask[y * w + 8] = true;
    }
    for x in 1..9 {
        mask[8 * w + x] = true;
    }
    let regions = mask_regions(&mask, w, h);
    assert_eq!(regions.len(), 1);
    assert_eq!((regions[0].x, regions[0].y, regions[0].width, regions[0].height), (1, 0, 8, 9));
}

#[test]
fn matches_flood_fill_on_random_maps() {
    for seed in 0..40u64 {
        let (w, h) = (17 + (seed as usize % 7), 13 + (seed as usize % 5));
        let data = pseudo_random_map(seed, w, h);
        for threshold in [0.3f32, 0.5, 0.7] {
            let expected = flood_regions(&data, w, h, threshold);
            let found = mask_regions(&threshold_mask(&data, threshold), w, h);
            assert!(same(&expected, &found), "seed {} threshold {}", seed, threshold);
        }
    }
}
