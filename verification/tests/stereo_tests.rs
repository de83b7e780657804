use spatial_maker::error::SpatialError;
use spatial_maker::grid::{ColorFrame, NormalizedDepthGrid};
use spatial_maker::stereo::generate_stereo_pair;
use spatial_maker::DEPTH_UNIT;

fn frame_of_pixels(width: usize, height: usize, px: &[(u8, u8, u8)]) -> ColorFrame {
    let mut data = Vec::new();
    for &(r, g, b) in px {
        data.push(r);
        data.push(g);
        data.push(b);
    }
    ColorFrame::from_raw(width, height, data).unwrap()
}

fn uniform_frame(width: usize, height: usize, c: (u8, u8, u8)) -> ColorFrame {
    frame_of_pixels(width, height, &vec![c; width * height])
}

fn depth(width: usize, height: usize, data: Vec<u32>) -> NormalizedDepthGrid {
    NormalizedDepthGrid::new(width, height, data).unwrap()
}

fn pixel(f: &ColorFrame, y: usize, x: usize) -> (u8, u8, u8) {
    let i = 3 * (y * f.width + x);
    (f.data[i], f.data[i + 1], f.data[i + 2])
}

#[test]
fn zero_disparity_returns_the_left_view() {
    let img = frame_of_pixels(
        2,
        2,
        &[(1, 2, 3), (4, 5, 6), (7, 8, 9), (10, 11, 12)],
    );
    let d = depth(2, 2, vec![10000, 0, 5000, 2500]);
    let (left, right) = generate_stereo_pair(&img, &d, 0).unwrap();
    assert_eq!(left.data, img.data);
    assert_eq!(right.data, img.data);
}

#[test]
fn all_far_depth_returns_the_left_view() {
    // a 4x4 uniform gray image with an all-zero depth grid and a large
    // maximum disparity: zero depth means zero shift everywhere
    let img = uniform_frame(4, 4, (128, 128, 128));
    let d = depth(4, 4, vec![0; 16]);
    let (left, right) = generate_stereo_pair(&img, &d, 10).unwrap();
    assert_eq!(left.data, img.data);
    assert_eq!(right.data, img.data);
}

#[test]
fn near_content_shifts_left_and_wins_collisions() {
    // one row: background B at depth 0, a near pixel N at column 4,
    // max disparity 2; the near pixel lands on column 2 and beats the
    // background pixel written there
    let bg = (10, 10, 10);
    let near = (200, 0, 0);
    let mut px = vec![bg; 8];
    px[4] = near;
    let img = frame_of_pixels(8, 1, &px);
    let mut dd = vec![0u32; 8];
    dd[4] = DEPTH_UNIT;
    let d = depth(8, 1, dd);
    let (_, right) = generate_stereo_pair(&img, &d, 2).unwrap();
    assert_eq!(pixel(&right, 0, 2), near);
    // untouched background columns keep their color
    assert_eq!(pixel(&right, 0, 0), bg);
    assert_eq!(pixel(&right, 0, 1), bg);
    assert_eq!(pixel(&right, 0, 7), bg);
}

#[test]
fn vacated_columns_fill_with_the_background() {
    // a near region at the left edge shifts fully out of frame; the
    // columns it vacated must be filled from the background, not left
    // at the neutral gray
    let bg = (40, 80, 120);
    let near = (250, 1, 1);
    let mut px = vec![bg; 24];
    let mut dd = vec![0u32; 24];
    for y in 0..3 {
        for x in 0..2 {
            px[y * 8 + x] = near;
            dd[y * 8 + x] = DEPTH_UNIT;
        }
    }
    let img = frame_of_pixels(8, 3, &px);
    let d = depth(8, 3, dd);
    let (_, right) = generate_stereo_pair(&img, &d, 4).unwrap();
    for y in 0..3 {
        for x in 0..8 {
            assert_eq!(pixel(&right, y, x), bg, "pixel ({}, {})", y, x);
        }
    }
}

#[test]
fn empty_inputs_are_synthesis_errors() {
    let img = uniform_frame(2, 2, (0, 0, 0));
    let empty_img = ColorFrame::from_raw(0, 0, Vec::new()).unwrap();
    let d = depth(2, 2, vec![0; 4]);
    let empty_d = NormalizedDepthGrid::new(0, 2, Vec::new()).unwrap();
    assert!(matches!(
        generate_stereo_pair(&empty_img, &d, 5),
        Err(SpatialError::ImageError(_))
    ));
    assert!(matches!(
        generate_stereo_pair(&img, &empty_d, 5),
        Err(SpatialError::ImageError(_))
    ));
}

#[test]
fn depth_grid_may_differ_in_size_from_the_image() {
    // a 2x2 depth grid drives a 4x4 image through nearest-neighbor
    // index scaling; all-zero depth still means no shift
    let img = uniform_frame(4, 4, (9, 9, 9));
    let d = depth(2, 2, vec![0, 0, 0, 0]);
    let (left, right) = generate_stereo_pair(&img, &d, 8).unwrap();
    assert_eq!(left.data, right.data);
}

#[test]
fn disparity_rounds_half_up() {
    // depth 0.25 at max disparity 2 gives round(0.5) = 1: the marked
    // column shifts one to the left and beats the background there
    let a = (1, 1, 1);
    let b = (2, 2, 2);
    let img = frame_of_pixels(4, 1, &[a, b, a, a]);
    let d = depth(4, 1, vec![0, 2500, 0, 0]);
    let (_, right) = generate_stereo_pair(&img, &d, 2).unwrap();
    assert_eq!(pixel(&right, 0, 0), b);
    assert_eq!(pixel(&right, 0, 2), a);
    assert_eq!(pixel(&right, 0, 3), a);
}

#[test]
fn uniform_depth_shifts_the_whole_image() {
    // constant depth 0.5 at max disparity 2: every pixel shifts left by
    // round(1.0) = 1, so column x of the right view shows column x+1
    let px: Vec<(u8, u8, u8)> = (0..12u8).map(|i| (i, 100 + i, 200 + i)).collect();
    let img = frame_of_pixels(6, 2, &px);
    let d = depth(6, 2, vec![5000; 12]);
    let (_, right) = generate_stereo_pair(&img, &d, 2).unwrap();
    for y in 0..2 {
        for x in 0..5 {
            assert_eq!(pixel(&right, y, x), pixel(&img, y, x + 1), "pixel ({}, {})", y, x);
        }
    }
}
