use spatial_maker::depth_filter::{bilateral_filter, gaussian_blur, temporal_blend, DepthProcessor};
use spatial_maker::error::SpatialError;
use spatial_maker::grid::{DepthGrid, NormalizedDepthGrid};
use spatial_maker::NormalizeMode;
use spatial_maker::{DEPTH_HALF, DEPTH_UNIT};

fn raw_grid(width: usize, height: usize, data: Vec<u32>) -> DepthGrid {
    DepthGrid::new(width, height, data).unwrap()
}

fn norm_grid(width: usize, height: usize, data: Vec<u32>) -> NormalizedDepthGrid {
    NormalizedDepthGrid::new(width, height, data).unwrap()
}

#[test]
fn per_frame_normalization_rescales_exactly() {
    let mut p = DepthProcessor::new(0, 0, 0, 0, NormalizeMode::PerFrame).unwrap();
    let out = p.process(raw_grid(2, 2, vec![0, 100, 50, 25]));
    // (v - 0) * 10000 / 100
    assert_eq!(out.data, vec![0, 10000, 5000, 2500]);
    assert_eq!(out.width, 2);
    assert_eq!(out.height, 2);
}

#[test]
fn normalized_output_stays_in_unit_range() {
    let mut p = DepthProcessor::new(7000, 5000, 100, 1500, NormalizeMode::RunningEMA).unwrap();
    let out = p.process(raw_grid(3, 2, vec![7, 123456, 42, 9999, 31, 77]));
    for &v in &out.data {
        assert!(v <= DEPTH_UNIT);
    }
    let out2 = p.process(raw_grid(3, 2, vec![100, 2, 300, 4, 500, 6]));
    for &v in &out2.data {
        assert!(v <= DEPTH_UNIT);
    }
}

#[test]
fn degenerate_grid_becomes_uniform_half_per_frame() {
    let mut p = DepthProcessor::new(0, 5000, 100, 1500, NormalizeMode::PerFrame).unwrap();
    let out = p.process(raw_grid(4, 3, vec![77; 12]));
    assert_eq!(out.data, vec![DEPTH_HALF; 12]);
}

#[test]
fn degenerate_grid_becomes_uniform_half_on_first_ema_frame() {
    let mut p = DepthProcessor::new(0, 0, 0, 0, NormalizeMode::RunningEMA).unwrap();
    let out = p.process(raw_grid(2, 2, vec![123; 4]));
    assert_eq!(out.data, vec![DEPTH_HALF; 4]);
}

#[test]
fn gaussian_blur_keeps_a_uniform_grid() {
    let g = norm_grid(5, 4, vec![777; 20]);
    let out = gaussian_blur(&g, 1500);
    assert_eq!(out.data, vec![777; 20]);
    assert_eq!(out.width, 5);
    assert_eq!(out.height, 4);
}

#[test]
fn bilateral_filter_keeps_a_uniform_grid() {
    let g = norm_grid(4, 4, vec![2500; 16]);
    let out = bilateral_filter(&g, 5000, 100);
    assert_eq!(out.data, vec![2500; 16]);
}

#[test]
fn bilateral_filter_keeps_a_uniform_grid_with_zero_color_sigma() {
    let g = norm_grid(3, 3, vec![4000; 9]);
    let out = bilateral_filter(&g, 2000, 0);
    assert_eq!(out.data, vec![4000; 9]);
}

#[test]
fn blend_with_full_alpha_returns_current() {
    let cur = norm_grid(2, 2, vec![1, 2, 3, 4]);
    let prev = norm_grid(2, 2, vec![9000, 9000, 9000, 9000]);
    let out = temporal_blend(&cur, &prev, DEPTH_UNIT);
    assert_eq!(out.data, cur.data);
}

#[test]
fn blend_with_zero_alpha_returns_previous() {
    let cur = norm_grid(2, 2, vec![1, 2, 3, 4]);
    let prev = norm_grid(2, 2, vec![9000, 8000, 7000, 6000]);
    let out = temporal_blend(&cur, &prev, 0);
    assert_eq!(out.data, prev.data);
}

#[test]
fn blend_mixes_by_alpha_exactly() {
    let cur = norm_grid(1, 1, vec![10000]);
    let prev = norm_grid(1, 1, vec![0]);
    let out = temporal_blend(&cur, &prev, 7000);
    // (7000*10000 + 3000*0) / 10000
    assert_eq!(out.data, vec![7000]);
}

#[test]
fn running_ema_seeds_then_steps() {
    let mut p = DepthProcessor::new(0, 0, 0, 0, NormalizeMode::RunningEMA).unwrap();
    p.process(raw_grid(1, 2, vec![100, 300]));
    assert_eq!(p.ema_min, 100);
    assert_eq!(p.ema_max, 300);
    p.process(raw_grid(1, 2, vec![200, 500]));
    // ema += (observed - ema) / 20
    assert_eq!(p.ema_min, 100 + (200 - 100) / 20);
    assert_eq!(p.ema_max, 300 + (500 - 300) / 20);
}

#[test]
fn out_of_range_parameters_are_config_errors() {
    assert!(matches!(
        DepthProcessor::new(DEPTH_UNIT + 1, 0, 0, 0, NormalizeMode::PerFrame),
        Err(SpatialError::ConfigError(_))
    ));
    assert!(matches!(
        DepthProcessor::new(0, 100001, 0, 0, NormalizeMode::PerFrame),
        Err(SpatialError::ConfigError(_))
    ));
    assert!(matches!(
        DepthProcessor::new(0, 0, 1000001, 0, NormalizeMode::PerFrame),
        Err(SpatialError::ConfigError(_))
    ));
    assert!(matches!(
        DepthProcessor::new(0, 0, 0, 100001, NormalizeMode::PerFrame),
        Err(SpatialError::ConfigError(_))
    ));
}

#[test]
fn two_pass_global_normalization_matches_the_manual_formula() {
    // three frames with known extrema; the global range is [5, 40]
    let frames = vec![
        vec![10u32, 20, 15, 12],
        vec![5u32, 15, 9, 11],
        vec![30u32, 40, 33, 38],
    ];
    let mut p = DepthProcessor::new(0, 0, 0, 0, NormalizeMode::Global).unwrap();
    for f in &frames {
        p.update_global_range(&raw_grid(2, 2, f.clone()));
    }
    assert_eq!(p.global_min, 5);
    assert_eq!(p.global_max, 40);
    for f in &frames {
        let out = p.process(raw_grid(2, 2, f.clone()));
        let manual: Vec<u32> = f.iter().map(|&v| (v - 5) * 10000 / 35).collect();
        assert_eq!(out.data, manual);
    }
}

#[test]
fn global_mode_with_explicit_range_clamps() {
    let mut p = DepthProcessor::new(0, 0, 0, 0, NormalizeMode::Global).unwrap();
    p.set_global_range(100, 200);
    let out = p.process(raw_grid(1, 4, vec![50, 100, 150, 250]));
    assert_eq!(out.data, vec![0, 0, 5000, 10000]);
}

#[test]
fn global_mode_without_a_range_is_degenerate() {
    let mut p = DepthProcessor::new(0, 0, 0, 0, NormalizeMode::Global).unwrap();
    let out = p.process(raw_grid(1, 2, vec![1, 2]));
    assert_eq!(out.data, vec![DEPTH_HALF, DEPTH_HALF]);
}

#[test]
fn blending_skips_a_dimension_mismatch() {
    let mut p = DepthProcessor::new(5000, 0, 0, 0, NormalizeMode::PerFrame).unwrap();
    let first = p.process(raw_grid(2, 2, vec![0, 100, 50, 25]));
    assert_eq!(first.data, vec![0, 10000, 5000, 2500]);
    // different dimensions: no blend, but the new frame becomes the stored one
    let second = p.process(raw_grid(3, 1, vec![0, 50, 100]));
    assert_eq!(second.data, vec![0, 5000, 10000]);
    let third = p.process(raw_grid(3, 1, vec![100, 50, 0]));
    // blended against `second`: 0.5*current + 0.5*previous
    assert_eq!(third.data, vec![5000, 5000, 5000]);
}

#[test]
fn frame_index_counts_frames() {
    let mut p = DepthProcessor::new(0, 0, 0, 0, NormalizeMode::PerFrame).unwrap();
    assert_eq!(p.frame_index, 0);
    p.process(raw_grid(1, 1, vec![3]));
    p.process(raw_grid(1, 1, vec![4]));
    assert_eq!(p.frame_index, 2);
}

#[test]
fn gaussian_blur_spreads_a_spike() {
    let g = norm_grid(5, 1, vec![0, 0, 10000, 0, 0]);
    let out = gaussian_blur(&g, 1000);
    // smoothing moves mass outward: the spike shrinks, its neighbors rise
    assert!(out.data[2] < 10000);
    assert!(out.data[1] > 0);
    assert!(out.data[3] > 0);
    assert_eq!(out.data[1], out.data[3]);
}

#[test]
fn bilateral_filter_averages_within_a_wide_color_range() {
    let g = norm_grid(5, 1, vec![0, 0, 10000, 0, 0]);
    // a huge color sigma makes the filter purely spatial
    let out = bilateral_filter(&g, 1000, 1000000);
    assert!(out.data[2] < 10000);
    assert!(out.data[1] > 0);
}

#[test]
fn bilateral_filter_preserves_edges_with_a_tight_color_range() {
    let g = norm_grid(6, 1, vec![0, 0, 0, 10000, 10000, 10000]);
    // color sigma 0: only exactly-matching neighbors contribute, so the
    // step edge passes through untouched
    let out = bilateral_filter(&g, 1000, 0);
    assert_eq!(out.data, vec![0, 0, 0, 10000, 10000, 10000]);
}
