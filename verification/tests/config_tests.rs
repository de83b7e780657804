use spatial_maker::error::SpatialError;
use spatial_maker::grid::{ColorFrame, DepthGrid, NormalizedDepthGrid};
use spatial_maker::{
    detect_media_type, generate_output_base, MediaType, NormalizeMode, SpatialConfig, DEPTH_UNIT,
};

#[test]
fn default_config_values() {
    let c = SpatialConfig::default();
    assert_eq!(c.encoder_size, "s");
    assert_eq!(c.max_disparity, 30);
    assert_eq!(c.target_depth_size, 518);
    assert_eq!(c.temporal_alpha, 7000);
    assert_eq!(c.bilateral_sigma_space, 5000);
    assert_eq!(c.bilateral_sigma_color, 100);
    assert_eq!(c.depth_blur_sigma, 1500);
    assert_eq!(c.normalize_mode, NormalizeMode::RunningEMA);
    assert_eq!(NormalizeMode::default(), NormalizeMode::RunningEMA);
}

#[test]
fn normalize_mode_names_and_parsing() {
    assert_eq!(NormalizeMode::PerFrame.name(), "per-frame");
    assert_eq!(NormalizeMode::RunningEMA.name(), "running");
    assert_eq!(NormalizeMode::Global.name(), "global");
    assert_eq!(NormalizeMode::parse("per-frame").unwrap(), NormalizeMode::PerFrame);
    assert_eq!(NormalizeMode::parse("FRAME").unwrap(), NormalizeMode::PerFrame);
    assert_eq!(NormalizeMode::parse("ema").unwrap(), NormalizeMode::RunningEMA);
    assert_eq!(NormalizeMode::parse("running-ema").unwrap(), NormalizeMode::RunningEMA);
    assert_eq!(NormalizeMode::parse("two-pass").unwrap(), NormalizeMode::Global);
    assert_eq!(NormalizeMode::parse("TwoPass").unwrap(), NormalizeMode::Global);
    assert!(NormalizeMode::parse("median").is_err());
}

#[test]
fn media_types_by_extension() {
    assert_eq!(detect_media_type("clip.mp4"), MediaType::Video);
    assert_eq!(detect_media_type("CLIP.MOV"), MediaType::Video);
    assert_eq!(detect_media_type("a/b/movie.webm"), MediaType::Video);
    assert_eq!(detect_media_type("photo.jpg"), MediaType::Photo);
    assert_eq!(detect_media_type("archive.heic"), MediaType::Photo);
    assert_eq!(detect_media_type("noextension"), MediaType::Photo);
}

#[test]
fn output_base_joins_stem_and_model() {
    assert_eq!(generate_output_base("holiday", "s"), "holiday-s");
    assert_eq!(generate_output_base("x", "large"), "x-large");
}

#[test]
fn error_messages_carry_their_prefix() {
    assert_eq!(
        SpatialError::ModelError("m".to_string()).message(),
        "Model error: m"
    );
    assert_eq!(
        SpatialError::ImageError("i".to_string()).message(),
        "Image error: i"
    );
    assert_eq!(
        SpatialError::TensorError("t".to_string()).message(),
        "Tensor error: t"
    );
    assert_eq!(SpatialError::IoError("o".to_string()).message(), "I/O error: o");
    assert_eq!(
        SpatialError::ConfigError("c".to_string()).message(),
        "Configuration error: c"
    );
    assert_eq!(SpatialError::Other("x".to_string()).message(), "Error: x");
}

#[test]
fn grid_constructors_check_their_shapes() {
    assert!(DepthGrid::new(2, 2, vec![1, 2, 3]).is_err());
    assert!(matches!(
        DepthGrid::new(2, 2, vec![1, 2, 3, 4]),
        Ok(_)
    ));
    assert!(matches!(
        NormalizedDepthGrid::new(1, 1, vec![DEPTH_UNIT + 1]),
        Err(SpatialError::TensorError(_))
    ));
    assert!(NormalizedDepthGrid::new(1, 1, vec![DEPTH_UNIT]).is_ok());
    assert!(matches!(
        ColorFrame::from_raw(2, 1, vec![0; 5]),
        Err(SpatialError::ImageError(_))
    ));
    let f = ColorFrame::from_raw(2, 1, vec![0; 6]).unwrap();
    assert_eq!(f.width, 2);
    assert_eq!(f.height, 1);
}
