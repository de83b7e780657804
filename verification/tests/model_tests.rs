use spatial_maker::error::SpatialError;
use spatial_maker::model::{
    is_newer_version, model_display_name, model_exists, model_file_matches, parse_u32_dec,
    ModelMetadata,
};

#[test]
fn coreml_metadata_for_each_size() {
    let s = ModelMetadata::coreml("s").unwrap();
    assert_eq!(s.name, "depth-anything-v2-small");
    assert_eq!(s.filename, "DepthAnythingV2SmallF16.mlpackage");
    assert_eq!(s.size_mb, 48);
    let b = ModelMetadata::coreml("base").unwrap();
    assert_eq!(b.size_mb, 186);
    let l = ModelMetadata::coreml("large").unwrap();
    assert_eq!(l.name, "depth-anything-v2-large");
    assert_eq!(l.size_mb, 638);
    assert!(matches!(
        ModelMetadata::coreml("xl"),
        Err(SpatialError::ConfigError(_))
    ));
}

#[test]
fn onnx_metadata_for_each_size() {
    let s = ModelMetadata::onnx("small").unwrap();
    assert_eq!(s.filename, "depth_anything_v2_small.onnx");
    assert_eq!(s.size_mb, 99);
    let b = ModelMetadata::onnx("b").unwrap();
    assert_eq!(b.size_mb, 380);
    let l = ModelMetadata::onnx("l").unwrap();
    assert_eq!(l.size_mb, 1300);
    assert!(ModelMetadata::onnx("").is_err());
}

#[test]
fn display_names() {
    assert_eq!(model_display_name("s"), ("small", 48));
    assert_eq!(model_display_name("base"), ("base", 186));
    assert_eq!(model_display_name("l"), ("large", 638));
    assert_eq!(model_display_name("weird"), ("weird", 0));
}

#[test]
fn matching_model_files() {
    assert!(model_file_matches("DepthAnythingV2SmallF16.mlpackage", "s"));
    assert!(model_file_matches("depth_anything_v2_large.onnx", "large"));
    // the size word is matched case-insensitively
    assert!(model_file_matches("DepthAnythingV2BASEF16.mlpackage", "b"));
    assert!(!model_file_matches("DepthAnythingV2SmallF16.mlpackage", "l"));
    assert!(!model_file_matches("some_other_model_small.onnx", "s"));
    assert!(!model_file_matches("DepthAnythingV2SmallF16.mlpackage", "huge"));
}

#[test]
fn model_exists_scans_a_listing() {
    let files = vec![
        "readme.txt".to_string(),
        "depth_anything_v2_base.onnx".to_string(),
    ];
    assert!(model_exists("b", &files));
    assert!(!model_exists("s", &files));
    assert!(!model_exists("b", &Vec::new()));
}

#[test]
fn version_comparison() {
    assert!(is_newer_version("1.2.3", "1.2.4"));
    assert!(!is_newer_version("1.2.3", "1.2.3"));
    assert!(!is_newer_version("1.10.0", "1.9.9"));
    assert!(is_newer_version("1.9.9", "1.10.0"));
    // a longer version beats its own prefix
    assert!(is_newer_version("1.2", "1.2.0"));
    assert!(!is_newer_version("1.2.0", "1.2"));
    // unparsable components are skipped
    assert!(is_newer_version("1.x.2", "1.3"));
}

#[test]
fn decimal_parsing() {
    assert_eq!(parse_u32_dec(b"0"), Some(0));
    assert_eq!(parse_u32_dec(b"4294967295"), Some(u32::MAX));
    assert_eq!(parse_u32_dec(b"4294967296"), None);
    assert_eq!(parse_u32_dec(b""), None);
    assert_eq!(parse_u32_dec(b"12a"), None);
    assert_eq!(parse_u32_dec(b"-1"), None);
}
