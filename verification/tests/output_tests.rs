use spatial_maker::grid::{ColorFrame, DepthGrid};
use spatial_maker::output::{
    create_sbs_image, create_tab_image, depth_formats, depth_to_gray16, depth_to_gray8,
    gray16_to_be_bytes, gray8_to_rgb, needs_depth, needs_stereo, parse_depth_format,
    parse_output_types, parse_stereo_type, stereo_types, DepthFormat, ImageEncoding,
    MVHEVCConfig, OutputFormat, OutputOptions, OutputType,
};

#[test]
fn depth_format_names() {
    assert_eq!(DepthFormat::Avif.extension(), "avif");
    assert_eq!(DepthFormat::Png.extension(), "png");
    assert_eq!(DepthFormat::Png16.extension(), "png");
    assert_eq!(DepthFormat::Avif.suffix(), "");
    assert_eq!(DepthFormat::Png.suffix(), "");
    assert_eq!(DepthFormat::Png16.suffix(), "-16bit");
}

#[test]
fn output_format_names() {
    assert_eq!(OutputFormat::SideBySide.name(), "side-by-side");
    assert_eq!(OutputFormat::TopAndBottom.name(), "top-and-bottom");
    assert_eq!(OutputFormat::Separate.name(), "separate");
}

#[test]
fn image_encoding_from_path() {
    assert_eq!(ImageEncoding::from_path("out/picture.PNG"), ImageEncoding::Png);
    assert_eq!(ImageEncoding::from_path("picture.png"), ImageEncoding::Png);
    assert_eq!(
        ImageEncoding::from_path("photo.jpg"),
        ImageEncoding::Jpeg { quality: 95 }
    );
    assert_eq!(
        ImageEncoding::from_path("no_extension"),
        ImageEncoding::Jpeg { quality: 95 }
    );
    assert_eq!(
        ImageEncoding::from_path("dir.png/file"),
        ImageEncoding::Jpeg { quality: 95 }
    );
    assert_eq!(ImageEncoding::Png.extension(), "png");
    assert_eq!(ImageEncoding::Jpeg { quality: 80 }.extension(), "jpg");
}

#[test]
fn parse_single_stereo_type() {
    assert_eq!(parse_output_types("spatial").unwrap(), vec![OutputType::Spatial]);
    assert_eq!(parse_output_types("sbs").unwrap(), vec![OutputType::SideBySide]);
    assert_eq!(
        parse_output_types("sbs,tab,sep").unwrap(),
        vec![OutputType::SideBySide, OutputType::TopAndBottom, OutputType::Separate]
    );
}

#[test]
fn parse_depth_requests() {
    assert_eq!(
        parse_output_types("depth").unwrap(),
        vec![OutputType::Depth(vec![DepthFormat::Avif])]
    );
    assert_eq!(
        parse_output_types("depth:png,png16").unwrap(),
        vec![OutputType::Depth(vec![DepthFormat::Png, DepthFormat::Png16])]
    );
    assert_eq!(
        parse_output_types("depth,png").unwrap(),
        vec![OutputType::Depth(vec![DepthFormat::Png])]
    );
    // the depth request is placed first, whatever the order given
    assert_eq!(
        parse_output_types("sbs,depth:avif").unwrap(),
        vec![OutputType::Depth(vec![DepthFormat::Avif]), OutputType::SideBySide]
    );
}

#[test]
fn parse_trims_spaces_and_skips_empty_tokens() {
    assert_eq!(
        parse_output_types(" sbs ,  spatial ,, ").unwrap(),
        vec![OutputType::SideBySide, OutputType::Spatial]
    );
}

#[test]
fn parse_rejects_bad_lists() {
    assert!(parse_output_types("").is_err());
    assert!(parse_output_types("bogus").is_err());
    // a bare depth format needs a preceding depth request
    assert!(parse_output_types("png").is_err());
    assert!(parse_output_types("png,depth").is_err());
    assert!(parse_output_types("depth:bogus").is_err());
    assert!(parse_output_types("depth:").is_err());
}

#[test]
fn parse_format_tokens() {
    assert_eq!(parse_depth_format("avif").unwrap(), DepthFormat::Avif);
    assert_eq!(parse_depth_format("png16").unwrap(), DepthFormat::Png16);
    assert!(parse_depth_format("gif").is_err());
    assert_eq!(parse_stereo_type("tab").unwrap(), OutputType::TopAndBottom);
    assert!(parse_stereo_type("depth").is_err());
}

#[test]
fn selectors_over_output_lists() {
    let types = vec![
        OutputType::Depth(vec![DepthFormat::Png]),
        OutputType::SideBySide,
        OutputType::Spatial,
    ];
    assert!(needs_depth(&types));
    assert!(needs_stereo(&types));
    assert_eq!(depth_formats(&types), vec![DepthFormat::Png]);
    assert_eq!(
        stereo_types(&types),
        vec![OutputType::SideBySide, OutputType::Spatial]
    );
    let only_depth = vec![OutputType::Depth(vec![DepthFormat::Avif])];
    assert!(!needs_stereo(&only_depth));
    assert!(needs_depth(&only_depth));
}

#[test]
fn default_options() {
    let o = OutputOptions::default();
    assert_eq!(o.layout, OutputFormat::SideBySide);
    assert_eq!(o.image_format, ImageEncoding::Jpeg { quality: 95 });
    assert!(o.mvhevc.is_none());
    let m = MVHEVCConfig::default();
    assert!(!m.enabled);
    assert_eq!(m.quality, 95);
    assert!(!m.keep_intermediate);
    assert!(m.spatial_cli_path.is_none());
}

#[test]
fn gray8_quantization_is_exact() {
    let g = DepthGrid::new(2, 2, vec![0, 100, 50, 25]).unwrap();
    let px = depth_to_gray8(&g);
    // round((v - 0) * 255 / 100)
    assert_eq!(px, vec![0, 255, 128, 64]);
    let flat = DepthGrid::new(2, 1, vec![7, 7]).unwrap();
    assert_eq!(depth_to_gray8(&flat), vec![128, 128]);
}

#[test]
fn gray16_quantization_is_exact() {
    let g = DepthGrid::new(2, 1, vec![10, 30]).unwrap();
    let px = depth_to_gray16(&g);
    assert_eq!(px, vec![0, 65535]);
    let flat = DepthGrid::new(1, 1, vec![42]).unwrap();
    assert_eq!(depth_to_gray16(&flat), vec![32768]);
}

#[test]
fn gray16_serializes_big_endian() {
    assert_eq!(gray16_to_be_bytes(&vec![0x1234, 0x00FF]), vec![0x12, 0x34, 0x00, 0xFF]);
}

#[test]
fn gray_replicates_into_rgb() {
    assert_eq!(gray8_to_rgb(&vec![7, 9]), vec![7, 7, 7, 9, 9, 9]);
}

#[test]
fn side_by_side_composition() {
    let left = ColorFrame::from_raw(1, 2, vec![1, 2, 3, 4, 5, 6]).unwrap();
    let right = ColorFrame::from_raw(1, 2, vec![7, 8, 9, 10, 11, 12]).unwrap();
    let c = create_sbs_image(&left, &right);
    assert_eq!(c.width, 2);
    assert_eq!(c.height, 2);
    assert_eq!(c.data, vec![1, 2, 3, 7, 8, 9, 4, 5, 6, 10, 11, 12]);
}

#[test]
fn top_and_bottom_composition() {
    let left = ColorFrame::from_raw(2, 1, vec![1, 2, 3, 4, 5, 6]).unwrap();
    let right = ColorFrame::from_raw(2, 1, vec![7, 8, 9, 10, 11, 12]).unwrap();
    let c = create_tab_image(&left, &right);
    assert_eq!(c.width, 2);
    assert_eq!(c.height, 2);
    assert_eq!(c.data, vec![1, 2, 3, 4, 5, 6, 7, 8, 9, 10, 11, 12]);
}
