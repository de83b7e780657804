use spatial_maker::error::SpatialError;
use spatial_maker::video::{
    compute_total_frames, frame_byte_size, parse_duration_ms, parse_frame_rate,
    parse_video_metadata, VideoProgress,
};

#[test]
fn progress_percent() {
    let p = VideoProgress::new(50, 200, "processing".to_string());
    assert_eq!(p.percent, 25);
    assert_eq!(p.current_frame, 50);
    assert_eq!(p.total_frames, 200);
    assert_eq!(p.stage, "processing");
    assert_eq!(VideoProgress::new(7, 0, "extracting".to_string()).percent, 0);
    assert_eq!(VideoProgress::new(300, 200, "processing".to_string()).percent, 100);
}

#[test]
fn frame_rates_parse_as_rationals() {
    assert_eq!(parse_frame_rate("30000/1001"), (30000, 1001));
    assert_eq!(parse_frame_rate("25/1"), (25, 1));
    assert_eq!(parse_frame_rate("25"), (25, 1));
    assert_eq!(parse_frame_rate("29.97"), (2997, 100));
    assert_eq!(parse_frame_rate("23.976"), (23976, 1000));
    // fallbacks: an unparsable token, a zero denominator
    assert_eq!(parse_frame_rate("fast"), (30, 1));
    assert_eq!(parse_frame_rate("30/0"), (30, 1));
    assert_eq!(parse_frame_rate("x/7"), (30, 7));
}

#[test]
fn durations_parse_to_milliseconds() {
    assert_eq!(parse_duration_ms("12.345678"), Some(12345));
    assert_eq!(parse_duration_ms("5"), Some(5000));
    assert_eq!(parse_duration_ms("0.5"), Some(500));
    assert_eq!(parse_duration_ms("0.05"), Some(50));
    assert_eq!(parse_duration_ms("3."), Some(3000));
    assert_eq!(parse_duration_ms("abc"), None);
    assert_eq!(parse_duration_ms(""), None);
}

#[test]
fn total_frames_round_to_nearest() {
    assert_eq!(compute_total_frames(1000, 30, 1), 30);
    assert_eq!(compute_total_frames(1001000, 30000, 1001), 30000);
    // 1.49 seconds at 1 fps rounds to 1; 1.5 rounds up to 2
    assert_eq!(compute_total_frames(1490, 1, 1), 1);
    assert_eq!(compute_total_frames(1500, 1, 1), 2);
}

#[test]
fn frame_sizes() {
    assert_eq!(frame_byte_size(4, 3), Some(36));
    assert_eq!(frame_byte_size(40000, 2), None);
}

#[test]
fn metadata_parses_a_probe_document() {
    let probe = r#"{
        "streams": [
            {
                "width": 1920,
                "height": 1080,
                "r_frame_rate": "30000/1001",
                "nb_frames": "300",
                "duration": "10.010000"
            }
        ],
        "format": { "duration": "10.010000" }
    }"#;
    let m = parse_video_metadata(probe, "audio").unwrap();
    assert_eq!(m.width, 1920);
    assert_eq!(m.height, 1080);
    assert_eq!(m.fps_num, 30000);
    assert_eq!(m.fps_den, 1001);
    assert_eq!(m.total_frames, 300);
    assert_eq!(m.duration_ms, 10010);
    assert!(m.has_audio);
}

#[test]
fn metadata_falls_back_to_computed_frames_and_container_duration() {
    let probe = r#"{
        "streams": [
            { "width": 640, "height": 480, "r_frame_rate": "25/1" }
        ],
        "format": { "duration": "2.000000" }
    }"#;
    let m = parse_video_metadata(probe, "").unwrap();
    assert_eq!(m.duration_ms, 2000);
    assert_eq!(m.total_frames, 50);
    assert!(!m.has_audio);
}

#[test]
fn metadata_errors_on_malformed_probes() {
    assert!(matches!(
        parse_video_metadata("not json", ""),
        Err(SpatialError::Other(_))
    ));
    assert!(matches!(
        parse_video_metadata(r#"{"streams": []}"#, ""),
        Err(SpatialError::Other(_))
    ));
    assert!(matches!(
        parse_video_metadata(r#"{"streams": [{"height": 10}]}"#, ""),
        Err(SpatialError::Other(_))
    ));
    assert!(matches!(
        parse_video_metadata(r#"{"streams": [{"width": 10, "height": "ten"}]}"#, ""),
        Err(SpatialError::Other(_))
    ));
}
