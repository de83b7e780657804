//! Turns a single RGB image plus a per-pixel depth map into a stereoscopic
//! (left/right) image pair, and extends the same transformation across a
//! video's frames with temporal stabilization.
//!
//! Depth values are carried in fixed-point integer form throughout: a raw
//! depth sample is a `u32` on an arbitrary affine scale (normalization is
//! invariant under affine rescaling), and a normalized depth sample is a
//! `u32` in `0 ..= DEPTH_UNIT`, where `DEPTH_UNIT` stands for 1.0.
use vstd::prelude::*;
use vstd::string::StringSliceAdditionalSpecFns;
use vstd::string::StringExecFns;

pub mod depth_filter;
pub mod error;
pub mod grid;
pub mod jsonval;
pub mod model;
pub mod output;
pub mod pipeline;
pub mod stereo;
pub mod text;
pub mod video;

verus! {

/// Fixed-point scale for normalized depth values: `DEPTH_UNIT` stands for 1.0.
pub const DEPTH_UNIT: u32 = 10000;

/// Fixed-point half, the neutral value a degenerate depth grid normalizes to.
pub const DEPTH_HALF: u32 = 5000;

/// How a raw depth grid is rescaled to the normalized `0 ..= DEPTH_UNIT` range.
#[derive(Clone, Copy, Debug, PartialEq, Eq, Structural)]
pub enum NormalizeMode {
    /// Rescale each frame by its own minimum and maximum.
    PerFrame,
    /// Rescale by a running exponential moving average of per-frame extrema.
    RunningEMA,
    /// Rescale by a fixed range accumulated over a whole first pass.
    Global,
}

impl Default for NormalizeMode {
    fn default() -> (r: Self)
        ensures
            r == NormalizeMode::RunningEMA,
    {
        NormalizeMode::RunningEMA
    }
}

/// The normalization mode a token names, compared after ASCII lowercasing.
pub open spec fn mode_of(b: Seq<u8>) -> Option<NormalizeMode> {
    let t = crate::output::lower_seq(b);
    if t == "per-frame".spec_bytes() || t == "perframe".spec_bytes()
        || t == "frame".spec_bytes() {
        Some(NormalizeMode::PerFrame)
    } else if t == "running".spec_bytes() || t == "ema".spec_bytes()
        || t == "running-ema".spec_bytes() {
        Some(NormalizeMode::RunningEMA)
    } else if t == "global".spec_bytes() || t == "two-pass".spec_bytes()
        || t == "twopass".spec_bytes() {
        Some(NormalizeMode::Global)
    } else {
        None
    }
}

impl NormalizeMode {
    /// The mode's display name.
    pub fn name(&self) -> (r: &'static str)
        ensures
            r@ == match self {
                NormalizeMode::PerFrame => "per-frame"@,
                NormalizeMode::RunningEMA => "running"@,
                NormalizeMode::Global => "global"@,
            },
    {
        match self {
            NormalizeMode::PerFrame => "per-frame",
            NormalizeMode::RunningEMA => "running",
            NormalizeMode::Global => "global",
        }
    }

    /// Parses a mode name (case folded in its ASCII letters): `per-frame`,
    /// `perframe` or `frame`; `running`, `ema` or `running-ema`; `global`,
    /// `two-pass` or `twopass`.
    pub fn parse(s: &str) -> (r: Result<NormalizeMode, String>)
        ensures
            r is Ok <==> mode_of(s.spec_bytes()) is Some,
            r matches Ok(m) ==> mode_of(s.spec_bytes()) == Some(m),
    {
        let low = crate::text::ascii_lower(s.as_bytes());
        proof {
            assert(low@ =~= crate::output::lower_seq(s.spec_bytes()));
        }
        let t = low.as_slice();
        if crate::text::bytes_eq(t, "per-frame".as_bytes())
            || crate::text::bytes_eq(t, "perframe".as_bytes())
            || crate::text::bytes_eq(t, "frame".as_bytes()) {
            Ok(NormalizeMode::PerFrame)
        } else if crate::text::bytes_eq(t, "running".as_bytes())
            || crate::text::bytes_eq(t, "ema".as_bytes())
            || crate::text::bytes_eq(t, "running-ema".as_bytes()) {
            Ok(NormalizeMode::RunningEMA)
        } else if crate::text::bytes_eq(t, "global".as_bytes())
            || crate::text::bytes_eq(t, "two-pass".as_bytes())
            || crate::text::bytes_eq(t, "twopass".as_bytes()) {
            Ok(NormalizeMode::Global)
        } else {
            Err("Unknown normalize mode. Use: per-frame, running, global".to_owned())
        }
    }
}

/// The whole conversion configuration. Fixed-point scales: `temporal_alpha`
/// in `DEPTH_UNIT`ths of 1, the sigmas in `SIGMA_UNIT`ths of a pixel (or of
/// the normalized depth range, for the color sigma).
#[derive(Clone, Debug)]
pub struct SpatialConfig {
    pub encoder_size: String,
    pub max_disparity: u32,
    pub target_depth_size: u32,
    pub temporal_alpha: u32,
    pub bilateral_sigma_space: u32,
    pub bilateral_sigma_color: u32,
    pub depth_blur_sigma: u32,
    pub normalize_mode: NormalizeMode,
}

impl Default for SpatialConfig {
    /// The defaults: small encoder, 30 pixels of disparity, blend factor
    /// 0.7, spatial sigma 5.0, color sigma 0.1, blur sigma 1.5, running-EMA
    /// normalization.
    fn default() -> (r: Self)
        ensures
            r.encoder_size@ == "s"@,
            r.max_disparity == 30,
            r.target_depth_size == 518,
            r.temporal_alpha == 7000,
            r.bilateral_sigma_space == 5000,
            r.bilateral_sigma_color == 100,
            r.depth_blur_sigma == 1500,
            r.normalize_mode == NormalizeMode::RunningEMA,
    {
        SpatialConfig {
            encoder_size: "s".to_owned(),
            max_disparity: 30,
            target_depth_size: 518,
            temporal_alpha: 7000,
            bilateral_sigma_space: 5000,
            bilateral_sigma_color: 100,
            depth_blur_sigma: 1500,
            normalize_mode: NormalizeMode::RunningEMA,
        }
    }
}

/// Where a photo-path run wrote its artifacts.
pub struct ProcessPhotoOutput {
    pub depth_paths: Vec<String>,
    pub stereo_paths: Vec<String>,
}

/// What kind of media a file holds, judged by its extension.
#[derive(Clone, Copy, Debug, PartialEq, Eq, Structural)]
pub enum MediaType {
    Photo,
    Video,
}

/// Whether an already-lowercased extension names a video container.
pub open spec fn is_video_ext(t: Seq<u8>) -> bool {
    ||| t == "mp4".spec_bytes()
    ||| t == "mov".spec_bytes()
    ||| t == "avi".spec_bytes()
    ||| t == "mkv".spec_bytes()
    ||| t == "m4v".spec_bytes()
    ||| t == "webm".spec_bytes()
    ||| t == "flv".spec_bytes()
    ||| t == "wmv".spec_bytes()
    ||| t == "mpg".spec_bytes()
    ||| t == "mpeg".spec_bytes()
}

/// Classifies a path as photo or video by its extension (ASCII case
/// folded); anything unknown is treated as a photo.
pub fn detect_media_type(path: &str) -> (r: MediaType)
    ensures
        r == (if is_video_ext(crate::output::lower_seq(crate::output::path_ext(path.spec_bytes()))) {
            MediaType::Video
        } else {
            MediaType::Photo
        }),
{
    let ext = crate::output::extension_of(path);
    let low = crate::text::ascii_lower(ext.as_slice());
    proof {
        assert(low@ =~= crate::output::lower_seq(ext@));
    }
    let t = low.as_slice();
    if crate::text::bytes_eq(t, "mp4".as_bytes())
        || crate::text::bytes_eq(t, "mov".as_bytes())
        || crate::text::bytes_eq(t, "avi".as_bytes())
        || crate::text::bytes_eq(t, "mkv".as_bytes())
        || crate::text::bytes_eq(t, "m4v".as_bytes())
        || crate::text::bytes_eq(t, "webm".as_bytes())
        || crate::text::bytes_eq(t, "flv".as_bytes())
        || crate::text::bytes_eq(t, "wmv".as_bytes())
        || crate::text::bytes_eq(t, "mpg".as_bytes())
        || crate::text::bytes_eq(t, "mpeg".as_bytes()) {
        MediaType::Video
    } else {
        MediaType::Photo
    }
}

/// The output base name for an input: the input's stem, a dash, the model
/// size.
pub fn generate_output_base(stem: &str, model: &str) -> (r: String)
    ensures
        r@ == stem@ + "-"@ + model@,
{
    let mut out = stem.to_owned();
    out.append("-");
    out.append(model);
    out
}

} // verus!
