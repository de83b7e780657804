//! Video metadata: progress records, the probe-output parser (frame rate as
//! an exact rational, duration in milliseconds), and the frame-count
//! arithmetic the pipeline plans with.
use vstd::prelude::*;
use vstd::string::StringSliceAdditionalSpecFns;
use crate::error::{SpatialError, SpatialResult};
use crate::jsonval::{json_as_array, json_as_str, json_as_u64, json_get, json_parse};
use crate::model::dec_parse;
use crate::output::find_byte;
use crate::text::contains_sub;

verus! {

/// A progress report: which frame of how many, in which stage, and the
/// integer percentage done.
#[derive(Clone, Debug)]
pub struct VideoProgress {
    pub current_frame: u32,
    pub total_frames: u32,
    pub stage: String,
    /// Percent complete, `0 ..= 100`.
    pub percent: u32,
}

impl VideoProgress {
    /// Builds a report; the percentage is `current/total`, capped at 100,
    /// and 0 when the total is unknown.
    pub fn new(current_frame: u32, total_frames: u32, stage: String) -> (r: Self)
        ensures
            r.current_frame == current_frame,
            r.total_frames == total_frames,
            r.stage@ == stage@,
            r.percent == (if total_frames > 0 {
                let p = current_frame * 100int / total_frames as int;
                if p > 100 { 100int } else { p }
            } else {
                0int
            }),
            r.percent <= 100,
    {
        let percent: u32 = if total_frames > 0 {
            let p = (current_frame as u64 * 100) / total_frames as u64;
            if p > 100 {
                100
            } else {
                p as u32
            }
        } else {
            0
        };
        VideoProgress { current_frame, total_frames, stage, percent }
    }
}

/// What the metadata probe reports of a video: dimensions, the frame rate
/// as an exact rational, the frame count, the duration in milliseconds, and
/// whether an audio track is present.
#[derive(Clone, Debug)]
pub struct VideoMetadata {
    pub width: u32,
    pub height: u32,
    /// Frame-rate numerator (frames).
    pub fps_num: u32,
    /// Frame-rate denominator (seconds); at least 1.
    pub fps_den: u32,
    pub total_frames: u32,
    pub duration_ms: u64,
    pub has_audio: bool,
}

impl VideoMetadata {
    /// The denominator is usable as a divisor.
    pub open spec fn wf(&self) -> bool {
        self.fps_den >= 1
    }
}

/// Ten to the `k`th power.
pub open spec fn pow10(k: int) -> int
    decreases k,
{
    if k <= 0 {
        1
    } else {
        10 * pow10(k - 1)
    }
}

/// The frame rate a probe token names, as a rational. A fraction `n/d`
/// parses both sides (an unparsable side falls back to 30 or 1, a zero
/// denominator to 1); a plain decimal keeps up to three fraction digits; an
/// unparsable token falls back to 30/1.
pub open spec fn frame_rate_of(b: Seq<u8>) -> (u32, u32) {
    let j = find_byte(b, 0, 47);
    if 0 <= j < b.len() {
        let n = match dec_parse(b.subrange(0, j)) {
            Some(v) => v,
            None => 30u32,
        };
        let d0 = match dec_parse(b.subrange(j + 1, b.len() as int)) {
            Some(v) => v,
            None => 1u32,
        };
        (n, if d0 == 0 { 1u32 } else { d0 })
    } else {
        decimal_rate_of(b)
    }
}

/// A plain decimal frame rate: the digits joined over a power-of-ten
/// denominator, up to three fraction digits; 30/1 when it does not parse.
pub open spec fn decimal_rate_of(b: Seq<u8>) -> (u32, u32) {
    let k = find_byte(b, 0, 46);
    if k >= b.len() {
        match dec_parse(b) {
            Some(v) => (v, 1u32),
            None => (30u32, 1u32),
        }
    } else {
        let frac = b.subrange(k + 1, b.len() as int);
        let f3 = if frac.len() <= 3 { frac } else { frac.subrange(0, 3) };
        match dec_parse(b.subrange(0, k)) {
            Some(i) => {
                if f3.len() == 0 {
                    (i, 1u32)
                } else {
                    match dec_parse(f3) {
                        Some(f) => {
                            let scale = pow10(f3.len() as int);
                            if i * scale + f <= u32::MAX {
                                ((i * scale + f) as u32, scale as u32)
                            } else {
                                (30u32, 1u32)
                            }
                        },
                        None => (30u32, 1u32),
                    }
                }
            },
            None => (30u32, 1u32),
        }
    }
}

/// The duration a probe token names, in milliseconds: whole seconds times
/// a thousand plus up to three fraction digits, scaled; `None` when the
/// token is not a plain decimal number.
pub open spec fn duration_ms_of(b: Seq<u8>) -> Option<u64> {
    let k = find_byte(b, 0, 46);
    if k >= b.len() {
        match dec_parse(b) {
            Some(v) => Some((v * 1000) as u64),
            None => None,
        }
    } else {
        let frac = b.subrange(k + 1, b.len() as int);
        let f3 = if frac.len() <= 3 { frac } else { frac.subrange(0, 3) };
        match dec_parse(b.subrange(0, k)) {
            Some(i) => {
                if f3.len() == 0 {
                    Some((i * 1000) as u64)
                } else {
                    match dec_parse(f3) {
                        Some(f) => Some((i * 1000 + f * pow10(3 - f3.len())) as u64),
                        None => None,
                    }
                }
            },
            None => None,
        }
    }
}

/// The frame count implied by a duration and a frame rate:
/// `round(duration * fps)`, saturating at `u32::MAX`.
pub open spec fn total_frames_of(dur_ms: u64, num: u32, den: u32) -> u32 {
    let f = (dur_ms * num + 500 * den) as int / (1000 * den) as int;
    if f > u32::MAX {
        u32::MAX
    } else {
        f as u32
    }
}

/// `pow10` at the small exponents the parsers use.
proof fn lemma_pow10_small()
    ensures
        pow10(0) == 1,
        pow10(1) == 10,
        pow10(2) == 100,
        pow10(3) == 1000,
{
    assert(pow10(0) == 1);
    assert(pow10(1) == 10);
    assert(pow10(2) == 100);
    assert(pow10(3) == 1000);
}

/// Parses a frame-rate token.
pub fn parse_frame_rate(s: &str) -> (r: (u32, u32))
    ensures
        r == frame_rate_of(s.spec_bytes()),
        r.1 >= 1,
{
    let b = s.as_bytes();
    let n = b.len();
    // find a '/' if there is one
    let mut j: usize = 0;
    while j < n && b[j] != 47
        invariant
            j <= n,
            n == b@.len(),
            find_byte(b@, 0, 47) == find_byte(b@, j as int, 47),
        decreases n - j,
    {
        j += 1;
    }
    proof {
        assert(find_byte(b@, 0, 47) == j);
    }
    if j < n {
        let left = crate::text::bytes_slice(b, 0, j);
        let right = crate::text::bytes_slice(b, j + 1, n);
        let num = match crate::model::parse_u32_dec(left.as_slice()) {
            Some(v) => v,
            None => 30,
        };
        let den0 = match crate::model::parse_u32_dec(right.as_slice()) {
            Some(v) => v,
            None => 1,
        };
        (num, if den0 == 0 { 1 } else { den0 })
    } else {
        parse_decimal_rate(b)
    }
}

/// Parses a plain decimal frame rate.
fn parse_decimal_rate(b: &[u8]) -> (r: (u32, u32))
    ensures
        r == decimal_rate_of(b@),
        r.1 >= 1,
{
    let n = b.len();
    let mut k: usize = 0;
    while k < n && b[k] != 46
        invariant
            k <= n,
            n == b@.len(),
            find_byte(b@, 0, 46) == find_byte(b@, k as int, 46),
        decreases n - k,
    {
        k += 1;
    }
    proof {
        assert(find_byte(b@, 0, 46) == k);
        lemma_pow10_small();
    }
    if k >= n {
        match crate::model::parse_u32_dec(b) {
            Some(v) => (v, 1),
            None => (30, 1),
        }
    } else {
        let fr_end = if n - (k + 1) <= 3 { n } else { k + 1 + 3 };
        let f3 = crate::text::bytes_slice(b, k + 1, fr_end);
        proof {
            let frac = b@.subrange(k + 1 as int, n as int);
            if frac.len() <= 3 {
                assert(f3@ =~= frac);
            } else {
                assert(f3@ =~= frac.subrange(0, 3));
            }
        }
        let ipart = crate::model::parse_u32_dec(crate::text::bytes_slice(b, 0, k).as_slice());
        match ipart {
            Some(i) => {
                if f3.len() == 0 {
                    (i, 1)
                } else {
                    match crate::model::parse_u32_dec(f3.as_slice()) {
                        Some(f) => {
                            let scale: u64 = if f3.len() == 1 {
                                10
                            } else if f3.len() == 2 {
                                100
                            } else {
                                1000
                            };
                            let v = i as u64 * scale + f as u64;
                            if v <= u32::MAX as u64 {
                                (v as u32, scale as u32)
                            } else {
                                (30, 1)
                            }
                        },
                        None => (30, 1),
                    }
                }
            },
            None => (30, 1),
        }
    }
}

/// Parses a duration token into milliseconds.
pub fn parse_duration_ms(s: &str) -> (r: Option<u64>)
    ensures
        r == duration_ms_of(s.spec_bytes()),
{
    let b = s.as_bytes();
    let n = b.len();
    let mut k: usize = 0;
    while k < n && b[k] != 46
        invariant
            k <= n,
            n == b@.len(),
            find_byte(b@, 0, 46) == find_byte(b@, k as int, 46),
        decreases n - k,
    {
        k += 1;
    }
    proof {
        assert(find_byte(b@, 0, 46) == k);
        lemma_pow10_small();
    }
    if k >= n {
        match crate::model::parse_u32_dec(b) {
            Some(v) => Some(v as u64 * 1000),
            None => None,
        }
    } else {
        let fr_end = if n - (k + 1) <= 3 { n } else { k + 1 + 3 };
        let f3 = crate::text::bytes_slice(b, k + 1, fr_end);
        proof {
            let frac = b@.subrange(k + 1 as int, n as int);
            if frac.len() <= 3 {
                assert(f3@ =~= frac);
            } else {
                assert(f3@ =~= frac.subrange(0, 3));
            }
        }
        match crate::model::parse_u32_dec(crate::text::bytes_slice(b, 0, k).as_slice()) {
            Some(i) => {
                if f3.len() == 0 {
                    Some(i as u64 * 1000)
                } else {
                    match crate::model::parse_u32_dec(f3.as_slice()) {
                        Some(f) => {
                            let scale: u64 = if f3.len() == 1 {
                                100
                            } else if f3.len() == 2 {
                                10
                            } else {
                                1
                            };
                            Some(i as u64 * 1000 + f as u64 * scale)
                        },
                        None => None,
                    }
                }
            },
            None => None,
        }
    }
}

/// Computes `round(duration * fps)`, saturating at `u32::MAX`.
pub fn compute_total_frames(dur_ms: u64, fps_num: u32, fps_den: u32) -> (r: u32)
    requires
        fps_den >= 1,
    ensures
        r == total_frames_of(dur_ms, fps_num, fps_den),
{
    proof {
        assert(dur_ms as int * fps_num as int <= u64::MAX as int * u32::MAX as int)
            by (nonlinear_arith)
            requires dur_ms <= u64::MAX, fps_num <= u32::MAX;
    }
    let num = dur_ms as u128 * fps_num as u128 + 500u128 * fps_den as u128;
    let den = 1000u128 * fps_den as u128;
    let f = num / den;
    if f > u32::MAX as u128 {
        u32::MAX
    } else {
        f as u32
    }
}

/// The byte size of one raw RGB frame: three bytes per pixel.
pub fn frame_byte_size(width: u32, height: u32) -> (r: Option<usize>)
    ensures
        r matches Some(n) ==> n == 3 * (width * height)
            && width <= crate::grid::MAX_DIM && height <= crate::grid::MAX_DIM,
        r is None <==> (width > crate::grid::MAX_DIM || height > crate::grid::MAX_DIM),
{
    if width as usize > crate::grid::MAX_DIM || height as usize > crate::grid::MAX_DIM {
        return None;
    }
    proof {
        assert((width as usize) * (height as usize) <= crate::grid::MAX_DIM * crate::grid::MAX_DIM)
            by (nonlinear_arith)
            requires
                width as usize <= crate::grid::MAX_DIM,
                height as usize <= crate::grid::MAX_DIM;
    }
    Some(3 * ((width as usize) * (height as usize)))
}

/// Parses the two probe outputs into metadata: the JSON document with the
/// video stream's entries, and the audio-stream probe text. The dimensions
/// must be present as JSON numbers within `u32`; the frame rate falls back
/// to 30/1, the duration to the container's entry and then to zero, and the
/// frame count to `round(duration * fps)`; the audio flag is exactly
/// whether the audio probe text mentions an audio stream.
pub fn parse_video_metadata(probe_json: &str, audio_probe: &str) -> (r: SpatialResult<VideoMetadata>)
    ensures
        r matches Ok(m) ==> m.wf(),
        r matches Ok(m) ==> m.has_audio
            == contains_sub(audio_probe.spec_bytes(), "audio".spec_bytes()),
        r matches Err(e) ==> e is Other,
{
    let json = match json_parse(probe_json) {
        Some(v) => v,
        None => {
            return Err(SpatialError::Other("could not parse the probe's JSON output".to_owned()));
        },
    };
    let streams = match json_get(&json, "streams") {
        Some(v) => v,
        None => {
            return Err(SpatialError::Other("no video stream found".to_owned()));
        },
    };
    let arr = match json_as_array(streams) {
        Some(a) => a,
        None => {
            return Err(SpatialError::Other("no video stream found".to_owned()));
        },
    };
    if arr.len() == 0 {
        return Err(SpatialError::Other("no video stream found".to_owned()));
    }
    let stream = &arr[0];

    let width64 = match json_get(stream, "width") {
        Some(v) => match json_as_u64(v) {
            Some(w) => w,
            None => {
                return Err(SpatialError::Other("failed to parse width".to_owned()));
            },
        },
        None => {
            return Err(SpatialError::Other("failed to parse width".to_owned()));
        },
    };
    let height64 = match json_get(stream, "height") {
        Some(v) => match json_as_u64(v) {
            Some(h) => h,
            None => {
                return Err(SpatialError::Other("failed to parse height".to_owned()));
            },
        },
        None => {
            return Err(SpatialError::Other("failed to parse height".to_owned()));
        },
    };
    if width64 > u32::MAX as u64 || height64 > u32::MAX as u64 {
        return Err(SpatialError::Other("frame dimensions out of range".to_owned()));
    }
    let width = width64 as u32;
    let height = height64 as u32;

    let (fps_num, fps_den): (u32, u32) = match json_get(stream, "r_frame_rate") {
        Some(v) => match json_as_str(v) {
            Some(s) => parse_frame_rate(s),
            None => (30, 1),
        },
        None => (30, 1),
    };

    let stream_duration: Option<u64> = match json_get(stream, "duration") {
        Some(v) => match json_as_str(v) {
            Some(s) => parse_duration_ms(s),
            None => None,
        },
        None => None,
    };
    let duration_ms: u64 = match stream_duration {
        Some(d) => d,
        None => {
            let container: Option<u64> = match json_get(&json, "format") {
                Some(fmt) => match json_get(fmt, "duration") {
                    Some(v) => match json_as_str(v) {
                        Some(s) => parse_duration_ms(s),
                        None => None,
                    },
                    None => None,
                },
                None => None,
            };
            match container {
                Some(d) => d,
                None => 0,
            }
        },
    };

    let total_frames: u32 = {
        let from_probe: Option<u32> = match json_get(stream, "nb_frames") {
            Some(v) => match json_as_str(v) {
                Some(s) => crate::model::parse_u32_dec(s.as_bytes()),
                None => None,
            },
            None => None,
        };
        match from_probe {
            Some(n) => n,
            None => compute_total_frames(duration_ms, fps_num, fps_den),
        }
    };

    let has_audio = crate::text::bytes_contains(audio_probe.as_bytes(), "audio".as_bytes());

    Ok(VideoMetadata { width, height, fps_num, fps_den, total_frames, duration_ms, has_audio })
}

} // verus!
