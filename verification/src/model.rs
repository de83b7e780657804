//! Depth-model metadata: which checkpoint each encoder size names, where it
//! can be fetched, and helpers for picking a local model file and comparing
//! release versions.
use vstd::prelude::*;
use vstd::string::StringSliceAdditionalSpecFns;
use crate::error::{SpatialError, SpatialResult};
use crate::output::find_byte;
use crate::text::{ascii_lower, bytes_contains, bytes_eq, contains_sub, lower_byte};

verus! {

/// A depth checkpoint: its display name, its file name on disk, where it is
/// fetched from, and its approximate size.
#[derive(Clone, Debug)]
pub struct ModelMetadata {
    pub name: String,
    pub filename: String,
    pub url: String,
    pub size_mb: u32,
}

/// Whether a token names one of the three encoder sizes.
pub open spec fn encoder_size_of(b: Seq<u8>) -> Option<char> {
    if b == "s".spec_bytes() || b == "small".spec_bytes() {
        Some('s')
    } else if b == "b".spec_bytes() || b == "base".spec_bytes() {
        Some('b')
    } else if b == "l".spec_bytes() || b == "large".spec_bytes() {
        Some('l')
    } else {
        None
    }
}

/// Maps an encoder-size token to its canonical letter.
fn encoder_size_of_exec(s: &str) -> (r: Option<char>)
    ensures
        r == encoder_size_of(s.spec_bytes()),
{
    let b = s.as_bytes();
    if bytes_eq(b, "s".as_bytes()) || bytes_eq(b, "small".as_bytes()) {
        Some('s')
    } else if bytes_eq(b, "b".as_bytes()) || bytes_eq(b, "base".as_bytes()) {
        Some('b')
    } else if bytes_eq(b, "l".as_bytes()) || bytes_eq(b, "large".as_bytes()) {
        Some('l')
    } else {
        None
    }
}

impl ModelMetadata {
    /// The Core ML checkpoint for an encoder size (`s`/`small`, `b`/`base`,
    /// `l`/`large`); an unknown size is a configuration error.
    pub fn coreml(encoder_size: &str) -> (r: SpatialResult<Self>)
        ensures
            r is Ok <==> encoder_size_of(encoder_size.spec_bytes()) is Some,
            r matches Ok(m) ==> match encoder_size_of(encoder_size.spec_bytes()) {
                Some(c) => {
                    &&& (c == 's' ==> m.name@ == "depth-anything-v2-small"@
                        && m.filename@ == "DepthAnythingV2SmallF16.mlpackage"@
                        && m.size_mb == 48)
                    &&& (c == 'b' ==> m.name@ == "depth-anything-v2-base"@
                        && m.filename@ == "DepthAnythingV2BaseF16.mlpackage"@
                        && m.size_mb == 186)
                    &&& (c == 'l' ==> m.name@ == "depth-anything-v2-large"@
                        && m.filename@ == "DepthAnythingV2LargeF16.mlpackage"@
                        && m.size_mb == 638)
                },
                None => false,
            },
            r matches Err(e) ==> e is ConfigError,
    {
        match encoder_size_of_exec(encoder_size) {
            Some('s') => Ok(ModelMetadata {
                name: "depth-anything-v2-small".to_owned(),
                filename: "DepthAnythingV2SmallF16.mlpackage".to_owned(),
                url: "https://huggingface.co/mrgnw/depth-anything-v2-coreml/resolve/main/DepthAnythingV2SmallF16.mlpackage.tar.gz".to_owned(),
                size_mb: 48,
            }),
            Some('b') => Ok(ModelMetadata {
                name: "depth-anything-v2-base".to_owned(),
                filename: "DepthAnythingV2BaseF16.mlpackage".to_owned(),
                url: "https://huggingface.co/mrgnw/depth-anything-v2-coreml/resolve/main/DepthAnythingV2BaseF16.mlpackage.tar.gz".to_owned(),
                size_mb: 186,
            }),
            Some('l') => Ok(ModelMetadata {
                name: "depth-anything-v2-large".to_owned(),
                filename: "DepthAnythingV2LargeF16.mlpackage".to_owned(),
                url: "https://huggingface.co/mrgnw/depth-anything-v2-coreml/resolve/main/DepthAnythingV2LargeF16.mlpackage.tar.gz".to_owned(),
                size_mb: 638,
            }),
            _ => Err(SpatialError::ConfigError(
                "Unknown encoder size. Use 's', 'b', or 'l'".to_owned(),
            )),
        }
    }

    /// The ONNX checkpoint for an encoder size; an unknown size is a
    /// configuration error.
    pub fn onnx(encoder_size: &str) -> (r: SpatialResult<Self>)
        ensures
            r is Ok <==> encoder_size_of(encoder_size.spec_bytes()) is Some,
            r matches Ok(m) ==> match encoder_size_of(encoder_size.spec_bytes()) {
                Some(c) => {
                    &&& (c == 's' ==> m.name@ == "depth-anything-v2-small"@
                        && m.filename@ == "depth_anything_v2_small.onnx"@
                        && m.size_mb == 99)
                    &&& (c == 'b' ==> m.name@ == "depth-anything-v2-base"@
                        && m.filename@ == "depth_anything_v2_base.onnx"@
                        && m.size_mb == 380)
                    &&& (c == 'l' ==> m.name@ == "depth-anything-v2-large"@
                        && m.filename@ == "depth_anything_v2_large.onnx"@
                        && m.size_mb == 1300)
                },
                None => false,
            },
            r matches Err(e) ==> e is ConfigError,
    {
        match encoder_size_of_exec(encoder_size) {
            Some('s') => Ok(ModelMetadata {
                name: "depth-anything-v2-small".to_owned(),
                filename: "depth_anything_v2_small.onnx".to_owned(),
                url: "https://huggingface.co/onnx-community/depth-anything-v2-small/resolve/main/onnx/model.onnx".to_owned(),
                size_mb: 99,
            }),
            Some('b') => Ok(ModelMetadata {
                name: "depth-anything-v2-base".to_owned(),
                filename: "depth_anything_v2_base.onnx".to_owned(),
                url: "https://huggingface.co/onnx-community/depth-anything-v2-base/resolve/main/onnx/model.onnx".to_owned(),
                size_mb: 380,
            }),
            Some('l') => Ok(ModelMetadata {
                name: "depth-anything-v2-large".to_owned(),
                filename: "depth_anything_v2_large.onnx".to_owned(),
                url: "https://huggingface.co/onnx-community/depth-anything-v2-large/resolve/main/onnx/model.onnx".to_owned(),
                size_mb: 1300,
            }),
            _ => Err(SpatialError::ConfigError(
                "Unknown encoder size. Use 's', 'b', or 'l'".to_owned(),
            )),
        }
    }
}

/// The display name and download size for an encoder size; an unknown size
/// echoes back with size zero.
pub fn model_display_name(encoder_size: &str) -> (r: (&str, u32))
    ensures
        match encoder_size_of(encoder_size.spec_bytes()) {
            Some(c) => {
                &&& (c == 's' ==> r.0@ == "small"@ && r.1 == 48)
                &&& (c == 'b' ==> r.0@ == "base"@ && r.1 == 186)
                &&& (c == 'l' ==> r.0@ == "large"@ && r.1 == 638)
            },
            None => r.0@ == encoder_size@ && r.1 == 0,
        },
{
    match encoder_size_of_exec(encoder_size) {
        Some('s') => ("small", 48),
        Some('b') => ("base", 186),
        Some('l') => ("large", 638),
        _ => (encoder_size, 0),
    }
}

/// Whether a checkpoint file name matches an encoder size: it must mention
/// the model family, and its ASCII-lowercased form must contain the size's
/// word.
pub open spec fn model_file_matches_spec(name: Seq<u8>, size: char) -> bool {
    &&& (contains_sub(name, "DepthAnything".spec_bytes())
        || contains_sub(name, "depth_anything".spec_bytes()))
    &&& {
        let lower = Seq::new(name.len(), |i: int| lower_byte(name[i]));
        if size == 's' {
            contains_sub(lower, "small".spec_bytes())
        } else if size == 'b' {
            contains_sub(lower, "base".spec_bytes())
        } else {
            contains_sub(lower, "large".spec_bytes())
        }
    }
}

/// Whether one directory entry is a usable checkpoint for the requested
/// encoder size.
pub fn model_file_matches(name: &str, encoder_size: &str) -> (r: bool)
    ensures
        r <==> match encoder_size_of(encoder_size.spec_bytes()) {
            Some(c) => model_file_matches_spec(name.spec_bytes(), c),
            None => false,
        },
{
    let size = match encoder_size_of_exec(encoder_size) {
        Some(c) => c,
        None => {
            return false;
        },
    };
    let b = name.as_bytes();
    if !bytes_contains(b, "DepthAnything".as_bytes())
        && !bytes_contains(b, "depth_anything".as_bytes()) {
        return false;
    }
    let lower = ascii_lower(b);
    proof {
        assert(lower@ =~= Seq::new(name.spec_bytes().len(), |i: int| lower_byte(name.spec_bytes()[i])));
    }
    if size == 's' {
        bytes_contains(lower.as_slice(), "small".as_bytes())
    } else if size == 'b' {
        bytes_contains(lower.as_slice(), "base".as_bytes())
    } else {
        bytes_contains(lower.as_slice(), "large".as_bytes())
    }
}

/// Whether any file in a checkpoint directory listing is a model for the
/// requested encoder size. The caller supplies the directory's file names.
pub fn model_exists(encoder_size: &str, filenames: &Vec<String>) -> (r: bool)
    ensures
        r <==> exists|i: int| 0 <= i < filenames@.len()
            && match encoder_size_of(encoder_size.spec_bytes()) {
                Some(c) => model_file_matches_spec(
                    vstd::utf8::encode_utf8(#[trigger] filenames@[i]@), c),
                None => false,
            },
{
    let n = filenames.len();
    let mut i: usize = 0;
    while i < n
        invariant
            i <= n,
            n == filenames@.len(),
            forall|j: int| 0 <= j < i
                ==> match encoder_size_of(encoder_size.spec_bytes()) {
                    Some(c) => !model_file_matches_spec(
                        vstd::utf8::encode_utf8(#[trigger] filenames@[j]@), c),
                    None => true,
                },
        decreases n - i,
    {
        if model_file_matches(filenames[i].as_str(), encoder_size) {
            return true;
        }
        i += 1;
    }
    false
}

} // verus!

verus! {

/// The value of the decimal digits `t[0 .. i]`, most significant first.
pub open spec fn dec_val(t: Seq<u8>, i: int) -> int
    decreases i,
{
    if i <= 0 {
        0
    } else {
        dec_val(t, i - 1) * 10 + (t[i - 1] - 48)
    }
}

/// Every byte of `t` is an ASCII decimal digit.
pub open spec fn all_digits(t: Seq<u8>) -> bool {
    forall|i: int| 0 <= i < t.len() ==> 48 <= #[trigger] t[i] <= 57
}

/// What a decimal token parses to: its value, when it is non-empty, all
/// digits, and within `u32` range.
pub open spec fn dec_parse(t: Seq<u8>) -> Option<u32> {
    if t.len() > 0 && all_digits(t) && dec_val(t, t.len() as int) <= u32::MAX {
        Some(dec_val(t, t.len() as int) as u32)
    } else {
        None
    }
}

/// A digit string's value only grows as digits are appended.
proof fn lemma_dec_val_mono(t: Seq<u8>, i: int, j: int)
    requires
        0 <= i <= j <= t.len(),
        all_digits(t),
    ensures
        0 <= dec_val(t, i) <= dec_val(t, j),
    decreases j,
{
    if i < j {
        lemma_dec_val_mono(t, i, j - 1);
        assert(dec_val(t, j - 1) * 10 >= dec_val(t, j - 1)) by (nonlinear_arith)
            requires dec_val(t, j - 1) >= 0;
    } else if i == j && i > 0 {
        lemma_dec_val_mono(t, 0, i - 1);
        assert(dec_val(t, i - 1) * 10 >= 0) by (nonlinear_arith)
            requires dec_val(t, i - 1) >= 0;
    }
}

/// Parses a decimal digit token; anything else — empty, a non-digit, or a
/// value beyond `u32` — is `None`.
pub fn parse_u32_dec(t: &[u8]) -> (r: Option<u32>)
    ensures
        r == dec_parse(t@),
{
    let n = t.len();
    if n == 0 {
        return None;
    }
    let mut acc: u64 = 0;
    let mut i: usize = 0;
    while i < n
        invariant
            i <= n,
            n == t@.len(),
            forall|j: int| 0 <= j < i ==> 48 <= #[trigger] t@[j] <= 57,
            acc == dec_val(t@, i as int),
            acc <= u32::MAX,
        decreases n - i,
    {
        let b = t[i];
        if b < 48 || b > 57 {
            return None;
        }
        acc = acc * 10 + (b - 48) as u64;
        if acc > u32::MAX as u64 {
            proof {
                if all_digits(t@) {
                    lemma_dec_val_mono(t@, i + 1, t@.len() as int);
                }
            }
            return None;
        }
        i += 1;
    }
    Some(acc as u32)
}

/// The version numbers of a dotted string from position `from` on: each
/// dot-separated token that parses as a decimal number, in order, parse
/// failures skipped.
pub open spec fn version_nums(b: Seq<u8>, from: int) -> Seq<u32>
    decreases b.len() - from,
{
    if from >= b.len() {
        Seq::empty()
    } else {
        let j = find_byte(b, from, 46);
        let rest = if j < from || j >= b.len() {
            Seq::<u32>::empty()
        } else {
            version_nums(b, j + 1)
        };
        match dec_parse(b.subrange(from, j)) {
            Some(v) => seq![v] + rest,
            None => rest,
        }
    }
}

/// Strict lexicographic order on number sequences, as release versions are
/// compared: a longer sequence beats its own proper prefix.
pub open spec fn lex_gt(a: Seq<u32>, b: Seq<u32>) -> bool
    decreases a.len(),
{
    if a.len() == 0 {
        false
    } else if b.len() == 0 {
        true
    } else if a[0] > b[0] {
        true
    } else if a[0] < b[0] {
        false
    } else {
        lex_gt(a.drop_first(), b.drop_first())
    }
}

/// Splits a dotted version string into its parsed numbers.
fn parse_version_nums(s: &str) -> (r: Vec<u32>)
    ensures
        r@ == version_nums(s.spec_bytes(), 0),
{
    let b = s.as_bytes();
    let n = b.len();
    let mut out: Vec<u32> = Vec::new();
    let mut pos: usize = 0;
    while pos < n
        invariant
            pos <= n + 1,
            n == b@.len(),
            version_nums(b@, 0) =~= out@ + version_nums(b@, pos as int),
        decreases n - pos,
    {
        let mut j: usize = pos;
        while j < n && b[j] != 46
            invariant
                pos <= j <= n,
                n == b@.len(),
                find_byte(b@, pos as int, 46) == find_byte(b@, j as int, 46),
            decreases n - j,
        {
            j += 1;
        }
        proof {
            assert(find_byte(b@, pos as int, 46) == j);
        }
        let tok = crate::text::bytes_slice(b, pos, j);
        match parse_u32_dec(tok.as_slice()) {
            Some(v) => {
                out.push(v);
            },
            None => {},
        }
        proof {
            assert(version_nums(b@, 0) =~= out@ + version_nums(b@, j + 1 as int));
        }
        if j == n {
            proof {
                assert(version_nums(b@, n as int) =~= Seq::<u32>::empty());
                assert(version_nums(b@, j + 1 as int) =~= Seq::<u32>::empty());
            }
            pos = n;
        } else {
            pos = j + 1;
        }
    }
    proof {
        assert(version_nums(b@, pos as int) =~= Seq::<u32>::empty());
        assert(version_nums(b@, 0) =~= out@);
    }
    out
}

/// Whether `latest` names a strictly newer release than `current`: their
/// dotted numeric components are compared lexicographically, unparsable
/// components skipped.
pub fn is_newer_version(current: &str, latest: &str) -> (r: bool)
    ensures
        r == lex_gt(version_nums(latest.spec_bytes(), 0), version_nums(current.spec_bytes(), 0)),
{
    let c = parse_version_nums(current);
    let l = parse_version_nums(latest);
    let ln = l.len();
    let cn = c.len();
    proof {
        assert(l@.skip(0) =~= l@);
        assert(c@.skip(0) =~= c@);
    }
    let mut i: usize = 0;
    while i < ln && i < cn
        invariant
            i <= ln,
            i <= cn,
            ln == l@.len(),
            cn == c@.len(),
            l@ == version_nums(latest.spec_bytes(), 0),
            c@ == version_nums(current.spec_bytes(), 0),
            lex_gt(l@, c@) == lex_gt(l@.skip(i as int), c@.skip(i as int)),
        decreases ln - i,
    {
        proof {
            assert(l@.skip(i as int).drop_first() =~= l@.skip(i + 1 as int));
            assert(c@.skip(i as int).drop_first() =~= c@.skip(i + 1 as int));
        }
        if l[i] > c[i] {
            proof {
                assert(lex_gt(l@.skip(i as int), c@.skip(i as int)));
            }
            return true;
        }
        if l[i] < c[i] {
            proof {
                assert(!lex_gt(l@.skip(i as int), c@.skip(i as int)));
            }
            return false;
        }
        i += 1;
    }
    proof {
        assert(l@.skip(i as int).len() == ln - i);
        assert(c@.skip(i as int).len() == cn - i);
    }
    ln > cn
}

} // verus!
