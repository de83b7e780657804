//! Output selection: which artifacts a run produces (depth maps, stereo
//! layouts), and the parser for the comma-separated output-type list.
use vstd::prelude::*;
use vstd::string::StringSliceAdditionalSpecFns;
use crate::grid::ColorFrame;
use crate::text::{bytes_eq, bytes_slice, bytes_starts_with, lower_byte};

verus! {

/// File format for an exported depth map.
#[derive(Clone, Copy, Debug, PartialEq, Eq, Structural)]
pub enum DepthFormat {
    Avif,
    Png,
    Png16,
}

/// The depth format used when `depth` is requested with no sub-format.
pub const DEFAULT_DEPTH_FORMAT: DepthFormat = DepthFormat::Avif;

impl DepthFormat {
    /// The file extension for this format.
    pub fn extension(&self) -> (r: &'static str)
        ensures
            r@ == match self {
                DepthFormat::Avif => "avif"@,
                DepthFormat::Png => "png"@,
                DepthFormat::Png16 => "png"@,
            },
    {
        match self {
            DepthFormat::Avif => "avif",
            DepthFormat::Png => "png",
            DepthFormat::Png16 => "png",
        }
    }

    /// The file-name suffix distinguishing this format from the default.
    pub fn suffix(&self) -> (r: &'static str)
        ensures
            r@ == match self {
                DepthFormat::Avif => ""@,
                DepthFormat::Png => ""@,
                DepthFormat::Png16 => "-16bit"@,
            },
    {
        match self {
            DepthFormat::Avif => "",
            DepthFormat::Png => "",
            DepthFormat::Png16 => "-16bit",
        }
    }
}

/// One requested output artifact.
#[derive(Clone, Debug, PartialEq, Eq)]
pub enum OutputType {
    /// Depth-map exports in the listed formats.
    Depth(Vec<DepthFormat>),
    SideBySide,
    TopAndBottom,
    Separate,
    Spatial,
}

/// Whether `t` is one of the stereo-output variants.
pub open spec fn is_stereo_variant(t: &OutputType) -> bool {
    t is SideBySide || t is TopAndBottom || t is Separate || t is Spatial
}

/// Whether any requested output needs a depth-map export.
pub fn needs_depth(types: &[OutputType]) -> (r: bool)
    ensures
        r <==> exists|i: int| 0 <= i < types@.len() && types@[i] is Depth,
{
    let n = types.len();
    let mut i: usize = 0;
    while i < n
        invariant
            i <= n,
            n == types@.len(),
            forall|j: int| 0 <= j < i ==> !(types@[j] is Depth),
        decreases n - i,
    {
        if let OutputType::Depth(_) = &types[i] {
            return true;
        }
        i += 1;
    }
    false
}

/// Whether any requested output needs a synthesized stereo pair.
pub fn needs_stereo(types: &[OutputType]) -> (r: bool)
    ensures
        r <==> exists|i: int| 0 <= i < types@.len() && is_stereo_variant(&types@[i]),
{
    let n = types.len();
    let mut i: usize = 0;
    while i < n
        invariant
            i <= n,
            n == types@.len(),
            forall|j: int| 0 <= j < i ==> !is_stereo_variant(&types@[j]),
        decreases n - i,
    {
        match &types[i] {
            OutputType::SideBySide | OutputType::TopAndBottom | OutputType::Separate
                | OutputType::Spatial => {
                return true;
            },
            _ => {},
        }
        i += 1;
    }
    false
}

/// All depth formats requested, in order of appearance, flattened.
pub open spec fn depth_formats_spec(s: Seq<OutputType>) -> Seq<DepthFormat>
    decreases s.len(),
{
    if s.len() == 0 {
        Seq::empty()
    } else {
        depth_formats_spec(s.drop_last()) + (match s.last() {
            OutputType::Depth(f) => f@,
            _ => Seq::empty(),
        })
    }
}

/// Collects every requested depth format, in order.
pub fn depth_formats(types: &[OutputType]) -> (r: Vec<DepthFormat>)
    ensures
        r@ == depth_formats_spec(types@),
{
    let n = types.len();
    let mut out: Vec<DepthFormat> = Vec::new();
    let mut i: usize = 0;
    while i < n
        invariant
            i <= n,
            n == types@.len(),
            out@ == depth_formats_spec(types@.take(i as int)),
        decreases n - i,
    {
        if let OutputType::Depth(fmts) = &types[i] {
            let m = fmts.len();
            let mut k: usize = 0;
            while k < m
                invariant
                    k <= m,
                    m == fmts@.len(),
                    out@ == depth_formats_spec(types@.take(i as int)) + fmts@.take(k as int),
                decreases m - k,
            {
                out.push(fmts[k]);
                proof {
                    assert(fmts@.take(k + 1 as int) =~= fmts@.take(k as int).push(fmts@[k as int]));
                    assert(out@ =~= depth_formats_spec(types@.take(i as int))
                        + fmts@.take(k + 1 as int));
                }
                k += 1;
            }
            proof {
                assert(fmts@.take(m as int) =~= fmts@);
            }
        }
        proof {
            assert(types@.take(i + 1 as int).drop_last() =~= types@.take(i as int));
            assert(types@.take(i + 1 as int).last() == types@[i as int]);
            if !(types@[i as int] is Depth) {
                assert(out@ =~= depth_formats_spec(types@.take(i + 1 as int)));
            }
        }
        i += 1;
    }
    proof {
        assert(types@.take(n as int) =~= types@);
    }
    out
}

/// The stereo-output requests among `s`, in order.
pub open spec fn stereo_types_spec(s: Seq<OutputType>) -> Seq<OutputType>
    decreases s.len(),
{
    if s.len() == 0 {
        Seq::empty()
    } else if is_stereo_variant(&s.last()) {
        stereo_types_spec(s.drop_last()).push(s.last())
    } else {
        stereo_types_spec(s.drop_last())
    }
}

/// Collects the stereo-output requests, in order.
pub fn stereo_types(types: &[OutputType]) -> (r: Vec<OutputType>)
    ensures
        r@ == stereo_types_spec(types@),
{
    let n = types.len();
    let mut out: Vec<OutputType> = Vec::new();
    let mut i: usize = 0;
    while i < n
        invariant
            i <= n,
            n == types@.len(),
            out@ == stereo_types_spec(types@.take(i as int)),
        decreases n - i,
    {
        match &types[i] {
            OutputType::SideBySide => out.push(OutputType::SideBySide),
            OutputType::TopAndBottom => out.push(OutputType::TopAndBottom),
            OutputType::Separate => out.push(OutputType::Separate),
            OutputType::Spatial => out.push(OutputType::Spatial),
            OutputType::Depth(_) => {},
        }
        proof {
            assert(types@.take(i + 1 as int).drop_last() =~= types@.take(i as int));
            assert(types@.take(i + 1 as int).last() == types@[i as int]);
        }
        i += 1;
    }
    proof {
        assert(types@.take(n as int) =~= types@);
    }
    out
}

/// The depth format a token names, if any.
pub open spec fn depth_format_of(t: Seq<u8>) -> Option<DepthFormat> {
    if t == "avif".spec_bytes() {
        Some(DepthFormat::Avif)
    } else if t == "png".spec_bytes() {
        Some(DepthFormat::Png)
    } else if t == "png16".spec_bytes() {
        Some(DepthFormat::Png16)
    } else {
        None
    }
}

/// The stereo output type a token names, if any.
pub open spec fn stereo_type_of(t: Seq<u8>) -> Option<OutputType> {
    if t == "sbs".spec_bytes() {
        Some(OutputType::SideBySide)
    } else if t == "tab".spec_bytes() {
        Some(OutputType::TopAndBottom)
    } else if t == "sep".spec_bytes() {
        Some(OutputType::Separate)
    } else if t == "spatial".spec_bytes() {
        Some(OutputType::Spatial)
    } else {
        None
    }
}

/// Byte-token version of `is_depth_format`.
fn depth_format_of_bytes(t: &[u8]) -> (r: Option<DepthFormat>)
    ensures
        r == depth_format_of(t@),
{
    if bytes_eq(t, "avif".as_bytes()) {
        Some(DepthFormat::Avif)
    } else if bytes_eq(t, "png".as_bytes()) {
        Some(DepthFormat::Png)
    } else if bytes_eq(t, "png16".as_bytes()) {
        Some(DepthFormat::Png16)
    } else {
        None
    }
}

/// Byte-token version of `is_stereo_type`.
fn stereo_type_of_bytes(t: &[u8]) -> (r: Option<OutputType>)
    ensures
        r == stereo_type_of(t@),
{
    if bytes_eq(t, "sbs".as_bytes()) {
        Some(OutputType::SideBySide)
    } else if bytes_eq(t, "tab".as_bytes()) {
        Some(OutputType::TopAndBottom)
    } else if bytes_eq(t, "sep".as_bytes()) {
        Some(OutputType::Separate)
    } else if bytes_eq(t, "spatial".as_bytes()) {
        Some(OutputType::Spatial)
    } else {
        None
    }
}

/// Whether `s` names a depth-map format (`avif`, `png`, `png16`).
pub fn is_depth_format(s: &str) -> (r: bool)
    ensures
        r <==> depth_format_of(s.spec_bytes()) is Some,
{
    depth_format_of_bytes(s.as_bytes()).is_some()
}

/// Whether `s` names a stereo output (`sbs`, `tab`, `sep`, `spatial`).
pub fn is_stereo_type(s: &str) -> (r: bool)
    ensures
        r <==> stereo_type_of(s.spec_bytes()) is Some,
{
    stereo_type_of_bytes(s.as_bytes()).is_some()
}

/// Parses a depth-format name, or reports the unknown token.
pub fn parse_depth_format(s: &str) -> (r: Result<DepthFormat, String>)
    ensures
        r is Ok <==> depth_format_of(s.spec_bytes()) is Some,
        r matches Ok(f) ==> depth_format_of(s.spec_bytes()) == Some(f),
{
    match depth_format_of_bytes(s.as_bytes()) {
        Some(f) => Ok(f),
        None => Err("Unknown depth format. Use: avif, png, png16".to_owned()),
    }
}

/// Parses a stereo-output name, or reports the unknown token.
pub fn parse_stereo_type(s: &str) -> (r: Result<OutputType, String>)
    ensures
        r is Ok <==> stereo_type_of(s.spec_bytes()) is Some,
        r matches Ok(t) ==> stereo_type_of(s.spec_bytes()) == Some(t),
{
    match stereo_type_of_bytes(s.as_bytes()) {
        Some(t) => Ok(t),
        None => Err("Unknown output type".to_owned()),
    }
}

/// Index of the first `c` at or after `from`, or the length if none.
pub open spec fn find_byte(b: Seq<u8>, from: int, c: u8) -> int
    decreases b.len() - from,
{
    if from >= b.len() {
        b.len() as int
    } else if b[from] == c {
        from
    } else {
        find_byte(b, from + 1, c)
    }
}

/// First index in `from ..= to` whose byte is not a space, scanning forward.
pub open spec fn skip_spaces(b: Seq<u8>, from: int, to: int) -> int
    decreases to - from,
{
    if from >= to {
        to
    } else if b[from] != 32 {
        from
    } else {
        skip_spaces(b, from + 1, to)
    }
}

/// Last bound in `lo ..= to` whose preceding byte is not a space, scanning backward.
pub open spec fn rskip_spaces(b: Seq<u8>, lo: int, to: int) -> int
    decreases to - lo,
{
    if to <= lo {
        to
    } else if b[to - 1] != 32 {
        to
    } else {
        rskip_spaces(b, lo, to - 1)
    }
}

/// The space-trimmed token occupying `b[from .. to]`.
pub open spec fn token_at(b: Seq<u8>, from: int, to: int) -> Seq<u8> {
    let lo = skip_spaces(b, from, to);
    let hi = rskip_spaces(b, lo, to);
    b.subrange(lo, hi)
}

/// The non-empty trimmed tokens of the comma-separated list `b[from ..]`.
pub open spec fn split_tokens_from(b: Seq<u8>, from: int) -> Seq<Seq<u8>>
    decreases b.len() - from,
{
    if from >= b.len() {
        Seq::empty()
    } else {
        let j = find_byte(b, from, 44);
        let tok = token_at(b, from, j);
        let rest = if j < from || j >= b.len() {
            Seq::<Seq<u8>>::empty()
        } else {
            split_tokens_from(b, j + 1)
        };
        if tok.len() == 0 {
            rest
        } else {
            seq![tok] + rest
        }
    }
}

/// Splits a byte string into trimmed, non-empty, comma-separated tokens.
fn split_tokens(b: &[u8]) -> (toks: Vec<Vec<u8>>)
    ensures
        toks@.len() == split_tokens_from(b@, 0).len(),
        forall|i: int| 0 <= i < toks@.len()
            ==> #[trigger] toks@[i]@ == split_tokens_from(b@, 0)[i],
{
    let n = b.len();
    let mut toks: Vec<Vec<u8>> = Vec::new();
    let mut pos: usize = 0;
    while pos < n
        invariant
            pos <= n + 1,
            n == b@.len(),
            split_tokens_from(b@, 0) =~= Seq::new(toks@.len() as nat, |i: int| toks@[i]@)
                + split_tokens_from(b@, pos as int),
        decreases n - pos,
    {
        // find the next comma
        let mut j: usize = pos;
        while j < n && b[j] != 44
            invariant
                pos <= j <= n,
                n == b@.len(),
                find_byte(b@, pos as int, 44) == find_byte(b@, j as int, 44),
            decreases n - j,
        {
            j += 1;
        }
        proof {
            assert(find_byte(b@, pos as int, 44) == j);
        }
        // trim spaces off both ends
        let mut lo: usize = pos;
        while lo < j && b[lo] == 32
            invariant
                pos <= lo <= j <= n,
                n == b@.len(),
                skip_spaces(b@, pos as int, j as int) == skip_spaces(b@, lo as int, j as int),
            decreases j - lo,
        {
            lo += 1;
        }
        proof {
            assert(skip_spaces(b@, pos as int, j as int) == lo);
        }
        let mut hi: usize = j;
        while hi > lo && b[hi - 1] == 32
            invariant
                lo <= hi <= j <= n,
                n == b@.len(),
                rskip_spaces(b@, lo as int, j as int) == rskip_spaces(b@, lo as int, hi as int),
            decreases hi,
        {
            hi -= 1;
        }
        proof {
            assert(rskip_spaces(b@, lo as int, j as int) == hi);
        }
        let tok = bytes_slice(b, lo, hi);
        let ghost old_toks = toks@;
        if tok.len() > 0 {
            toks.push(tok);
        }
        proof {
            assert(token_at(b@, pos as int, j as int) == b@.subrange(lo as int, hi as int));
            if tok@.len() > 0 {
                assert(Seq::new(toks@.len() as nat, |i: int| toks@[i]@)
                    =~= Seq::new(old_toks.len() as nat, |i: int| old_toks[i]@).push(tok@));
            }
            assert(split_tokens_from(b@, 0) =~= Seq::new(toks@.len() as nat, |i: int| toks@[i]@)
                + split_tokens_from(b@, j + 1 as int));
        }
        if j == n {
            proof {
                assert(split_tokens_from(b@, n as int) =~= Seq::<Seq<u8>>::empty());
                assert(split_tokens_from(b@, j + 1 as int) =~= Seq::<Seq<u8>>::empty());
            }
            pos = n;
        } else {
            pos = j + 1;
        }
    }
    proof {
        assert(split_tokens_from(b@, pos as int) =~= Seq::<Seq<u8>>::empty());
        assert(split_tokens_from(b@, 0) =~= Seq::new(toks@.len() as nat, |i: int| toks@[i]@));
    }
    toks
}

/// One left-to-right pass over the token list, carrying the stereo outputs
/// collected so far, the depth formats collected so far, and whether a
/// `depth` request was seen. `None` is a parse error: an unknown token, an
/// unknown depth sub-format, or a bare depth format with no preceding
/// `depth` request.
pub open spec fn scan_tokens(
    toks: Seq<Seq<u8>>,
    i: int,
    ts: Seq<OutputType>,
    fs: Seq<DepthFormat>,
    hd: bool,
) -> Option<(Seq<OutputType>, Seq<DepthFormat>, bool)>
    decreases toks.len() - i,
{
    if i >= toks.len() {
        Some((ts, fs, hd))
    } else {
        let t = toks[i];
        let p = "depth:".spec_bytes();
        if t == "depth".spec_bytes() {
            scan_tokens(toks, i + 1, ts, fs, true)
        } else if t.len() >= p.len() && t.subrange(0, p.len() as int) == p {
            match depth_format_of(t.subrange(p.len() as int, t.len() as int)) {
                Some(f) => scan_tokens(toks, i + 1, ts, fs.push(f), true),
                None => None,
            }
        } else if hd && depth_format_of(t) is Some {
            scan_tokens(toks, i + 1, ts, fs.push(depth_format_of(t)->0), true)
        } else {
            match stereo_type_of(t) {
                Some(st) => scan_tokens(toks, i + 1, ts.push(st), fs, hd),
                None => None,
            }
        }
    }
}

/// The scan of `s`'s token list from the initial state.
pub open spec fn scan_of(s: &str) -> Option<(Seq<OutputType>, Seq<DepthFormat>, bool)> {
    scan_tokens(split_tokens_from(s.spec_bytes(), 0), 0, Seq::empty(), Seq::empty(), false)
}

/// Parses a comma-separated output-type list, e.g. `depth:png,sbs,spatial`.
///
/// Succeeds exactly when every token is known (a bare depth format counts
/// only after a `depth` token) and at least one output was requested; a
/// `depth` request is placed first, carrying its formats (or the default).
pub fn parse_output_types(s: &str) -> (r: Result<Vec<OutputType>, String>)
    ensures
        r is Ok <==> (scan_of(s) matches Some((ts, fs, hd)) && (hd || ts.len() > 0)),
        r matches Ok(v) ==> (scan_of(s) matches Some((ts, fs, hd)) && {
            if hd {
                &&& v@.len() == ts.len() + 1
                &&& (v@[0] matches OutputType::Depth(d)
                    && d@ == if fs.len() == 0 { seq![DEFAULT_DEPTH_FORMAT] } else { fs })
                &&& forall|i: int| 0 <= i < ts.len() ==> v@[i + 1] == ts[i]
            } else {
                v@ == ts
            }
        }),
{
    let b = s.as_bytes();
    let toks = split_tokens(b);
    let ghost tseq = split_tokens_from(b@, 0);

    let mut types: Vec<OutputType> = Vec::new();
    let mut fmts: Vec<DepthFormat> = Vec::new();
    let mut has_depth = false;

    let n = toks.len();
    let mut i: usize = 0;
    while i < n
        invariant
            i <= n,
            n == toks@.len(),
            tseq == split_tokens_from(b@, 0),
            tseq == split_tokens_from(s.spec_bytes(), 0),
            toks@.len() == tseq.len(),
            forall|k: int| 0 <= k < toks@.len() ==> #[trigger] toks@[k]@ == tseq[k],
            scan_tokens(tseq, 0, Seq::empty(), Seq::empty(), false)
                == scan_tokens(tseq, i as int, types@, fmts@, has_depth),
        decreases n - i,
    {
        let t: &Vec<u8> = &toks[i];
        proof {
            assert(toks@[i as int]@ == tseq[i as int]);
        }
        let prefix = "depth:".as_bytes();
        if bytes_eq(t.as_slice(), "depth".as_bytes()) {
            has_depth = true;
        } else if bytes_starts_with(t.as_slice(), prefix) {
            let sub = bytes_slice(t.as_slice(), prefix.len(), t.len());
            match depth_format_of_bytes(sub.as_slice()) {
                Some(f) => {
                    fmts.push(f);
                    has_depth = true;
                },
                None => {
                    proof {
                        assert(scan_tokens(tseq, i as int, types@, fmts@, has_depth) is None);
                    }
                    return Err("Unknown depth sub-format. Use: avif, png, png16".to_owned());
                },
            }
        } else {
            let as_fmt = depth_format_of_bytes(t.as_slice());
            if has_depth && as_fmt.is_some() {
                match as_fmt {
                    Some(f) => fmts.push(f),
                    None => {},
                }
            } else {
                match stereo_type_of_bytes(t.as_slice()) {
                    Some(st) => types.push(st),
                    None => {
                        proof {
                            assert(scan_tokens(tseq, i as int, types@, fmts@, has_depth) is None);
                        }
                        if as_fmt.is_some() {
                            return Err(
                                "A depth format must follow a depth request, as in depth:png".to_owned(),
                            );
                        }
                        return Err("Unknown output type".to_owned());
                    },
                }
            }
        }
        i += 1;
    }
    proof {
        assert(scan_tokens(tseq, n as int, types@, fmts@, has_depth)
            == Some((types@, fmts@, has_depth)));
    }

    if has_depth {
        let chosen = if fmts.len() == 0 {
            let mut d: Vec<DepthFormat> = Vec::new();
            d.push(DEFAULT_DEPTH_FORMAT);
            d
        } else {
            fmts
        };
        let mut out = types;
        let ghost stereo_outputs = out@;
        out.insert(0, OutputType::Depth(chosen));
        proof {
            assert(out@[0] == OutputType::Depth(chosen));
            assert(forall|j: int| 0 <= j < stereo_outputs.len()
                ==> out@[j + 1] == stereo_outputs[j]);
        }
        Ok(out)
    } else if types.len() == 0 {
        Err("No output types specified".to_owned())
    } else {
        Ok(types)
    }
}

/// Layout of a saved stereo image.
#[derive(Clone, Copy, Debug, PartialEq, Eq, Structural)]
pub enum OutputFormat {
    SideBySide,
    TopAndBottom,
    Separate,
}

impl OutputFormat {
    /// The layout's display name.
    pub fn name(&self) -> (r: &'static str)
        ensures
            r@ == match self {
                OutputFormat::SideBySide => "side-by-side"@,
                OutputFormat::TopAndBottom => "top-and-bottom"@,
                OutputFormat::Separate => "separate"@,
            },
    {
        match self {
            OutputFormat::SideBySide => "side-by-side",
            OutputFormat::TopAndBottom => "top-and-bottom",
            OutputFormat::Separate => "separate",
        }
    }
}

/// Encoding of a saved stereo image.
#[derive(Clone, Copy, Debug, PartialEq, Eq, Structural)]
pub enum ImageEncoding {
    Jpeg { quality: u8 },
    Png,
}

/// Index just past the last `.` or `/` of `b`, minus one; `-1` if neither occurs.
pub open spec fn rscan_dot_slash(b: Seq<u8>, from: int) -> int
    decreases from,
{
    if from <= 0 {
        -1
    } else if b[from - 1] == 46 || b[from - 1] == 47 {
        from - 1
    } else {
        rscan_dot_slash(b, from - 1)
    }
}

/// The extension of a path: the bytes after the last `.`, provided no `/`
/// follows that dot; empty otherwise.
pub open spec fn path_ext(b: Seq<u8>) -> Seq<u8> {
    let k = rscan_dot_slash(b, b.len() as int);
    if k >= 0 && b[k] == 46 {
        b.subrange(k + 1, b.len() as int)
    } else {
        Seq::empty()
    }
}

/// The ASCII-lowercased image of a byte string.
pub open spec fn lower_seq(b: Seq<u8>) -> Seq<u8> {
    Seq::new(b.len(), |i: int| lower_byte(b[i]))
}

/// Extracts a path's extension bytes (after the last `.`, unless a `/`
/// follows it); empty when there is none.
pub fn extension_of(path: &str) -> (r: Vec<u8>)
    ensures
        r@ == path_ext(path.spec_bytes()),
{
    let b = path.as_bytes();
    let n = b.len();
    let mut from: usize = n;
    while from > 0 && b[from - 1] != 46 && b[from - 1] != 47
        invariant
            from <= n,
            n == b@.len(),
            rscan_dot_slash(b@, n as int) == rscan_dot_slash(b@, from as int),
        decreases from,
    {
        from -= 1;
    }
    if from > 0 && b[from - 1] == 46 {
        proof {
            assert(rscan_dot_slash(b@, from as int) == from - 1);
        }
        bytes_slice(b, from, n)
    } else {
        proof {
            if from > 0 {
                assert(rscan_dot_slash(b@, from as int) == from - 1);
                assert(b@[from - 1] == 47);
            }
        }
        Vec::new()
    }
}

impl ImageEncoding {
    /// The file extension for this encoding.
    pub fn extension(&self) -> (r: &'static str)
        ensures
            r@ == match self {
                ImageEncoding::Jpeg { .. } => "jpg"@,
                ImageEncoding::Png => "png"@,
            },
    {
        match self {
            ImageEncoding::Jpeg { .. } => "jpg",
            ImageEncoding::Png => "png",
        }
    }

    /// Chooses the encoding from a path's extension: `png` (case-insensitive
    /// in its ASCII letters) selects PNG, everything else JPEG at quality 95.
    pub fn from_path(path: &str) -> (r: Self)
        ensures
            r == if lower_seq(path_ext(path.spec_bytes())) == "png".spec_bytes() {
                ImageEncoding::Png
            } else {
                ImageEncoding::Jpeg { quality: 95u8 }
            },
    {
        let ext = extension_of(path);
        let low = crate::text::ascii_lower(ext.as_slice());
        if bytes_eq(low.as_slice(), "png".as_bytes()) {
            proof {
                assert(low@ =~= lower_seq(ext@));
            }
            ImageEncoding::Png
        } else {
            proof {
                assert(low@ =~= lower_seq(ext@));
            }
            ImageEncoding::Jpeg { quality: 95 }
        }
    }
}

/// Settings for MV-HEVC packaging by an external tool.
#[derive(Clone, Debug)]
pub struct MVHEVCConfig {
    /// Path to the packaging tool, if not looked up on the search path.
    pub spatial_cli_path: Option<String>,
    pub enabled: bool,
    pub quality: u8,
    pub keep_intermediate: bool,
}

impl Default for MVHEVCConfig {
    fn default() -> (r: Self)
        ensures
            r.spatial_cli_path is None,
            !r.enabled,
            r.quality == 95,
            !r.keep_intermediate,
    {
        MVHEVCConfig { spatial_cli_path: None, enabled: false, quality: 95, keep_intermediate: false }
    }
}

/// How a stereo result is written out.
#[derive(Clone, Debug)]
pub struct OutputOptions {
    pub layout: OutputFormat,
    pub image_format: ImageEncoding,
    pub mvhevc: Option<MVHEVCConfig>,
}

impl Default for OutputOptions {
    fn default() -> (r: Self)
        ensures
            r.layout == OutputFormat::SideBySide,
            r.image_format == (ImageEncoding::Jpeg { quality: 95u8 }),
            r.mvhevc is None,
    {
        OutputOptions {
            layout: OutputFormat::SideBySide,
            image_format: ImageEncoding::Jpeg { quality: 95 },
            mvhevc: None,
        }
    }
}

} // verus!

verus! {

/// The 8-bit gray level of a raw depth sample rescaled against a range:
/// `round((v - mn) * 255 / (mx - mn))`, or mid-gray when degenerate.
pub open spec fn gray8_value(v: u32, mn: u32, mx: u32) -> u8 {
    if mx <= mn {
        128u8
    } else {
        ((((v - mn) * 510 + (mx - mn)) / (2 * (mx - mn))) as int) as u8
    }
}

/// The 16-bit gray level of a raw depth sample rescaled against a range:
/// `round((v - mn) * 65535 / (mx - mn))`, or mid-gray when degenerate.
pub open spec fn gray16_value(v: u32, mn: u32, mx: u32) -> u16 {
    if mx <= mn {
        32768u16
    } else {
        ((((v - mn) as int * 131070 + (mx - mn)) / (2 * (mx - mn) as int)) as int) as u16
    }
}

/// A rescaled quotient stays within the target gray range:
/// `(diff * 2k + range) / (2 range) <= k` whenever `diff <= range`.
proof fn lemma_gray_quotient_bound(diff: int, range: int, k: int)
    requires
        0 <= diff <= range,
        1 <= range,
        0 <= k,
    ensures
        0 <= (diff * (2 * k) + range) / (2 * range) <= k,
{
    assert(diff * (2 * k) + range <= (2 * range) * k + range) by (nonlinear_arith)
        requires 0 <= diff <= range, 0 <= k;
    vstd::arithmetic::div_mod::lemma_div_is_ordered(
        diff * (2 * k) + range,
        (2 * range) * k + range,
        2 * range,
    );
    assert(((2 * range) * k + range) / (2 * range) == k) by {
        vstd::arithmetic::div_mod::lemma_fundamental_div_mod_converse(
            (2 * range) * k + range,
            2 * range,
            k,
            range,
        );
    }
    vstd::arithmetic::div_mod::lemma_div_pos_is_pos(diff * (2 * k) + range, 2 * range);
}

/// Quantizes a raw depth grid to 8-bit gray against its own extrema; a
/// degenerate grid becomes mid-gray.
pub fn depth_to_gray8(depth: &crate::grid::DepthGrid) -> (r: Vec<u8>)
    requires
        depth.wf(),
    ensures
        r@.len() == depth.data@.len(),
        depth.data@.len() > 0 ==> exists|mn: u32, mx: u32|
            crate::depth_filter::is_min_max(depth.data@, mn, mx)
                && forall|i: int| 0 <= i < r@.len()
                    ==> r@[i] == gray8_value(depth.data@[i], mn, mx),
{
    let n = depth.data.len();
    if n == 0 {
        return Vec::new();
    }
    let (mn, mx) = depth.min_max();
    let mut out: Vec<u8> = Vec::new();
    let mut i: usize = 0;
    while i < n
        invariant
            i <= n,
            n == depth.data@.len(),
            forall|j: int| 0 <= j < n ==> mn <= #[trigger] depth.data@[j] <= mx,
            out@.len() == i,
            forall|j: int| 0 <= j < i ==> out@[j] == gray8_value(depth.data@[j], mn, mx),
        decreases n - i,
    {
        let v = depth.data[i];
        let o: u8 = if mx <= mn {
            128
        } else {
            let diff = (v - mn) as u64;
            let range = (mx - mn) as u64;
            proof {
                lemma_gray_quotient_bound(diff as int, range as int, 255);
            }
            ((diff * 510 + range) / (2 * range)) as u8
        };
        out.push(o);
        i += 1;
    }
    proof {
        assert(crate::depth_filter::is_min_max(depth.data@, mn, mx));
    }
    out
}

/// Quantizes a raw depth grid to 16-bit gray against its own extrema; a
/// degenerate grid becomes mid-gray.
pub fn depth_to_gray16(depth: &crate::grid::DepthGrid) -> (r: Vec<u16>)
    requires
        depth.wf(),
    ensures
        r@.len() == depth.data@.len(),
        depth.data@.len() > 0 ==> exists|mn: u32, mx: u32|
            crate::depth_filter::is_min_max(depth.data@, mn, mx)
                && forall|i: int| 0 <= i < r@.len()
                    ==> r@[i] == gray16_value(depth.data@[i], mn, mx),
{
    let n = depth.data.len();
    if n == 0 {
        return Vec::new();
    }
    let (mn, mx) = depth.min_max();
    let mut out: Vec<u16> = Vec::new();
    let mut i: usize = 0;
    while i < n
        invariant
            i <= n,
            n == depth.data@.len(),
            forall|j: int| 0 <= j < n ==> mn <= #[trigger] depth.data@[j] <= mx,
            out@.len() == i,
            forall|j: int| 0 <= j < i ==> out@[j] == gray16_value(depth.data@[j], mn, mx),
        decreases n - i,
    {
        let v = depth.data[i];
        let o: u16 = if mx <= mn {
            32768
        } else {
            let diff = (v - mn) as u64;
            let range = (mx - mn) as u64;
            proof {
                lemma_gray_quotient_bound(diff as int, range as int, 65535);
            }
            ((diff * 131070 + range) / (2 * range)) as u16
        };
        out.push(o);
        i += 1;
    }
    proof {
        assert(crate::depth_filter::is_min_max(depth.data@, mn, mx));
    }
    out
}

/// Serializes 16-bit gray levels as big-endian byte pairs, as the PNG
/// encoder expects them.
pub fn gray16_to_be_bytes(v: &Vec<u16>) -> (r: Vec<u8>)
    ensures
        r@.len() == 2 * v@.len(),
        forall|i: int| 0 <= i < v@.len()
            ==> r@[2 * i] == (#[trigger] v@[i] / 256) as u8
                && r@[2 * i + 1] == (v@[i] % 256) as u8,
{
    let n = v.len();
    let mut out: Vec<u8> = Vec::new();
    let mut i: usize = 0;
    while i < n
        invariant
            i <= n,
            n == v@.len(),
            out@.len() == 2 * i,
            forall|j: int| 0 <= j < i
                ==> out@[2 * j] == (#[trigger] v@[j] / 256) as u8
                    && out@[2 * j + 1] == (v@[j] % 256) as u8,
        decreases n - i,
    {
        let x = v[i];
        out.push((x / 256) as u8);
        out.push((x % 256) as u8);
        i += 1;
    }
    out
}

/// Replicates gray levels into interleaved RGB bytes.
pub fn gray8_to_rgb(v: &Vec<u8>) -> (r: Vec<u8>)
    ensures
        r@.len() == 3 * v@.len(),
        forall|i: int| 0 <= i < v@.len()
            ==> r@[3 * i] == #[trigger] v@[i] && r@[3 * i + 1] == v@[i] && r@[3 * i + 2] == v@[i],
{
    let n = v.len();
    let mut out: Vec<u8> = Vec::new();
    let mut i: usize = 0;
    while i < n
        invariant
            i <= n,
            n == v@.len(),
            out@.len() == 3 * i,
            forall|j: int| 0 <= j < i
                ==> out@[3 * j] == #[trigger] v@[j] && out@[3 * j + 1] == v@[j]
                    && out@[3 * j + 2] == v@[j],
        decreases n - i,
    {
        let x = v[i];
        out.push(x);
        out.push(x);
        out.push(x);
        i += 1;
    }
    out
}

} // verus!

verus! {

/// Joins a stereo pair side by side: the left view occupies the left half
/// of each row, the right view the right half. The inputs must share a
/// height, and the combined width must stay within `MAX_DIM`.
pub fn create_sbs_image(left: &ColorFrame, right: &ColorFrame) -> (r: ColorFrame)
    requires
        left.wf(),
        right.wf(),
        left.height == right.height,
        left.width + right.width <= crate::grid::MAX_DIM,
    ensures
        r.wf(),
        r.width == left.width + right.width,
        r.height == left.height,
        forall|y: int, x: int, c: int|
            0 <= y < r.height && 0 <= x < left.width && 0 <= c < 3
                ==> r.at(y, x, c) == left.at(y, x, c),
        forall|y: int, x: int, c: int|
            0 <= y < r.height && left.width <= x < r.width && 0 <= c < 3
                ==> r.at(y, x, c) == right.at(y, x - left.width, c),
{
    let lw = left.width;
    let h = left.height;
    let cw = lw + right.width;
    let mut r = ColorFrame::uniform(cw, h, (0u8, 0u8, 0u8));
    let mut y: usize = 0;
    while y < h
        invariant
            y <= h,
            left.wf(),
            right.wf(),
            left.width == lw,
            left.height == right.height == h,
            cw == lw + right.width <= crate::grid::MAX_DIM,
            r.wf(),
            r.width == cw,
            r.height == h,
            forall|yy: int, xx: int, c: int|
                0 <= yy < y && 0 <= xx < cw && 0 <= c < 3
                    ==> #[trigger] r.at(yy, xx, c) == (if xx < lw {
                        left.at(yy, xx, c)
                    } else {
                        right.at(yy, xx - lw, c)
                    }),
        decreases h - y,
    {
        let mut x: usize = 0;
        while x < cw
            invariant
                y < h,
                x <= cw,
                left.wf(),
                right.wf(),
                left.width == lw,
                left.height == right.height == h,
                cw == lw + right.width <= crate::grid::MAX_DIM,
                r.wf(),
                r.width == cw,
                r.height == h,
                forall|yy: int, xx: int, c: int|
                    0 <= yy < y && 0 <= xx < cw && 0 <= c < 3
                        ==> #[trigger] r.at(yy, xx, c) == (if xx < lw {
                            left.at(yy, xx, c)
                        } else {
                            right.at(yy, xx - lw, c)
                        }),
                forall|xx: int, c: int|
                    0 <= xx < x && 0 <= c < 3
                        ==> #[trigger] r.at(y as int, xx, c) == (if xx < lw {
                            left.at(y as int, xx, c)
                        } else {
                            right.at(y as int, xx - lw, c)
                        }),
            decreases cw - x,
        {
            let px = if x < lw {
                left.get_px(y, x)
            } else {
                right.get_px(y, x - lw)
            };
            let ghost before = r;
            r.put_px(y, x, px);
            proof {
                assert forall|yy: int, xx: int, c: int|
                    0 <= yy < h && 0 <= xx < cw && 0 <= c < 3
                        && (yy != y || xx != x)
                        implies r.at(yy, xx, c) == before.at(yy, xx, c) by {
                    crate::grid::lemma_rowmajor_injective(
                        cw as int, yy, xx, y as int, x as int);
                    crate::grid::lemma_grid_index(cw as int, h as int, yy, xx);
                    crate::grid::lemma_grid_index(cw as int, h as int, y as int, x as int);
                }
            }
            x += 1;
        }
        y += 1;
    }
    r
}

/// Stacks a stereo pair top and bottom: the left view's rows, then the
/// right view's. The inputs must share a width, and the combined height
/// must stay within `MAX_DIM`.
pub fn create_tab_image(left: &ColorFrame, right: &ColorFrame) -> (r: ColorFrame)
    requires
        left.wf(),
        right.wf(),
        left.width == right.width,
        left.height + right.height <= crate::grid::MAX_DIM,
    ensures
        r.wf(),
        r.width == left.width,
        r.height == left.height + right.height,
        r.data@ == left.data@ + right.data@,
{
    let w = left.width;
    let data = crate::grid::append_bytes(&left.data, &right.data);
    proof {
        assert(3 * (left.width * left.height) + 3 * (right.width * right.height)
            == 3 * (left.width * (left.height + right.height))) by (nonlinear_arith)
            requires left.width == right.width;
    }
    ColorFrame { width: w, height: left.height + right.height, data }
}

} // verus!
