//! The buffer types the pipeline moves around: raw and normalized depth
//! grids and 8-bit RGB color frames, all row-major.
use vstd::prelude::*;
use crate::error::{SpatialError, SpatialResult};
use crate::DEPTH_UNIT;

verus! {

/// Largest accepted width or height of a grid or frame. Keeps every
/// row-major index and byte count within `u32` range on any platform.
pub const MAX_DIM: usize = 32767;

/// Row-major index arithmetic: a cell of a valid coordinate pair lies
/// inside the grid's backing vector.
pub proof fn lemma_rowmajor_index(w: int, h: int, y: int, x: int)
    requires
        0 <= x < w,
        0 <= y < h,
    ensures
        0 <= y * w + x < w * h,
    decreases h,
{
    if y == 0 {
        assert(w <= w * h) by (nonlinear_arith)
            requires 1 <= h, 0 < w;
    } else {
        lemma_rowmajor_index(w, h - 1, y - 1, x);
        assert(y * w + x == (y - 1) * w + x + w) by (nonlinear_arith);
        assert(w * (h - 1) + w == w * h) by (nonlinear_arith);
    }
}

/// A raw depth grid: one `u32` sample per cell on an arbitrary affine
/// scale, row-major, `height` rows of `width` samples.
#[derive(Clone, Debug)]
pub struct DepthGrid {
    pub width: usize,
    pub height: usize,
    pub data: Vec<u32>,
}

impl DepthGrid {
    /// Shape invariant: bounded dimensions and a fully populated buffer.
    pub open spec fn wf(&self) -> bool {
        &&& self.width <= MAX_DIM
        &&& self.height <= MAX_DIM
        &&& self.data@.len() == self.width * self.height
    }

    /// The sample at row `y`, column `x`.
    pub open spec fn at(&self, y: int, x: int) -> u32 {
        self.data@[y * self.width + x]
    }

    /// Every sample equals `c`.
    pub open spec fn is_uniform(&self, c: u32) -> bool {
        forall|i: int| 0 <= i < self.data@.len() ==> self.data@[i] == c
    }

    /// Builds a grid, rejecting dimension/buffer mismatches.
    pub fn new(width: usize, height: usize, data: Vec<u32>) -> (r: SpatialResult<Self>)
        ensures
            r is Ok <==> (width <= MAX_DIM && height <= MAX_DIM
                && data@.len() == width * height),
            r matches Ok(g) ==> g == (DepthGrid { width, height, data }),
    {
        if width > MAX_DIM || height > MAX_DIM {
            return Err(SpatialError::TensorError("depth grid dimensions out of range".to_owned()));
        }
        proof {
            assert(width * height <= MAX_DIM * MAX_DIM) by (nonlinear_arith)
                requires width <= MAX_DIM, height <= MAX_DIM;
        }
        if data.len() != width * height {
            return Err(SpatialError::TensorError("depth grid buffer does not match its dimensions".to_owned()));
        }
        Ok(DepthGrid { width, height, data })
    }

    /// Reads the sample at row `y`, column `x`.
    pub fn get(&self, y: usize, x: usize) -> (v: u32)
        requires
            self.wf(),
            y < self.height,
            x < self.width,
        ensures
            v == self.at(y as int, x as int),
    {
        proof {
            lemma_rowmajor_index(self.width as int, self.height as int, y as int, x as int);
            assert(self.width * self.height <= MAX_DIM * MAX_DIM) by (nonlinear_arith)
                requires self.width <= MAX_DIM, self.height <= MAX_DIM;
        }
        self.data[y * self.width + x]
    }

    /// The least and greatest sample of a non-empty grid.
    pub fn min_max(&self) -> (r: (u32, u32))
        requires
            self.wf(),
            self.data@.len() > 0,
        ensures
            forall|i: int| 0 <= i < self.data@.len() ==> r.0 <= #[trigger] self.data@[i] <= r.1,
            exists|i: int| 0 <= i < self.data@.len() && self.data@[i] == r.0,
            exists|i: int| 0 <= i < self.data@.len() && self.data@[i] == r.1,
            r.0 <= r.1,
    {
        let mut mn: u32 = self.data[0];
        let mut mx: u32 = self.data[0];
        let n = self.data.len();
        let mut i: usize = 1;
        while i < n
            invariant
                1 <= i <= n,
                n == self.data@.len(),
                forall|j: int| 0 <= j < i ==> mn <= #[trigger] self.data@[j] <= mx,
                exists|j: int| 0 <= j < i && self.data@[j] == mn,
                exists|j: int| 0 <= j < i && self.data@[j] == mx,
            decreases n - i,
        {
            let v = self.data[i];
            if v < mn {
                mn = v;
            }
            if v > mx {
                mx = v;
            }
            i += 1;
        }
        (mn, mx)
    }
}

/// A normalized depth grid: every sample lies in `0 ..= DEPTH_UNIT`
/// (fixed-point `[0, 1]`), row-major.
#[derive(Clone, Debug)]
pub struct NormalizedDepthGrid {
    pub width: usize,
    pub height: usize,
    pub data: Vec<u32>,
}

impl NormalizedDepthGrid {
    /// Shape invariant plus the normalization range invariant.
    pub open spec fn wf(&self) -> bool {
        &&& self.width <= MAX_DIM
        &&& self.height <= MAX_DIM
        &&& self.data@.len() == self.width * self.height
        &&& forall|i: int| 0 <= i < self.data@.len() ==> self.data@[i] <= DEPTH_UNIT
    }

    /// The sample at row `y`, column `x`.
    pub open spec fn at(&self, y: int, x: int) -> u32 {
        self.data@[y * self.width + x]
    }

    /// Every sample equals `c`.
    pub open spec fn is_uniform(&self, c: u32) -> bool {
        forall|i: int| 0 <= i < self.data@.len() ==> self.data@[i] == c
    }

    /// Builds a normalized grid, rejecting shape mismatches and samples
    /// beyond `DEPTH_UNIT`.
    pub fn new(width: usize, height: usize, data: Vec<u32>) -> (r: SpatialResult<Self>)
        ensures
            r is Ok <==> (width <= MAX_DIM && height <= MAX_DIM
                && data@.len() == width * height
                && forall|i: int| 0 <= i < data@.len() ==> data@[i] <= DEPTH_UNIT),
            r matches Ok(g) ==> g == (NormalizedDepthGrid { width, height, data }),
    {
        if width > MAX_DIM || height > MAX_DIM {
            return Err(SpatialError::TensorError("depth grid dimensions out of range".to_owned()));
        }
        proof {
            assert(width * height <= MAX_DIM * MAX_DIM) by (nonlinear_arith)
                requires width <= MAX_DIM, height <= MAX_DIM;
        }
        if data.len() != width * height {
            return Err(SpatialError::TensorError("depth grid buffer does not match its dimensions".to_owned()));
        }
        let mut i: usize = 0;
        let n = data.len();
        while i < n
            invariant
                i <= n,
                n == data@.len(),
                forall|j: int| 0 <= j < i ==> data@[j] <= DEPTH_UNIT,
            decreases n - i,
        {
            if data[i] > DEPTH_UNIT {
                return Err(SpatialError::TensorError("normalized depth sample out of range".to_owned()));
            }
            i += 1;
        }
        Ok(NormalizedDepthGrid { width, height, data })
    }

    /// Reads the sample at row `y`, column `x`.
    pub fn get(&self, y: usize, x: usize) -> (v: u32)
        requires
            self.wf(),
            y < self.height,
            x < self.width,
        ensures
            v == self.at(y as int, x as int),
            v <= DEPTH_UNIT,
    {
        proof {
            lemma_rowmajor_index(self.width as int, self.height as int, y as int, x as int);
            assert(self.width * self.height <= MAX_DIM * MAX_DIM) by (nonlinear_arith)
                requires self.width <= MAX_DIM, self.height <= MAX_DIM;
        }
        self.data[y * self.width + x]
    }
}

/// An 8-bit RGB frame, row-major, three bytes per pixel.
#[derive(Clone, Debug)]
pub struct ColorFrame {
    pub width: usize,
    pub height: usize,
    pub data: Vec<u8>,
}

impl ColorFrame {
    /// Shape invariant: bounded dimensions and three bytes per pixel.
    pub open spec fn wf(&self) -> bool {
        &&& self.width <= MAX_DIM
        &&& self.height <= MAX_DIM
        &&& self.data@.len() == 3 * (self.width * self.height)
    }

    /// Channel `c` (0 = red, 1 = green, 2 = blue) of the pixel at (`y`, `x`).
    pub open spec fn at(&self, y: int, x: int, c: int) -> u8 {
        self.data@[3 * (y * self.width + x) + c]
    }

    /// Builds a frame from raw interleaved RGB bytes, as a decoder emits
    /// them; rejects a buffer whose size does not match the dimensions.
    pub fn from_raw(width: usize, height: usize, data: Vec<u8>) -> (r: SpatialResult<Self>)
        ensures
            r is Ok <==> (width <= MAX_DIM && height <= MAX_DIM
                && data@.len() == 3 * (width * height)),
            r matches Ok(f) ==> f == (ColorFrame { width, height, data }),
    {
        if width > MAX_DIM || height > MAX_DIM {
            return Err(SpatialError::ImageError("frame dimensions out of range".to_owned()));
        }
        proof {
            assert(width * height <= MAX_DIM * MAX_DIM) by (nonlinear_arith)
                requires width <= MAX_DIM, height <= MAX_DIM;
        }
        let px = width * height;
        if data.len() != 3 * px {
            return Err(SpatialError::ImageError("frame buffer does not match its dimensions".to_owned()));
        }
        Ok(ColorFrame { width, height, data })
    }

    /// A frame of the given size filled with one color.
    pub fn uniform(width: usize, height: usize, rgb: (u8, u8, u8)) -> (r: Self)
        requires
            width <= MAX_DIM,
            height <= MAX_DIM,
        ensures
            r.wf(),
            r.width == width,
            r.height == height,
            forall|i: int| 0 <= i < r.data@.len() ==> r.data@[i] == (
                if i % 3 == 0 { rgb.0 } else if i % 3 == 1 { rgb.1 } else { rgb.2 }),
    {
        proof {
            assert(width * height <= MAX_DIM * MAX_DIM) by (nonlinear_arith)
                requires width <= MAX_DIM, height <= MAX_DIM;
        }
        let px = width * height;
        let mut data: Vec<u8> = Vec::new();
        let mut i: usize = 0;
        while i < px
            invariant
                i <= px,
                data@.len() == 3 * i,
                forall|j: int| 0 <= j < data@.len() ==> data@[j] == (
                    if j % 3 == 0 { rgb.0 } else if j % 3 == 1 { rgb.1 } else { rgb.2 }),
            decreases px - i,
        {
            data.push(rgb.0);
            data.push(rgb.1);
            data.push(rgb.2);
            i += 1;
        }
        ColorFrame { width, height, data }
    }

    /// Reads the pixel at row `y`, column `x`.
    pub fn get_px(&self, y: usize, x: usize) -> (v: (u8, u8, u8))
        requires
            self.wf(),
            y < self.height,
            x < self.width,
        ensures
            v.0 == self.at(y as int, x as int, 0),
            v.1 == self.at(y as int, x as int, 1),
            v.2 == self.at(y as int, x as int, 2),
    {
        proof {
            lemma_rowmajor_index(self.width as int, self.height as int, y as int, x as int);
            assert(self.width * self.height <= MAX_DIM * MAX_DIM) by (nonlinear_arith)
                requires self.width <= MAX_DIM, self.height <= MAX_DIM;
        }
        let idx = 3 * (y * self.width + x);
        (self.data[idx], self.data[idx + 1], self.data[idx + 2])
    }

    /// Overwrites the pixel at row `y`, column `x`, leaving every other
    /// byte unchanged.
    pub fn put_px(&mut self, y: usize, x: usize, rgb: (u8, u8, u8))
        requires
            old(self).wf(),
            y < old(self).height,
            x < old(self).width,
        ensures
            final(self).wf(),
            final(self).width == old(self).width,
            final(self).height == old(self).height,
            final(self).at(y as int, x as int, 0) == rgb.0,
            final(self).at(y as int, x as int, 1) == rgb.1,
            final(self).at(y as int, x as int, 2) == rgb.2,
            forall|i: int| 0 <= i < old(self).data@.len()
                && !(3 * (y * old(self).width + x) <= i < 3 * (y * old(self).width + x) + 3)
                ==> final(self).data@[i] == old(self).data@[i],
    {
        proof {
            lemma_rowmajor_index(self.width as int, self.height as int, y as int, x as int);
            assert(self.width * self.height <= MAX_DIM * MAX_DIM) by (nonlinear_arith)
                requires self.width <= MAX_DIM, self.height <= MAX_DIM;
        }
        let idx = 3 * (y * self.width + x);
        self.data.set(idx, rgb.0);
        self.data.set(idx + 1, rgb.1);
        self.data.set(idx + 2, rgb.2);
    }
}

} // verus!

verus! {

/// Copies a sample buffer element by element.
fn copy_samples(v: &Vec<u32>) -> (r: Vec<u32>)
    ensures
        r@ == v@,
{
    let n = v.len();
    let mut out: Vec<u32> = Vec::new();
    let mut i: usize = 0;
    while i < n
        invariant
            i <= n,
            n == v@.len(),
            out@ == v@.take(i as int),
        decreases n - i,
    {
        out.push(v[i]);
        proof {
            assert(out@ =~= v@.take(i + 1 as int));
        }
        i += 1;
    }
    proof {
        assert(v@.take(n as int) =~= v@);
    }
    out
}

impl NormalizedDepthGrid {
    /// A deep copy with the same dimensions and samples.
    pub fn duplicate(&self) -> (r: Self)
        ensures
            r.width == self.width,
            r.height == self.height,
            r.data@ == self.data@,
    {
        NormalizedDepthGrid { width: self.width, height: self.height, data: copy_samples(&self.data) }
    }
}

} // verus!

verus! {

/// Copies a byte buffer element by element.
fn copy_bytes(v: &Vec<u8>) -> (r: Vec<u8>)
    ensures
        r@ == v@,
{
    let n = v.len();
    let mut out: Vec<u8> = Vec::new();
    let mut i: usize = 0;
    while i < n
        invariant
            i <= n,
            n == v@.len(),
            out@ == v@.take(i as int),
        decreases n - i,
    {
        out.push(v[i]);
        proof {
            assert(out@ =~= v@.take(i + 1 as int));
        }
        i += 1;
    }
    proof {
        assert(v@.take(n as int) =~= v@);
    }
    out
}

/// Row-major index arithmetic with the dimension bound: the cell index and
/// its byte range lie inside the buffers of a grid within `MAX_DIM`.
pub proof fn lemma_grid_index(w: int, h: int, y: int, x: int)
    requires
        0 <= x < w <= MAX_DIM,
        0 <= y < h <= MAX_DIM,
    ensures
        0 <= y * w + x < w * h,
        w * h <= MAX_DIM * MAX_DIM,
{
    lemma_rowmajor_index(w, h, y, x);
    assert(w * h <= MAX_DIM * MAX_DIM) by (nonlinear_arith)
        requires 0 < w <= MAX_DIM, 0 < h <= MAX_DIM;
}

impl ColorFrame {
    /// A deep copy with the same dimensions and pixels.
    pub fn duplicate(&self) -> (r: Self)
        ensures
            r.width == self.width,
            r.height == self.height,
            r.data@ == self.data@,
    {
        ColorFrame { width: self.width, height: self.height, data: copy_bytes(&self.data) }
    }
}

} // verus!

verus! {

/// Concatenates two byte buffers into a fresh one.
pub fn append_bytes(a: &Vec<u8>, b: &Vec<u8>) -> (r: Vec<u8>)
    ensures
        r@ == a@ + b@,
{
    let mut out: Vec<u8> = Vec::new();
    let na = a.len();
    let mut i: usize = 0;
    while i < na
        invariant
            i <= na,
            na == a@.len(),
            out@ == a@.take(i as int),
        decreases na - i,
    {
        out.push(a[i]);
        proof {
            assert(out@ =~= a@.take(i + 1 as int));
        }
        i += 1;
    }
    let nb = b.len();
    let mut j: usize = 0;
    while j < nb
        invariant
            j <= nb,
            na == a@.len(),
            nb == b@.len(),
            out@ == a@.take(na as int) + b@.take(j as int),
        decreases nb - j,
    {
        out.push(b[j]);
        proof {
            assert(out@ =~= a@.take(na as int) + b@.take(j + 1 as int));
        }
        j += 1;
    }
    proof {
        assert(a@.take(na as int) =~= a@);
        assert(b@.take(nb as int) =~= b@);
    }
    out
}

} // verus!

verus! {

/// Distinct coordinate pairs have distinct row-major indices.
pub proof fn lemma_rowmajor_injective(w: int, y1: int, x1: int, y2: int, x2: int)
    requires
        0 <= x1 < w,
        0 <= x2 < w,
        0 <= y1,
        0 <= y2,
        y1 != y2 || x1 != x2,
    ensures
        y1 * w + x1 != y2 * w + x2,
{
    if y1 == y2 {
    } else if y1 < y2 {
        assert(y1 * w + x1 < y2 * w + x2) by (nonlinear_arith)
            requires 0 <= x1 < w, 0 <= x2, y1 < y2;
    } else {
        assert(y2 * w + x2 < y1 * w + x1) by (nonlinear_arith)
            requires 0 <= x2 < w, 0 <= x1, y2 < y1;
    }
}

} // verus!
