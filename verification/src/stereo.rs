//! Stereo-view synthesis: forward depth-image-based rendering. Each source
//! pixel shifts left by a disparity proportional to its depth; collisions
//! are resolved by a z-buffer (the strictly nearer sample wins, the first
//! writer wins a tie), and disocclusion holes are filled from the nearest
//! written pixel in the same row, left side preferred.
use vstd::prelude::*;
use vstd::arithmetic::div_mod::lemma_div_pos_is_pos;
use crate::{DEPTH_HALF, DEPTH_UNIT};
use crate::error::{SpatialError, SpatialResult};
use crate::grid::{lemma_grid_index, lemma_rowmajor_index, lemma_rowmajor_injective, ColorFrame, NormalizedDepthGrid, MAX_DIM};

verus! {

/// How far the hole-filling search looks in each direction along the row.
pub const HOLE_SEARCH_RADIUS: usize = 20;

/// The neutral color left where no written pixel is within reach.
pub const HOLE_FILL_GRAY: u8 = 64;

/// The disparity of a normalized depth sample: `round(dv * max_disparity)`
/// with `dv` as a fraction of `DEPTH_UNIT`. Closer (larger) depth gives a
/// larger shift.
pub open spec fn disparity_of(dv: u32, max_disparity: u32) -> int {
    ((dv * max_disparity) + DEPTH_HALF) as int / DEPTH_UNIT as int
}

/// The depth sample used for image pixel (`x`, `y`): direct when the grid
/// matches the image dimensions, else nearest-neighbor index scaling
/// (`floor(coord * depth_dim / image_dim)`, clamped to the grid).
pub open spec fn depth_sample(depth: &NormalizedDepthGrid, x: int, y: int, w: int, h: int) -> u32 {
    if depth.width == w && depth.height == h {
        depth.at(y, x)
    } else {
        let sx = if x * depth.width / w < depth.width - 1 { x * depth.width / w } else { depth.width - 1 };
        let sy = if y * depth.height / h < depth.height - 1 { y * depth.height / h } else { depth.height - 1 };
        depth.at(sy, sx)
    }
}

/// Reads the depth sample for image pixel (`x`, `y`), scaling indices when
/// the grid and image dimensions differ.
fn get_depth_at(
    depth: &NormalizedDepthGrid,
    x: usize,
    y: usize,
    img_width: usize,
    img_height: usize,
) -> (dv: u32)
    requires
        depth.wf(),
        depth.width > 0,
        depth.height > 0,
        img_width <= MAX_DIM,
        img_height <= MAX_DIM,
        x < img_width,
        y < img_height,
    ensures
        dv == depth_sample(depth, x as int, y as int, img_width as int, img_height as int),
        dv <= DEPTH_UNIT,
        exists|k: int| 0 <= k < depth.data@.len() && depth.data@[k] == dv,
{
    let (sy, sx): (usize, usize) = if depth.height == img_height && depth.width == img_width {
        (y, x)
    } else {
        proof {
            assert(x * depth.width <= MAX_DIM * MAX_DIM) by (nonlinear_arith)
                requires x <= MAX_DIM, depth.width <= MAX_DIM;
            assert(y * depth.height <= MAX_DIM * MAX_DIM) by (nonlinear_arith)
                requires y <= MAX_DIM, depth.height <= MAX_DIM;
        }
        let mut sx = x * depth.width / img_width;
        if sx >= depth.width - 1 {
            sx = depth.width - 1;
        }
        let mut sy = y * depth.height / img_height;
        if sy >= depth.height - 1 {
            sy = depth.height - 1;
        }
        (sy, sx)
    };
    proof {
        lemma_rowmajor_index(depth.width as int, depth.height as int, sy as int, sx as int);
    }
    let dv = depth.get(sy, sx);
    proof {
        assert(depth.data@[sy as int * depth.width + sx as int] == dv);
    }
    dv
}

/// Finds the nearest written pixel in the same row, scanning outward up to
/// `HOLE_SEARCH_RADIUS`, preferring the left side on a tie.
fn find_nearest_valid(
    right: &ColorFrame,
    written: &Vec<bool>,
    y: usize,
    x: usize,
) -> (r: Option<(u8, u8, u8)>)
    requires
        right.wf(),
        written@.len() == right.width * right.height,
        y < right.height,
        x < right.width,
    ensures
        r matches Some(px) ==> exists|xx: int|
            0 <= xx < right.width
                && written@[y * right.width + xx]
                && px.0 == right.at(y as int, xx, 0)
                && px.1 == right.at(y as int, xx, 1)
                && px.2 == right.at(y as int, xx, 2),
{
    let w = right.width;
    let mut d: usize = 1;
    while d <= HOLE_SEARCH_RADIUS
        invariant
            1 <= d,
            right.wf(),
            written@.len() == right.width * right.height,
            y < right.height,
            x < right.width,
            w == right.width,
        decreases HOLE_SEARCH_RADIUS + 1 - d,
    {
        if x >= d {
            let xx = x - d;
            proof {
                lemma_grid_index(right.width as int, right.height as int, y as int, xx as int);
            }
            if written[y * w + xx] {
                return Some(right.get_px(y, xx));
            }
        }
        if x + d < w {
            let xx = x + d;
            proof {
                lemma_grid_index(right.width as int, right.height as int, y as int, xx as int);
            }
            if written[y * w + xx] {
                return Some(right.get_px(y, xx));
            }
        }
        d += 1;
    }
    None
}

/// Fills every unwritten pixel from the nearest written pixel in its row;
/// written pixels are left untouched, so an entirely written frame comes
/// back unchanged. A hole with no written neighbor in reach keeps the
/// neutral gray it was initialized with.
fn fill_disocclusions(right: &mut ColorFrame, written: &Vec<bool>)
    requires
        old(right).wf(),
        written@.len() == old(right).width * old(right).height,
    ensures
        final(right).wf(),
        final(right).width == old(right).width,
        final(right).height == old(right).height,
        forall|p: int| 0 <= p < written@.len() && written@[p]
            ==> final(right).data@[3 * p] == old(right).data@[3 * p]
                && final(right).data@[3 * p + 1] == old(right).data@[3 * p + 1]
                && final(right).data@[3 * p + 2] == old(right).data@[3 * p + 2],
        (forall|p: int| 0 <= p < written@.len() ==> written@[p])
            ==> final(right).data@ == old(right).data@,
{
    let w = right.width;
    let h = right.height;
    let mut y: usize = 0;
    while y < h
        invariant
            y <= h,
            right.wf(),
            right.width == old(right).width == w,
            right.height == old(right).height == h,
            written@.len() == w * h,
            forall|p: int| 0 <= p < written@.len() && written@[p]
                ==> right.data@[3 * p] == old(right).data@[3 * p]
                    && right.data@[3 * p + 1] == old(right).data@[3 * p + 1]
                    && right.data@[3 * p + 2] == old(right).data@[3 * p + 2],
            (forall|p: int| 0 <= p < written@.len() ==> written@[p])
                ==> right.data@ == old(right).data@,
        decreases h - y,
    {
        let mut x: usize = 0;
        while x < w
            invariant
                y < h,
                x <= w,
                right.wf(),
                right.width == old(right).width == w,
                right.height == old(right).height == h,
                written@.len() == w * h,
                forall|p: int| 0 <= p < written@.len() && written@[p]
                    ==> right.data@[3 * p] == old(right).data@[3 * p]
                        && right.data@[3 * p + 1] == old(right).data@[3 * p + 1]
                        && right.data@[3 * p + 2] == old(right).data@[3 * p + 2],
                (forall|p: int| 0 <= p < written@.len() ==> written@[p])
                    ==> right.data@ == old(right).data@,
            decreases w - x,
        {
            proof {
                lemma_grid_index(w as int, h as int, y as int, x as int);
            }
            if !written[y * w + x] {
                match find_nearest_valid(right, written, y, x) {
                    Some(px) => {
                        right.put_px(y, x, px);
                    },
                    None => {},
                }
            }
            x += 1;
        }
        y += 1;
    }
}

/// Synthesizes a stereo pair: the left view is the source image unchanged;
/// the right view forward-warps each source pixel left by its disparity,
/// resolves collisions through a z-buffer (strictly greater depth wins),
/// and fills disocclusion holes from the nearest written pixel in the row.
///
/// Fails exactly on malformed input: an empty image or an empty depth grid.
/// With zero maximum disparity — or an all-zero (all-far) depth grid — the
/// right view equals the left view exactly.
pub fn generate_stereo_pair(
    image: &ColorFrame,
    depth: &NormalizedDepthGrid,
    max_disparity: u32,
) -> (r: SpatialResult<(ColorFrame, ColorFrame)>)
    requires
        image.wf(),
        depth.wf(),
    ensures
        r is Ok <==> (image.width > 0 && image.height > 0
            && depth.width > 0 && depth.height > 0),
        r matches Err(e) ==> e is ImageError,
        r matches Ok(p) ==> {
            &&& p.0.width == image.width && p.0.height == image.height
            &&& p.0.data@ == image.data@
            &&& p.1.wf()
            &&& p.1.width == image.width && p.1.height == image.height
            &&& ((max_disparity == 0 || depth.is_uniform(0)) ==> p.1.data@ == image.data@)
            &&& forall|c: u32, yy: int, xd: int, ch: int|
                #![trigger depth.is_uniform(c), p.1.at(yy, xd, ch)]
                depth.is_uniform(c) && depth.data@.len() > 0
                    && 0 <= yy < image.height && 0 <= ch < 3
                    && 0 <= xd && xd + disparity_of(c, max_disparity) < image.width
                    ==> p.1.at(yy, xd, ch)
                        == image.at(yy, xd + disparity_of(c, max_disparity), ch)
        },
{
    if image.width == 0 || image.height == 0 {
        return Err(SpatialError::ImageError("cannot synthesize a stereo view of an empty image".to_owned()));
    }
    if depth.width == 0 || depth.height == 0 {
        return Err(SpatialError::ImageError("depth grid is empty".to_owned()));
    }
    let w = image.width;
    let h = image.height;
    let ghost zero_shift: bool = max_disparity == 0 || depth.is_uniform(0);
    let ghost c0: u32 = if depth.data@.len() > 0 { depth.data@[0] } else { 0u32 };
    let ghost uni: bool = depth.data@.len() > 0 && depth.is_uniform(c0);
    let ghost kd: int = disparity_of(c0, max_disparity);
    proof {
        lemma_div_pos_is_pos((c0 * max_disparity + DEPTH_HALF) as int, DEPTH_UNIT as int);
    }

    let left = image.duplicate();
    let mut right = ColorFrame::uniform(w, h, (HOLE_FILL_GRAY, HOLE_FILL_GRAY, HOLE_FILL_GRAY));
    let mut written: Vec<bool> = Vec::new();
    let mut zbuf: Vec<u32> = Vec::new();
    proof {
        assert(w * h <= MAX_DIM * MAX_DIM) by (nonlinear_arith)
            requires w <= MAX_DIM, h <= MAX_DIM;
    }
    let px_count = w * h;
    let mut i: usize = 0;
    while i < px_count
        invariant
            i <= px_count,
            written@.len() == i,
            zbuf@.len() == i,
            forall|k: int| 0 <= k < i ==> !written@[k],
        decreases px_count - i,
    {
        written.push(false);
        zbuf.push(0);
        i += 1;
    }

    proof {
        assert forall|yy: int, xx: int|
            #![trigger written@[yy * w + xx - kd]]
            0 <= yy < h && kd <= xx < w
                implies 0 <= yy * w + xx - kd < w * h && !written@[yy * w + xx - kd] by {
            lemma_grid_index(w as int, h as int, yy, xx - kd);
        }
    }

    // forward warp with z-buffer collision resolution
    let mut y: usize = 0;
    while y < h
        invariant
            y <= h,
            image.wf(),
            depth.wf(),
            depth.width > 0,
            depth.height > 0,
            w == image.width,
            h == image.height,
            0 < w <= MAX_DIM,
            0 < h <= MAX_DIM,
            right.wf(),
            right.width == w,
            right.height == h,
            written@.len() == w * h,
            zbuf@.len() == w * h,
            zero_shift == (max_disparity == 0 || depth.is_uniform(0)),
            zero_shift ==> forall|j: int| 0 <= j < 3 * (y * w) ==> right.data@[j] == image.data@[j],
            zero_shift ==> forall|k: int| 0 <= k < y * w ==> written@[k],
            zero_shift ==> forall|k: int| y * w <= k < w * h ==> !written@[k],
            uni == (depth.data@.len() > 0 && depth.is_uniform(c0)),
            kd == disparity_of(c0, max_disparity),
            0 <= kd,
            uni ==> forall|yy: int, xx: int|
                #![trigger written@[yy * w + xx - kd]]
                0 <= yy < y && kd <= xx < w ==> written@[yy * w + xx - kd],
            uni ==> forall|yy: int, xx: int, ch: int|
                #![trigger right.data@[3 * (yy * w + xx - kd) + ch]]
                0 <= yy < y && kd <= xx < w && 0 <= ch < 3
                    ==> right.data@[3 * (yy * w + xx - kd) + ch]
                        == image.data@[3 * (yy * w + xx) + ch],
            uni ==> forall|yy: int, xx: int|
                #![trigger written@[yy * w + xx - kd]]
                y <= yy < h && kd <= xx < w ==> !written@[yy * w + xx - kd],
        decreases h - y,
    {
        let mut x: usize = 0;
        while x < w
            invariant
                y < h,
                x <= w,
                image.wf(),
                depth.wf(),
                depth.width > 0,
                depth.height > 0,
                w == image.width,
                h == image.height,
                0 < w <= MAX_DIM,
                0 < h <= MAX_DIM,
                right.wf(),
                right.width == w,
                right.height == h,
                written@.len() == w * h,
                zbuf@.len() == w * h,
                zero_shift == (max_disparity == 0 || depth.is_uniform(0)),
                zero_shift ==> forall|j: int| 0 <= j < 3 * (y * w + x)
                    ==> right.data@[j] == image.data@[j],
                zero_shift ==> forall|k: int| 0 <= k < y * w + x ==> written@[k],
                zero_shift ==> forall|k: int| y * w + x <= k < w * h ==> !written@[k],
                uni == (depth.data@.len() > 0 && depth.is_uniform(c0)),
                kd == disparity_of(c0, max_disparity),
                0 <= kd,
                uni ==> forall|yy: int, xx: int|
                    #![trigger written@[yy * w + xx - kd]]
                    0 <= yy && kd <= xx < w && (yy < y || (yy == y && xx < x)) && yy < h
                        ==> written@[yy * w + xx - kd],
                uni ==> forall|yy: int, xx: int, ch: int|
                    #![trigger right.data@[3 * (yy * w + xx - kd) + ch]]
                    0 <= yy && kd <= xx < w && (yy < y || (yy == y && xx < x)) && yy < h
                        && 0 <= ch < 3
                        ==> right.data@[3 * (yy * w + xx - kd) + ch]
                            == image.data@[3 * (yy * w + xx) + ch],
                uni ==> forall|yy: int, xx: int|
                    #![trigger written@[yy * w + xx - kd]]
                    (yy > y || (yy == y && xx >= x)) && yy < h && kd <= xx < w
                        ==> !written@[yy * w + xx - kd],
            decreases w - x,
        {
            let dv = get_depth_at(depth, x, y, w, h);
            proof {
                assert(dv as u64 * max_disparity as u64 <= 10000 * 0xFFFF_FFFFu64) by (nonlinear_arith)
                    requires dv <= 10000, max_disparity <= 0xFFFF_FFFFu64;
                if zero_shift {
                    if max_disparity == 0 {
                        assert(dv as u64 * max_disparity as u64 == 0) by (nonlinear_arith)
                            requires max_disparity == 0;
                    } else {
                        assert(depth.is_uniform(0));
                        assert(dv == 0);
                        assert(dv as u64 * max_disparity as u64 == 0) by (nonlinear_arith)
                            requires dv == 0;
                    }
                    assert((0 + DEPTH_HALF as int) / DEPTH_UNIT as int == 0);
                }
                if uni {
                    assert(dv == c0);
                }
            }
            let disp = (dv as u64 * max_disparity as u64 + DEPTH_HALF as u64) / DEPTH_UNIT as u64;
            proof {
                if uni {
                    assert(disp as int == kd);
                }
            }
            if disp <= x as u64 {
                let xr = x - (disp as usize);
                proof {
                    lemma_grid_index(w as int, h as int, y as int, xr as int);
                    lemma_grid_index(w as int, h as int, y as int, x as int);
                }
                proof {
                    if uni {
                        assert(xr as int == x - kd);
                        assert(!written@[y * w + x - kd]);
                    }
                }
                let idx = y * w + xr;
                let nearer = !written[idx] || zbuf[idx] < dv;
                let ghost before = right;
                if nearer {
                    let src = image.get_px(y, x);
                    right.put_px(y, xr, src);
                    written.set(idx, true);
                    zbuf.set(idx, dv);
                }
                proof {
                    if zero_shift {
                        assert(disp == 0);
                        assert(xr == x);
                        assert(written@[y * w + x as int]);
                        assert(forall|j: int| 0 <= j < 3 * (y * w + x + 1)
                            ==> right.data@[j] == image.data@[j]) by {
                            assert(right.data@[3 * (y * w + x as int)] == image.at(y as int, x as int, 0));
                            assert(right.data@[3 * (y * w + x as int) + 1] == image.at(y as int, x as int, 1));
                            assert(right.data@[3 * (y * w + x as int) + 2] == image.at(y as int, x as int, 2));
                        }
                    }
                    if uni {
                        // this source's destination was untouched, so the write went through
                        assert(xr as int == x - kd);
                        assert(nearer);
                        assert(written@[y * w + x - kd]);
                        assert(right.data@[3 * (y * w + x - kd) + 0] == image.data@[3 * (y * w + x) + 0]);
                        assert(right.data@[3 * (y * w + x - kd) + 1] == image.data@[3 * (y * w + x) + 1]);
                        assert(right.data@[3 * (y * w + x - kd) + 2] == image.data@[3 * (y * w + x) + 2]);
                        // every other destination is a different, in-range cell
                        assert forall|yy: int, xx: int|
                            #![trigger written@[yy * w + xx - kd]]
                            0 <= yy < h && kd <= xx < w && (yy != y || xx != x)
                                implies 0 <= yy * w + xx - kd < w * h
                                    && yy * w + xx - kd != y * w + x - kd by {
                            lemma_grid_index(w as int, h as int, yy, xx - kd);
                            lemma_rowmajor_injective(w as int, yy, xx - kd, y as int, x - kd);
                        }
                        // earlier destinations keep their bytes
                        assert forall|yy: int, xx: int, ch: int|
                            #![trigger right.data@[3 * (yy * w + xx - kd) + ch]]
                            0 <= yy && kd <= xx < w && (yy < y || (yy == y && xx < x)) && yy < h
                                && 0 <= ch < 3
                                implies right.data@[3 * (yy * w + xx - kd) + ch]
                                    == image.data@[3 * (yy * w + xx) + ch] by {
                            lemma_grid_index(w as int, h as int, yy, xx - kd);
                            lemma_rowmajor_injective(w as int, yy, xx - kd, y as int, x - kd);
                            assert(before.data@[3 * (yy * w + xx - kd) + ch]
                                == image.data@[3 * (yy * w + xx) + ch]);
                            assert(right.data@[3 * (yy * w + xx - kd) + ch]
                                == before.data@[3 * (yy * w + xx - kd) + ch]);
                        }
                    }
                }
            }
            x += 1;
        }
        proof {
            assert(y * w + w == (y + 1) * w) by (nonlinear_arith);
            assert(3 * (y * w + w) == 3 * ((y + 1) * w)) by (nonlinear_arith);
        }
        y += 1;
    }

    // fill disocclusion holes from the nearest written pixel in the row
    proof {
        if zero_shift {
            assert(forall|k: int| 0 <= k < w * h ==> written@[k]) by {
                assert(y == h);
                assert(h * w == w * h) by (nonlinear_arith);
            }
        }
    }
    let ghost right_warped = right;
    fill_disocclusions(&mut right, &written);
    proof {
        if zero_shift {
            assert(right.data@ == right_warped.data@);
            assert(right.data@ =~= image.data@) by {
                assert(3 * (h * w) == 3 * (w * h)) by (nonlinear_arith);
                assert(forall|j: int| 0 <= j < 3 * (w * h)
                    ==> right_warped.data@[j] == image.data@[j]);
            }
        }
        assert forall|c: u32, yy: int, xd: int, ch: int|
            depth.is_uniform(c) && depth.data@.len() > 0
                && 0 <= yy < h && 0 <= ch < 3
                && 0 <= xd && xd + disparity_of(c, max_disparity) < w
                implies right.at(yy, xd, ch)
                    == image.at(yy, xd + disparity_of(c, max_disparity), ch) by {
            assert(depth.data@[0] == c);
            assert(c == c0);
            assert(uni);
            let xx = xd + kd;
            lemma_grid_index(w as int, h as int, yy, xd);
            assert(written@[yy * w + xx - kd]);
            assert(right_warped.data@[3 * (yy * w + xx - kd) + ch]
                == image.data@[3 * (yy * w + xx) + ch]);
            assert(right.data@[3 * (yy * w + xd)] == right_warped.data@[3 * (yy * w + xd)]);
            assert(right.data@[3 * (yy * w + xd) + 1] == right_warped.data@[3 * (yy * w + xd) + 1]);
            assert(right.data@[3 * (yy * w + xd) + 2] == right_warped.data@[3 * (yy * w + xd) + 2]);
        }
    }
    Ok((left, right))
}

} // verus!
