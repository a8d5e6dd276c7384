use vstd::prelude::*;
use vstd::arithmetic::div_mod::{
    lemma_div_by_multiple, lemma_fundamental_div_mod, lemma_mod_bound,
};

use crate::bitmap::{lemma_index_in_range, lemma_row_major, Bitmap};
use crate::display::{resample, DisplayCapture, VirtualImage, VirtualImageSize};
use crate::errors::CaptureError;
use crate::pixel::{transparent, Rgba};

verus! {

/// The least display origin x coordinate.
pub open spec fn min_ox(ds: Seq<DisplayCapture>) -> int
    decreases ds.len(),
{
    if ds.len() <= 1 {
        if ds.len() == 1 {
            ds[0].origin.0 as int
        } else {
            0
        }
    } else {
        let rest = min_ox(ds.drop_last());
        let last = ds.last().origin.0 as int;
        if last < rest {
            last
        } else {
            rest
        }
    }
}

/// The least display origin y coordinate.
pub open spec fn min_oy(ds: Seq<DisplayCapture>) -> int
    decreases ds.len(),
{
    if ds.len() <= 1 {
        if ds.len() == 1 {
            ds[0].origin.1 as int
        } else {
            0
        }
    } else {
        let rest = min_oy(ds.drop_last());
        let last = ds.last().origin.1 as int;
        if last < rest {
            last
        } else {
            rest
        }
    }
}

/// The greatest display right edge, `origin.x + size.width`.
pub open spec fn max_rx(ds: Seq<DisplayCapture>) -> int
    decreases ds.len(),
{
    if ds.len() <= 1 {
        if ds.len() == 1 {
            ds[0].origin.0 + ds[0].size.0
        } else {
            0
        }
    } else {
        let rest = max_rx(ds.drop_last());
        let last = ds.last().origin.0 + ds.last().size.0;
        if last > rest {
            last
        } else {
            rest
        }
    }
}

/// The greatest display bottom edge, `origin.y + size.height`.
pub open spec fn max_by(ds: Seq<DisplayCapture>) -> int
    decreases ds.len(),
{
    if ds.len() <= 1 {
        if ds.len() == 1 {
            ds[0].origin.1 + ds[0].size.1
        } else {
            0
        }
    } else {
        let rest = max_by(ds.drop_last());
        let last = ds.last().origin.1 + ds.last().size.1;
        if last > rest {
            last
        } else {
            rest
        }
    }
}

/// The tight bounding box of the displays is representable in the `u32`
/// canvas size type.
pub open spec fn fits(ds: Seq<DisplayCapture>) -> bool {
    max_rx(ds) - min_ox(ds) <= u32::MAX && max_by(ds) - min_oy(ds) <= u32::MAX
}

/// The display's logical rectangle contains the virtual coordinate
/// `(vx, vy)`.
pub open spec fn covers(d: DisplayCapture, vx: int, vy: int) -> bool {
    d.origin.0 <= vx < d.origin.0 + d.size.0 && d.origin.1 <= vy < d.origin.1 + d.size.1
}

/// The canvas pixel at virtual coordinate `(vx, vy)` once the displays of
/// `ds` have been composited in order: the pixel of the last display in
/// `ds` that covers the coordinate — the documented policy for overlapping
/// displays — resampled to the display's logical grid, and the transparent
/// background where no display covers it.
pub open spec fn composed_pixel(ds: Seq<DisplayCapture>, vx: int, vy: int) -> Rgba
    decreases ds.len(),
{
    if ds.len() == 0 {
        transparent()
    } else if covers(ds.last(), vx, vy) {
        resample(ds.last(), vx - ds.last().origin.0, vy - ds.last().origin.1)
    } else {
        composed_pixel(ds.drop_last(), vx, vy)
    }
}

/// The row-major pixel data of the canvas composited from `ds`.
pub open spec fn canvas_pixels(ds: Seq<DisplayCapture>) -> Seq<Rgba> {
    let w = max_rx(ds) - min_ox(ds);
    let h = max_by(ds) - min_oy(ds);
    Seq::new((w * h) as nat, |i: int| composed_pixel(ds, min_ox(ds) + i % w, min_oy(ds) + i / w))
}

/// Every display lies within the extent spanned by the four bounds.
pub proof fn lemma_extent_bounds(ds: Seq<DisplayCapture>)
    ensures
        forall|i: int|
            0 <= i < ds.len() ==> min_ox(ds) <= (#[trigger] ds[i]).origin.0 && min_oy(ds)
                <= ds[i].origin.1 && ds[i].origin.0 + ds[i].size.0 <= max_rx(ds) && ds[i].origin.1
                + ds[i].size.1 <= max_by(ds),
    decreases ds.len(),
{
    if ds.len() > 1 {
        lemma_extent_bounds(ds.drop_last());
        assert forall|i: int|
            0 <= i < ds.len() implies min_ox(ds) <= (#[trigger] ds[i]).origin.0 && min_oy(ds)
            <= ds[i].origin.1 && ds[i].origin.0 + ds[i].size.0 <= max_rx(ds) && ds[i].origin.1
            + ds[i].size.1 <= max_by(ds) by {
            if i < ds.len() - 1 {
                assert(ds.drop_last()[i] == ds[i]);
            } else {
                assert(ds.last() == ds[i]);
            }
        }
    }
}

/// Each of the four bounds is attained by some display.
pub proof fn lemma_extent_witnesses(ds: Seq<DisplayCapture>)
    requires
        ds.len() > 0,
    ensures
        exists|i: int| 0 <= i < ds.len() && (#[trigger] ds[i]).origin.0 == min_ox(ds),
        exists|i: int| 0 <= i < ds.len() && (#[trigger] ds[i]).origin.1 == min_oy(ds),
        exists|i: int| 0 <= i < ds.len() && (#[trigger] ds[i]).origin.0 + ds[i].size.0 == max_rx(
            ds,
        ),
        exists|i: int| 0 <= i < ds.len() && (#[trigger] ds[i]).origin.1 + ds[i].size.1 == max_by(
            ds,
        ),
    decreases ds.len(),
{
    if ds.len() == 1 {
        assert(ds[0].origin.0 == min_ox(ds));
        assert(ds[0].origin.1 == min_oy(ds));
        assert(ds[0].origin.0 + ds[0].size.0 == max_rx(ds));
        assert(ds[0].origin.1 + ds[0].size.1 == max_by(ds));
    } else {
        lemma_extent_witnesses(ds.drop_last());
        let last = ds.len() - 1;
        if min_ox(ds) == ds.last().origin.0 {
            assert(ds[last].origin.0 == min_ox(ds));
        } else {
            let j = choose|j: int|
                0 <= j < ds.drop_last().len() && (#[trigger] ds.drop_last()[j]).origin.0 == min_ox(
                    ds.drop_last(),
                );
            assert(ds[j].origin.0 == min_ox(ds));
        }
        if min_oy(ds) == ds.last().origin.1 {
            assert(ds[last].origin.1 == min_oy(ds));
        } else {
            let j = choose|j: int|
                0 <= j < ds.drop_last().len() && (#[trigger] ds.drop_last()[j]).origin.1 == min_oy(
                    ds.drop_last(),
                );
            assert(ds[j].origin.1 == min_oy(ds));
        }
        if max_rx(ds) == ds.last().origin.0 + ds.last().size.0 {
            assert(ds[last].origin.0 + ds[last].size.0 == max_rx(ds));
        } else {
            let j = choose|j: int|
                0 <= j < ds.drop_last().len() && (#[trigger] ds.drop_last()[j]).origin.0
                    + ds.drop_last()[j].size.0 == max_rx(ds.drop_last());
            assert(ds[j].origin.0 + ds[j].size.0 == max_rx(ds));
        }
        if max_by(ds) == ds.last().origin.1 + ds.last().size.1 {
            assert(ds[last].origin.1 + ds[last].size.1 == max_by(ds));
        } else {
            let j = choose|j: int|
                0 <= j < ds.drop_last().len() && (#[trigger] ds.drop_last()[j]).origin.1
                    + ds.drop_last()[j].size.1 == max_by(ds.drop_last());
            assert(ds[j].origin.1 + ds[j].size.1 == max_by(ds));
        }
    }
}

/// Two display sequences with the same origins and sizes span the same
/// canvas bounds.
pub proof fn lemma_extents_congruent(ds: Seq<DisplayCapture>, ns: Seq<DisplayCapture>)
    requires
        ns.len() == ds.len(),
        forall|i: int|
            0 <= i < ds.len() ==> (#[trigger] ns[i]).origin == ds[i].origin && ns[i].size
                == ds[i].size,
    ensures
        min_ox(ns) == min_ox(ds),
        min_oy(ns) == min_oy(ds),
        max_rx(ns) == max_rx(ds),
        max_by(ns) == max_by(ds),
    decreases ds.len(),
{
    if ds.len() > 1 {
        assert forall|i: int|
            0 <= i < ds.drop_last().len() implies (#[trigger] ns.drop_last()[i]).origin
            == ds.drop_last()[i].origin && ns.drop_last()[i].size == ds.drop_last()[i].size by {
            assert(ns.drop_last()[i] == ns[i]);
            assert(ds.drop_last()[i] == ds[i]);
        }
        lemma_extents_congruent(ds.drop_last(), ns.drop_last());
        assert(ns.last() == ns[ds.len() - 1]);
        assert(ds.last() == ds[ds.len() - 1]);
    }
}

/// Two display sequences with the same origins and sizes, whose displays
/// resample to the same pixels over their logical grids, compose to the
/// same pixel at every virtual coordinate.
pub proof fn lemma_composed_congruent(
    ds: Seq<DisplayCapture>,
    ns: Seq<DisplayCapture>,
    vx: int,
    vy: int,
)
    requires
        ns.len() == ds.len(),
        forall|i: int|
            0 <= i < ds.len() ==> (#[trigger] ns[i]).origin == ds[i].origin && ns[i].size
                == ds[i].size,
        forall|i: int, lx: int, ly: int|
            0 <= i < ds.len() && 0 <= lx < ds[i].size.0 && 0 <= ly < ds[i].size.1 ==> #[trigger] resample(
                ns[i],
                lx,
                ly,
            ) == resample(ds[i], lx, ly),
    ensures
        composed_pixel(ns, vx, vy) == composed_pixel(ds, vx, vy),
    decreases ds.len(),
{
    if ds.len() > 0 {
        let last = ds.len() - 1;
        assert(ns.last() == ns[last]);
        assert(ds.last() == ds[last]);
        if covers(ds.last(), vx, vy) {
            let lx = vx - ds[last].origin.0;
            let ly = vy - ds[last].origin.1;
            assert(resample(ns[last], lx, ly) == resample(ds[last], lx, ly));
        } else {
            assert forall|i: int|
                0 <= i < ds.drop_last().len() implies (#[trigger] ns.drop_last()[i]).origin
                == ds.drop_last()[i].origin && ns.drop_last()[i].size
                == ds.drop_last()[i].size by {
                assert(ns.drop_last()[i] == ns[i]);
                assert(ds.drop_last()[i] == ds[i]);
            }
            assert forall|i: int, lx: int, ly: int|
                0 <= i < ds.drop_last().len() && 0 <= lx < ds.drop_last()[i].size.0 && 0 <= ly
                    < ds.drop_last()[i].size.1 implies #[trigger] resample(
                ns.drop_last()[i],
                lx,
                ly,
            ) == resample(ds.drop_last()[i], lx, ly) by {
                assert(ns.drop_last()[i] == ns[i]);
                assert(ds.drop_last()[i] == ds[i]);
                assert(resample(ns[i], lx, ly) == resample(ds[i], lx, ly));
            }
            lemma_composed_congruent(ds.drop_last(), ns.drop_last(), vx, vy);
        }
    }
}

/// Computes the placement of the virtual canvas: the component-wise minimum
/// of the display origins, and the size of the tight bounding box covering
/// every display rectangle. Fails exactly on an empty display collection.
pub fn get_whole_size(monitor_infos: &Vec<DisplayCapture>) -> (r: Result<
    VirtualImageSize,
    CaptureError,
>)
    requires
        fits(monitor_infos@),
    ensures
        monitor_infos@.len() == 0 <==> r == Err::<VirtualImageSize, CaptureError>(
            CaptureError::EmptyDisplaySet,
        ),
        r is Ok <==> monitor_infos@.len() > 0,
        r matches Ok(v) ==> v.xy.0 == min_ox(monitor_infos@) && v.xy.1 == min_oy(monitor_infos@)
            && v.wh.0 == max_rx(monitor_infos@) - min_ox(monitor_infos@) && v.wh.1 == max_by(
            monitor_infos@,
        ) - min_oy(monitor_infos@),
{
    let ghost ds = monitor_infos@;
    let n = monitor_infos.len();
    if n == 0 {
        return Err(CaptureError::EmptyDisplaySet);
    }
    let mut min_x: i32 = monitor_infos[0].origin.0;
    let mut min_y: i32 = monitor_infos[0].origin.1;
    let mut max_r: i64 = (monitor_infos[0].origin.0 as i64) + (monitor_infos[0].size.0 as i64);
    let mut max_b: i64 = (monitor_infos[0].origin.1 as i64) + (monitor_infos[0].size.1 as i64);
    let mut i: usize = 1;
    while i < n
        invariant
            1 <= i <= n,
            n == ds.len(),
            ds == monitor_infos@,
            min_x == min_ox(ds.take(i as int)),
            min_y == min_oy(ds.take(i as int)),
            max_r == max_rx(ds.take(i as int)),
            max_b == max_by(ds.take(i as int)),
        decreases n - i,
    {
        proof {
            assert(ds.take(i + 1).drop_last() =~= ds.take(i as int));
            assert(ds.take(i + 1).last() == ds[i as int]);
        }
        let ox: i32 = monitor_infos[i].origin.0;
        let oy: i32 = monitor_infos[i].origin.1;
        if ox < min_x {
            min_x = ox;
        }
        if oy < min_y {
            min_y = oy;
        }
        let right: i64 = (ox as i64) + (monitor_infos[i].size.0 as i64);
        let bottom: i64 = (oy as i64) + (monitor_infos[i].size.1 as i64);
        if right > max_r {
            max_r = right;
        }
        if bottom > max_b {
            max_b = bottom;
        }
        i = i + 1;
    }
    proof {
        assert(ds.take(n as int) =~= ds);
        lemma_extent_bounds(ds);
        assert(min_ox(ds) <= ds[0].origin.0);
        assert(ds[0].origin.0 + ds[0].size.0 <= max_rx(ds));
        assert(min_oy(ds) <= ds[0].origin.1);
        assert(ds[0].origin.1 + ds[0].size.1 <= max_by(ds));
    }
    let w: u32 = (max_r - (min_x as i64)) as u32;
    let h: u32 = (max_b - (min_y as i64)) as u32;
    Ok(VirtualImageSize { xy: (min_x, min_y), wh: (w, h) })
}

/// The scale normalizer: resamples a captured bitmap to exactly the
/// display's reported logical size by nearest-neighbor sampling, so that
/// the compositor never sees a physical/logical size mismatch. A capture
/// that already matches its logical size comes back pixel-identical.
pub fn process_image(monitor_info: &DisplayCapture) -> (r: DisplayCapture)
    requires
        monitor_info.wf(),
        monitor_info.positive(),
        (monitor_info.size.0 * monitor_info.size.1) as int <= usize::MAX,
    ensures
        r.origin == monitor_info.origin,
        r.size == monitor_info.size,
        r.wf(),
        r.normalized(),
        r.positive(),
        forall|lx: int, ly: int|
            0 <= lx < r.size.0 && 0 <= ly < r.size.1 ==> #[trigger] r.pixels.pix(lx, ly)
                == resample(*monitor_info, lx, ly),
        monitor_info.normalized() ==> r.pixels.data@ == monitor_info.pixels.data@,
{
    let dw: usize = monitor_info.size.0 as usize;
    let dh: usize = monitor_info.size.1 as usize;
    let sw: usize = monitor_info.pixels.width as usize;
    let sh: usize = monitor_info.pixels.height as usize;
    let n: usize = dw * dh;
    let total: usize = monitor_info.pixels.data.len();
    proof {
        assert(total == sw * sh);
    }
    let mut data: Vec<Rgba> = Vec::new();
    let mut i: usize = 0;
    while i < n
        invariant
            i <= n,
            n == dw * dh,
            sw * sh <= usize::MAX,
            0 < dw,
            0 < dh,
            0 < sw,
            0 < sh,
            dw == monitor_info.size.0,
            dh == monitor_info.size.1,
            sw == monitor_info.pixels.width,
            sh == monitor_info.pixels.height,
            monitor_info.wf(),
            data@.len() == i,
            forall|j: int|
                0 <= j < i ==> data@[j] == resample(*monitor_info, j % (dw as int), j / (
                dw as int)),
        decreases n - i,
    {
        let px: usize = i % dw;
        let py: usize = i / dw;
        proof {
            lemma_mod_bound(i as int, dw as int);
            lemma_fundamental_div_mod(i as int, dw as int);
            crate::bitmap::lemma_div_bound(i as int, dw as int, dh as int);
            assert((px as int) * (sw as int) < (dw as int) * (sw as int) && 0 <= (px as int) * (
            sw as int) && (px as int) * (sw as int) <= 0xffff_fffe * 0xffff_ffff) by (
            nonlinear_arith)
                requires
                    0 <= (px as int) < (dw as int),
                    0 < sw,
                    dw <= 0xffff_ffff,
                    sw <= 0xffff_ffff,
            ;
            crate::bitmap::lemma_div_bound(
                (px as int) * (sw as int),
                dw as int,
                sw as int,
            );
            assert((py as int) * (sh as int) < (dh as int) * (sh as int) && 0 <= (py as int) * (
            sh as int) && (py as int) * (sh as int) <= 0xffff_fffe * 0xffff_ffff) by (
            nonlinear_arith)
                requires
                    0 <= (py as int) < (dh as int),
                    0 < sh,
                    dh <= 0xffff_ffff,
                    sh <= 0xffff_ffff,
            ;
            crate::bitmap::lemma_div_bound(
                (py as int) * (sh as int),
                dh as int,
                sh as int,
            );
        }
        let sx: usize = ((px as u64) * (sw as u64) / (dw as u64)) as usize;
        let sy: usize = ((py as u64) * (sh as u64) / (dh as u64)) as usize;
        proof {
            lemma_index_in_range(sx as int, sy as int, sw as int, sh as int);
            assert((sy as int) * (sw as int) + (sx as int) < (sw as int) * (sh as int) && (
            sy as int) * (sw as int) <= (sw as int) * (sh as int)) by (nonlinear_arith)
                requires
                    0 <= (sx as int) < (sw as int),
                    0 <= (sy as int) < (sh as int),
            ;
        }
        let idx: usize = sy * sw + sx;
        data.push(monitor_info.pixels.data[idx]);
        i = i + 1;
    }
    let r = DisplayCapture {
        origin: monitor_info.origin,
        size: monitor_info.size,
        pixels: Bitmap { width: monitor_info.size.0, height: monitor_info.size.1, data },
    };
    proof {
        assert forall|lx: int, ly: int|
            0 <= lx < r.size.0 && 0 <= ly < r.size.1 implies #[trigger] r.pixels.pix(lx, ly)
            == resample(*monitor_info, lx, ly) by {
            let j = ly * (dw as int) + lx;
            lemma_row_major(lx, ly, dw as int);
            lemma_index_in_range(lx, ly, dw as int, dh as int);
            assert(r.pixels.pix(lx, ly) == r.pixels.data@[j]);
        }
        if monitor_info.normalized() {
            assert forall|j: int| 0 <= j < r.pixels.data@.len() implies r.pixels.data@[j]
                == monitor_info.pixels.data@[j] by {
                lemma_mod_bound(j, dw as int);
                lemma_fundamental_div_mod(j, dw as int);
                crate::bitmap::lemma_div_bound(j, dw as int, dh as int);
                let lx = j % (dw as int);
                let ly = j / (dw as int);
                lemma_div_by_multiple(lx, dw as int);
                lemma_div_by_multiple(ly, dh as int);
                assert(resample(*monitor_info, lx, ly) == monitor_info.pixels.data@[ly * (
                dw as int) + lx]);
                assert(ly * (dw as int) + lx == j);
            }
            assert(r.pixels.data@ =~= monitor_info.pixels.data@);
        }
    }
    r
}

/// The canvas compositor: allocates a transparent canvas spanning the
/// tight bounding box of the normalized displays and overlays each
/// display's pixels at its offset from the canvas origin, in order, by
/// direct overwrite — so the last display wins wherever displays overlap.
/// Fails exactly on an empty display collection.
pub fn merge_images(monitor_infos: &Vec<DisplayCapture>) -> (r: Result<VirtualImage, CaptureError>)
    requires
        forall|i: int|
            0 <= i < monitor_infos@.len() ==> (#[trigger] monitor_infos@[i]).wf()
                && monitor_infos@[i].normalized(),
        fits(monitor_infos@),
        (max_rx(monitor_infos@) - min_ox(monitor_infos@)) * (max_by(monitor_infos@) - min_oy(
            monitor_infos@,
        )) <= usize::MAX,
    ensures
        monitor_infos@.len() == 0 <==> r == Err::<VirtualImage, CaptureError>(
            CaptureError::EmptyDisplaySet,
        ),
        r is Ok <==> monitor_infos@.len() > 0,
        r matches Ok(v) ==> v.xy.0 == min_ox(monitor_infos@) && v.xy.1 == min_oy(monitor_infos@)
            && v.wh.0 == max_rx(monitor_infos@) - min_ox(monitor_infos@) && v.wh.1 == max_by(
            monitor_infos@,
        ) - min_oy(monitor_infos@) && v.image.wf() && v.image.width == v.wh.0 && v.image.height
            == v.wh.1 && v.image.data@ == canvas_pixels(monitor_infos@) && (forall|
            cx: int,
            cy: int,
        |
            0 <= cx < v.wh.0 && 0 <= cy < v.wh.1 ==> #[trigger] v.image.pix(cx, cy)
                == composed_pixel(monitor_infos@, min_ox(monitor_infos@) + cx, min_oy(
                monitor_infos@,
            ) + cy)),
{
    let ghost ds = monitor_infos@;
    let vs = match get_whole_size(monitor_infos) {
        Ok(v) => v,
        Err(e) => {
            return Err(e);
        },
    };
    let cw: u32 = vs.wh.0;
    let ch: u32 = vs.wh.1;
    let mut canvas = Bitmap::filled(cw, ch, Rgba::transparent_pixel());
    let n = monitor_infos.len();
    let mut k: usize = 0;
    while k < n
        invariant
            k <= n,
            n == ds.len(),
            n > 0,
            ds == monitor_infos@,
            forall|i: int| 0 <= i < n ==> (#[trigger] ds[i]).wf() && ds[i].normalized(),
            vs.xy.0 == min_ox(ds),
            vs.xy.1 == min_oy(ds),
            cw == max_rx(ds) - min_ox(ds),
            ch == max_by(ds) - min_oy(ds),
            (cw as int) * (ch as int) <= usize::MAX,
            canvas.wf(),
            canvas.width == cw,
            canvas.height == ch,
            forall|ci: int|
                0 <= ci < (cw as int) * (ch as int) ==> #[trigger] canvas.data@[ci]
                    == composed_pixel(
                    ds.take(k as int),
                    min_ox(ds) + ci % (cw as int),
                    min_oy(ds) + ci / (cw as int),
                ),
        decreases n - k,
    {
        let ghost cwi = cw as int;
        let ghost chi = ch as int;
        proof {
            lemma_extent_bounds(ds);
            assert(ds[k as int].wf() && ds[k as int].normalized());
        }
        let dox: i32 = monitor_infos[k].origin.0;
        let doy: i32 = monitor_infos[k].origin.1;
        let dx: usize = ((dox as i64) - (vs.xy.0 as i64)) as usize;
        let dy: usize = ((doy as i64) - (vs.xy.1 as i64)) as usize;
        let dw: usize = monitor_infos[k].size.0 as usize;
        let dh: usize = monitor_infos[k].size.1 as usize;
        let m: usize = monitor_infos[k].pixels.data.len();
        proof {
            assert(m == dw * dh);
        }
        let mut i: usize = 0;
        while i < m
            invariant
                i <= m,
                k < n,
                n == ds.len(),
                ds == monitor_infos@,
                forall|q: int| 0 <= q < n ==> (#[trigger] ds[q]).wf() && ds[q].normalized(),
                m == dw * dh,
                dw == ds[k as int].size.0,
                dh == ds[k as int].size.1,
                dx == ds[k as int].origin.0 - min_ox(ds),
                dy == ds[k as int].origin.1 - min_oy(ds),
                dx + dw <= cw,
                dy + dh <= ch,
                vs.xy.0 == min_ox(ds),
                vs.xy.1 == min_oy(ds),
                cw == max_rx(ds) - min_ox(ds),
                ch == max_by(ds) - min_oy(ds),
                (cw as int) * (ch as int) <= usize::MAX,
                canvas.wf(),
                canvas.width == cw,
                canvas.height == ch,
                forall|ci: int|
                    0 <= ci < (cw as int) * (ch as int) ==> #[trigger] canvas.data@[ci] == ({
                        let lx = min_ox(ds) + ci % (cw as int) - ds[k as int].origin.0;
                        let ly = min_oy(ds) + ci / (cw as int) - ds[k as int].origin.1;
                        if 0 <= lx < dw && 0 <= ly < dh && ly * (dw as int) + lx < i {
                            ds[k as int].pixels.data@[ly * (dw as int) + lx]
                        } else {
                            composed_pixel(
                                ds.take(k as int),
                                min_ox(ds) + ci % (cw as int),
                                min_oy(ds) + ci / (cw as int),
                            )
                        }
                    }),
            decreases m - i,
        {
            let ghost cwi = cw as int;
            let ghost chi = ch as int;
            let ghost dwi = dw as int;
            let ghost dhi = dh as int;
            let sx: usize = i % dw;
            let sy: usize = i / dw;
            proof {
                lemma_mod_bound(i as int, dwi);
                lemma_fundamental_div_mod(i as int, dwi);
                crate::bitmap::lemma_div_bound(i as int, dwi, dhi);
                lemma_index_in_range(dx + sx, dy + sy, cwi, chi);
                assert(((dy + sy) as int) * cwi + ((dx + sx) as int) < cwi * chi && ((dy
                    + sy) as int) * cwi <= cwi * chi) by (nonlinear_arith)
                    requires
                        0 <= ((dx + sx) as int) < cwi,
                        0 <= ((dy + sy) as int) < chi,
                ;
                assert(cwi * chi <= usize::MAX);
            }
            let ci: usize = (dy + sy) * (cw as usize) + (dx + sx);
            let px: Rgba = monitor_infos[k].pixels.data[i];
            let ghost old_canvas = canvas.data@;
            canvas.data[ci] = px;
            proof {
                lemma_row_major((dx + sx) as int, (dy + sy) as int, cwi);
                assert forall|cj: int| 0 <= cj < cwi * chi implies #[trigger] canvas.data@[cj] == ({
                    let lx = min_ox(ds) + cj % cwi - ds[k as int].origin.0;
                    let ly = min_oy(ds) + cj / cwi - ds[k as int].origin.1;
                    if 0 <= lx < dwi && 0 <= ly < dhi && ly * dwi + lx < i + 1 {
                        ds[k as int].pixels.data@[ly * dwi + lx]
                    } else {
                        composed_pixel(ds.take(k as int), min_ox(ds) + cj % cwi, min_oy(ds) + cj
                            / cwi)
                    }
                }) by {
                    lemma_mod_bound(cj, cwi);
                    lemma_fundamental_div_mod(cj, cwi);
                    crate::bitmap::lemma_div_bound(cj, cwi, chi);
                    let lx = min_ox(ds) + cj % cwi - ds[k as int].origin.0;
                    let ly = min_oy(ds) + cj / cwi - ds[k as int].origin.1;
                    if cj == ci {
                        assert(cj % cwi == (dx + sx) as int && cj / cwi == (dy + sy) as int);
                        assert(lx == sx as int && ly == sy as int);
                        lemma_fundamental_div_mod(i as int, dwi);
                        assert(i as int == dwi * ((i as int) / dwi) + (i as int) % dwi);
                        assert(sx as int == (i as int) % dwi);
                        assert(sy as int == (i as int) / dwi);
                        assert(i as int == dwi * (sy as int) + (sx as int));
                        assert(ly * dwi + lx == i) by (nonlinear_arith)
                            requires
                                ly == sy as int,
                                lx == sx as int,
                                i as int == dwi * (sy as int) + (sx as int),
                        ;
                        assert(canvas.data@[cj] == px);
                    } else {
                        assert(canvas.data@[cj] == old_canvas[cj]);
                        if 0 <= lx < dwi && 0 <= ly < dhi && ly * dwi + lx == i {
                            lemma_row_major(lx, ly, dwi);
                            assert(lx == sx as int && ly == sy as int);
                            assert(cj % cwi == (dx + sx) as int && cj / cwi == (dy + sy) as int);
                            assert(cj == cwi * (cj / cwi) + cj % cwi);
                            assert(cj == cwi * ((dy + sy) as int) + ((dx + sx) as int));
                            assert(ci == ((dy + sy) as int) * cwi + ((dx + sx) as int));
                            assert(false);
                        }
                    }
                }
            }
            i = i + 1;
        }
        proof {
            let ghost cwi = cw as int;
            let ghost chi = ch as int;
            let ghost dwi = dw as int;
            let ghost dhi = dh as int;
            let dk = ds[k as int];
            assert(ds.take(k + 1).last() == dk);
            assert(ds.take(k + 1).drop_last() =~= ds.take(k as int));
            assert forall|ci: int| 0 <= ci < cwi * chi implies #[trigger] canvas.data@[ci]
                == composed_pixel(
                ds.take(k + 1),
                min_ox(ds) + ci % cwi,
                min_oy(ds) + ci / cwi,
            ) by {
                lemma_mod_bound(ci, cwi);
                lemma_fundamental_div_mod(ci, cwi);
                crate::bitmap::lemma_div_bound(ci, cwi, chi);
                let vx = min_ox(ds) + ci % cwi;
                let vy = min_oy(ds) + ci / cwi;
                let lx = vx - dk.origin.0;
                let ly = vy - dk.origin.1;
                if covers(dk, vx, vy) {
                    lemma_index_in_range(lx, ly, dwi, dhi);
                    lemma_div_by_multiple(lx, dwi);
                    lemma_div_by_multiple(ly, dhi);
                    assert(resample(dk, lx, ly) == dk.pixels.data@[ly * dwi + lx]);
                }
            }
        }
        k = k + 1;
    }
    proof {
        assert(ds.take(n as int) =~= ds);
        assert(canvas.data@ =~= canvas_pixels(ds));
        assert forall|cx: int, cy: int| 0 <= cx < cw && 0 <= cy < ch implies #[trigger] canvas.pix(
            cx,
            cy,
        ) == composed_pixel(ds, min_ox(ds) + cx, min_oy(ds) + cy) by {
            lemma_row_major(cx, cy, cw as int);
            lemma_index_in_range(cx, cy, cw as int, ch as int);
            assert(canvas.pix(cx, cy) == canvas.data@[cy * (cw as int) + cx]);
        }
    }
    Ok(VirtualImage { xy: vs.xy, wh: vs.wh, image: canvas })
}

} // verus!
