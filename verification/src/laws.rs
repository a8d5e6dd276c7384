use vstd::prelude::*;
use vstd::arithmetic::div_mod::{
    lemma_div_by_multiple, lemma_fundamental_div_mod, lemma_mod_bound,
};

use crate::bitmap::{lemma_div_bound, lemma_index_in_range, lemma_row_major};
use crate::display::{resample, DisplayCapture};
use crate::pixel::{transparent, Rgba};
use crate::screenshot::{
    canvas_pixels, composed_pixel, covers, max_by, max_rx, min_ox, min_oy,
};

verus! {

/// The logical rectangles of two displays share no virtual coordinate.
pub open spec fn disjoint(a: DisplayCapture, b: DisplayCapture) -> bool {
    a.origin.0 + a.size.0 <= b.origin.0 || b.origin.0 + b.size.0 <= a.origin.0 || a.origin.1
        + a.size.1 <= b.origin.1 || b.origin.1 + b.size.1 <= a.origin.1
}

/// No two distinct displays of the collection overlap.
pub open spec fn pairwise_disjoint(ds: Seq<DisplayCapture>) -> bool {
    forall|i: int, j: int|
        0 <= i < ds.len() && 0 <= j < ds.len() && i != j ==> disjoint(
            #[trigger] ds[i],
            #[trigger] ds[j],
        )
}

/// Identity composition: a single normalized display at the origin
/// composes to a canvas that is that display's bitmap exactly, with the
/// display's own placement.
pub proof fn lemma_identity_composition(d: DisplayCapture)
    requires
        d.wf(),
        d.normalized(),
        d.positive(),
        d.origin.0 == 0,
        d.origin.1 == 0,
    ensures
        min_ox(seq![d]) == 0,
        min_oy(seq![d]) == 0,
        max_rx(seq![d]) == d.size.0,
        max_by(seq![d]) == d.size.1,
        forall|x: int, y: int|
            0 <= x < d.size.0 && 0 <= y < d.size.1 ==> #[trigger] composed_pixel(seq![d], x, y)
                == d.pixels.pix(x, y),
        canvas_pixels(seq![d]) == d.pixels.data@,
{
    let ds = seq![d];
    assert(ds.len() == 1);
    assert(ds[0] == d);
    assert(ds.last() == d);
    let w = d.size.0 as int;
    let h = d.size.1 as int;
    assert forall|x: int, y: int|
        0 <= x < d.size.0 && 0 <= y < d.size.1 implies #[trigger] composed_pixel(ds, x, y)
        == d.pixels.pix(x, y) by {
        assert(covers(d, x, y));
        lemma_div_by_multiple(x, w);
        lemma_div_by_multiple(y, h);
        assert(resample(d, x, y) == d.pixels.pix(x, y));
    }
    assert forall|ci: int| 0 <= ci < canvas_pixels(ds).len() implies canvas_pixels(ds)[ci]
        == d.pixels.data@[ci] by {
        lemma_mod_bound(ci, w);
        lemma_fundamental_div_mod(ci, w);
        lemma_div_bound(ci, w, h);
        let cx = ci % w;
        let cy = ci / w;
        assert(composed_pixel(ds, cx, cy) == d.pixels.pix(cx, cy));
        assert(d.pixels.pix(cx, cy) == d.pixels.data@[cy * w + cx]);
        assert(cy * w + cx == ci) by (nonlinear_arith)
            requires
                ci == w * cy + cx,
        ;
    }
    assert(canvas_pixels(ds) =~= d.pixels.data@);
}

/// In a pairwise non-overlapping collection the covering display decides
/// the composed pixel, whichever position it holds; where none covers the
/// coordinate the composed pixel is the transparent background.
pub proof fn lemma_composed_coverer(ds: Seq<DisplayCapture>, vx: int, vy: int)
    requires
        pairwise_disjoint(ds),
    ensures
        forall|i: int|
            0 <= i < ds.len() && covers(#[trigger] ds[i], vx, vy) ==> composed_pixel(ds, vx, vy)
                == resample(ds[i], vx - ds[i].origin.0, vy - ds[i].origin.1),
        (forall|i: int| 0 <= i < ds.len() ==> !covers(#[trigger] ds[i], vx, vy)) ==> composed_pixel(
            ds,
            vx,
            vy,
        ) == transparent(),
    decreases ds.len(),
{
    if ds.len() > 0 {
        let last = ds.len() - 1;
        assert(ds.last() == ds[last]);
        assert forall|i: int, j: int|
            0 <= i < ds.drop_last().len() && 0 <= j < ds.drop_last().len() && i != j implies disjoint(
            #[trigger] ds.drop_last()[i],
            #[trigger] ds.drop_last()[j],
        ) by {
            assert(ds.drop_last()[i] == ds[i]);
            assert(ds.drop_last()[j] == ds[j]);
        }
        lemma_composed_coverer(ds.drop_last(), vx, vy);
        if covers(ds[last], vx, vy) {
            assert forall|i: int|
                0 <= i < ds.len() && covers(#[trigger] ds[i], vx, vy) implies composed_pixel(
                ds,
                vx,
                vy,
            ) == resample(ds[i], vx - ds[i].origin.0, vy - ds[i].origin.1) by {
                if i != last {
                    assert(disjoint(ds[i], ds[last]));
                    assert(false);
                }
            }
        } else {
            assert(composed_pixel(ds, vx, vy) == composed_pixel(ds.drop_last(), vx, vy));
            assert forall|i: int|
                0 <= i < ds.len() && covers(#[trigger] ds[i], vx, vy) implies composed_pixel(
                ds,
                vx,
                vy,
            ) == resample(ds[i], vx - ds[i].origin.0, vy - ds[i].origin.1) by {
                assert(i != last);
                assert(ds.drop_last()[i] == ds[i]);
                assert(covers(ds.drop_last()[i], vx, vy));
            }
            if forall|i: int| 0 <= i < ds.len() ==> !covers(#[trigger] ds[i], vx, vy) {
                assert forall|i: int|
                    0 <= i < ds.drop_last().len() implies !covers(
                    #[trigger] ds.drop_last()[i],
                    vx,
                    vy,
                ) by {
                    assert(ds.drop_last()[i] == ds[i]);
                }
            }
        }
    }
}

/// An element of the first sequence occurs in the second when both hold
/// the same multiset.
proof fn lemma_member_transfer(ds1: Seq<DisplayCapture>, ds2: Seq<DisplayCapture>, i: int)
    requires
        ds1.to_multiset() == ds2.to_multiset(),
        0 <= i < ds1.len(),
    ensures
        exists|j: int| 0 <= j < ds2.len() && ds2[j] == ds1[i],
{
    ds1.to_multiset_ensures();
    ds2.to_multiset_ensures();
    assert(ds1.contains(ds1[i]));
    assert(ds1.to_multiset().count(ds1[i]) > 0);
    assert(ds2.contains(ds1[i]));
}

/// Two display collections holding the same displays span the same canvas
/// bounds.
proof fn lemma_extents_multiset(ds1: Seq<DisplayCapture>, ds2: Seq<DisplayCapture>)
    requires
        ds1.len() > 0,
        ds2.len() > 0,
        ds1.to_multiset() == ds2.to_multiset(),
    ensures
        min_ox(ds1) == min_ox(ds2),
        min_oy(ds1) == min_oy(ds2),
        max_rx(ds1) == max_rx(ds2),
        max_by(ds1) == max_by(ds2),
{
    crate::screenshot::lemma_extent_bounds(ds1);
    crate::screenshot::lemma_extent_bounds(ds2);
    crate::screenshot::lemma_extent_witnesses(ds1);
    crate::screenshot::lemma_extent_witnesses(ds2);
    let a1 = choose|i: int| 0 <= i < ds1.len() && (#[trigger] ds1[i]).origin.0 == min_ox(ds1);
    lemma_member_transfer(ds1, ds2, a1);
    let a2 = choose|i: int| 0 <= i < ds2.len() && (#[trigger] ds2[i]).origin.0 == min_ox(ds2);
    lemma_member_transfer(ds2, ds1, a2);
    let b1 = choose|i: int| 0 <= i < ds1.len() && (#[trigger] ds1[i]).origin.1 == min_oy(ds1);
    lemma_member_transfer(ds1, ds2, b1);
    let b2 = choose|i: int| 0 <= i < ds2.len() && (#[trigger] ds2[i]).origin.1 == min_oy(ds2);
    lemma_member_transfer(ds2, ds1, b2);
    let c1 = choose|i: int|
        0 <= i < ds1.len() && (#[trigger] ds1[i]).origin.0 + ds1[i].size.0 == max_rx(ds1);
    lemma_member_transfer(ds1, ds2, c1);
    let c2 = choose|i: int|
        0 <= i < ds2.len() && (#[trigger] ds2[i]).origin.0 + ds2[i].size.0 == max_rx(ds2);
    lemma_member_transfer(ds2, ds1, c2);
    let e1 = choose|i: int|
        0 <= i < ds1.len() && (#[trigger] ds1[i]).origin.1 + ds1[i].size.1 == max_by(ds1);
    lemma_member_transfer(ds1, ds2, e1);
    let e2 = choose|i: int|
        0 <= i < ds2.len() && (#[trigger] ds2[i]).origin.1 + ds2[i].size.1 == max_by(ds2);
    lemma_member_transfer(ds2, ds1, e2);
}

/// Composition is order-independent for non-overlapping displays: two
/// collections holding the same displays — pairwise non-overlapping and of
/// positive size — place the canvas identically and compose the same
/// pixel at every virtual coordinate, so the composited canvases are
/// pixel-identical.
pub proof fn lemma_composition_order_independent(
    ds1: Seq<DisplayCapture>,
    ds2: Seq<DisplayCapture>,
)
    requires
        ds1.len() > 0,
        ds1.to_multiset() == ds2.to_multiset(),
        pairwise_disjoint(ds1),
        forall|i: int| 0 <= i < ds1.len() ==> (#[trigger] ds1[i]).size.0 > 0 && ds1[i].size.1 > 0,
    ensures
        ds2.len() == ds1.len(),
        min_ox(ds1) == min_ox(ds2),
        min_oy(ds1) == min_oy(ds2),
        max_rx(ds1) == max_rx(ds2),
        max_by(ds1) == max_by(ds2),
        forall|vx: int, vy: int| #[trigger] composed_pixel(ds1, vx, vy) == composed_pixel(
            ds2,
            vx,
            vy,
        ),
        canvas_pixels(ds1) == canvas_pixels(ds2),
{
    ds1.to_multiset_ensures();
    ds2.to_multiset_ensures();
    assert(ds2.len() == ds1.len());
    // A display of positive size is not disjoint from itself, so it cannot
    // stand at two positions of a pairwise non-overlapping collection.
    assert(ds1.no_duplicates()) by {
        assert forall|i: int, j: int|
            0 <= i < ds1.len() && 0 <= j < ds1.len() && i != j implies ds1[i] != ds1[j] by {
            if ds1[i] == ds1[j] {
                assert(disjoint(ds1[i], ds1[j]));
                assert(false);
            }
        }
    }
    ds1.lemma_multiset_has_no_duplicates();
    ds2.lemma_multiset_has_no_duplicates_conv();
    assert(pairwise_disjoint(ds2)) by {
        assert forall|i: int, j: int|
            0 <= i < ds2.len() && 0 <= j < ds2.len() && i != j implies disjoint(
            #[trigger] ds2[i],
            #[trigger] ds2[j],
        ) by {
            lemma_member_transfer(ds2, ds1, i);
            lemma_member_transfer(ds2, ds1, j);
            let a = choose|a: int| 0 <= a < ds1.len() && ds1[a] == ds2[i];
            let b = choose|b: int| 0 <= b < ds1.len() && ds1[b] == ds2[j];
            assert(ds2[i] != ds2[j]);
            assert(a != b);
            assert(disjoint(ds1[a], ds1[b]));
        }
    }
    lemma_extents_multiset(ds1, ds2);
    assert forall|vx: int, vy: int| #[trigger] composed_pixel(ds1, vx, vy) == composed_pixel(
        ds2,
        vx,
        vy,
    ) by {
        lemma_composed_coverer(ds1, vx, vy);
        lemma_composed_coverer(ds2, vx, vy);
        if exists|i: int| 0 <= i < ds1.len() && covers(#[trigger] ds1[i], vx, vy) {
            let i = choose|i: int| 0 <= i < ds1.len() && covers(#[trigger] ds1[i], vx, vy);
            lemma_member_transfer(ds1, ds2, i);
            let j = choose|j: int| 0 <= j < ds2.len() && ds2[j] == ds1[i];
            assert(covers(ds2[j], vx, vy));
            assert(composed_pixel(ds1, vx, vy) == resample(
                ds1[i],
                vx - ds1[i].origin.0,
                vy - ds1[i].origin.1,
            ));
            assert(composed_pixel(ds2, vx, vy) == resample(
                ds2[j],
                vx - ds2[j].origin.0,
                vy - ds2[j].origin.1,
            ));
        } else {
            assert forall|j: int| 0 <= j < ds2.len() implies !covers(
                #[trigger] ds2[j],
                vx,
                vy,
            ) by {
                lemma_member_transfer(ds2, ds1, j);
                let a = choose|a: int| 0 <= a < ds1.len() && ds1[a] == ds2[j];
                assert(!covers(ds1[a], vx, vy));
            }
            assert forall|i: int| 0 <= i < ds1.len() implies !covers(
                #[trigger] ds1[i],
                vx,
                vy,
            ) by {}
            assert(composed_pixel(ds1, vx, vy) == transparent());
            assert(composed_pixel(ds2, vx, vy) == transparent());
        }
    }
    assert(canvas_pixels(ds1) =~= canvas_pixels(ds2));
}

} // verus!
