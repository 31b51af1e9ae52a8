//! The sampling plan of a dashed ring.
//!
//! A ring is cut into `dash_count` equal cycles; each cycle begins with a
//! dash that covers a fraction of it. A dash is drawn as a short polyline of
//! `POINTS_PER_DASH + 1` points, hence `POINTS_PER_DASH` tube segments, and no
//! segment joins two dashes.

use vstd::prelude::*;
use vstd::arithmetic::div_mod::lemma_fundamental_div_mod_converse;

verus! {

/// Number of segments in one dash.
pub const POINTS_PER_DASH: u32 = 4;

/// A point of a dash: point `step` (of `0 ..= POINTS_PER_DASH`) of dash
/// `dash`. With `cycle = TAU / dash_count` and `dash_angle` the angle that a
/// dash covers, its angle on the ring is
/// `dash * cycle + (step / POINTS_PER_DASH) * dash_angle`.
#[derive(Clone, Copy, Debug, PartialEq, Eq, Structural)]
pub struct DashPoint {
    pub dash: u32,
    pub step: u32,
}

/// Segment `k` of the ring: it belongs to dash `k / POINTS_PER_DASH` and
/// joins point `k % POINTS_PER_DASH` of that dash to the next point.
pub open spec fn dash_segment(k: int) -> (DashPoint, DashPoint) {
    let d = k / (POINTS_PER_DASH as int);
    let s = k % (POINTS_PER_DASH as int);
    (
        DashPoint { dash: d as u32, step: s as u32 },
        DashPoint { dash: d as u32, step: (s + 1) as u32 },
    )
}

pub open spec fn spec_dashed_ring_segments(dash_count: u32) -> Seq<(DashPoint, DashPoint)> {
    Seq::new((dash_count * POINTS_PER_DASH) as nat, |k: int| dash_segment(k))
}

/// The segments of a dashed ring of `dash_count` dashes, dash after dash,
/// each dash from its first point to its last.
pub fn dashed_ring_segments(dash_count: u32) -> (segments: Vec<(DashPoint, DashPoint)>)
    ensures
        segments@ == spec_dashed_ring_segments(dash_count),
        segments@.len() == dash_count * POINTS_PER_DASH,
        forall|k: int| 0 <= k < dash_count * POINTS_PER_DASH ==> {
            &&& (#[trigger] segments@[k]).0.dash == k / (POINTS_PER_DASH as int)
            &&& segments@[k].1.dash == k / (POINTS_PER_DASH as int)
            &&& segments@[k].0.step == k % (POINTS_PER_DASH as int)
            &&& segments@[k].1.step == k % (POINTS_PER_DASH as int) + 1
        },
{
    let mut segments: Vec<(DashPoint, DashPoint)> = Vec::new();
    let ghost per: int = POINTS_PER_DASH as int;
    let ghost mut done: int = 0;
    let mut d: u32 = 0;
    while d < dash_count
        invariant
            d <= dash_count,
            per == POINTS_PER_DASH as int,
            done == d * per,
            segments@ == Seq::new(done as nat, |k: int| dash_segment(k)),
        decreases dash_count - d,
    {
        let mut i: u32 = 0;
        while i < POINTS_PER_DASH
            invariant
                d < dash_count,
                i <= POINTS_PER_DASH,
                per == POINTS_PER_DASH as int,
                done == d * per + i,
                segments@ == Seq::new(done as nat, |k: int| dash_segment(k)),
            decreases POINTS_PER_DASH - i,
        {
            proof {
                lemma_fundamental_div_mod_converse(done, per, d as int, i as int);
            }
            let seg = (DashPoint { dash: d, step: i }, DashPoint { dash: d, step: i + 1 });
            segments.push(seg);
            proof {
                assert(segments@ =~= Seq::new((done + 1) as nat, |k: int| dash_segment(k)));
                done = done + 1;
            }
            i = i + 1;
        }
        d = d + 1;
    }
    proof {
        lemma_dash_segments_layout(dash_count);
    }
    segments
}

/// Within a dash the segments form one polyline from the dash's first point
/// to its last: segment `k + 1` starts where segment `k` ends unless a new
/// dash begins there, and dash `d` starts at its step `0` and ends at its
/// step `POINTS_PER_DASH`.
pub proof fn lemma_dash_segments_chain(dash_count: u32, k: int, d: int)
    requires
        0 <= k,
        0 <= d < dash_count,
    ensures
        k + 1 < dash_count * POINTS_PER_DASH && (k + 1) % (POINTS_PER_DASH as int) != 0
            ==> spec_dashed_ring_segments(dash_count)[k].1 == spec_dashed_ring_segments(dash_count)[k + 1].0,
        spec_dashed_ring_segments(dash_count)[d * POINTS_PER_DASH].0
            == (DashPoint { dash: d as u32, step: 0 }),
        spec_dashed_ring_segments(dash_count)[d * POINTS_PER_DASH + POINTS_PER_DASH - 1].1
            == (DashPoint { dash: d as u32, step: POINTS_PER_DASH }),
{
    let per = POINTS_PER_DASH as int;
    assert(d * per + per <= dash_count * per) by (nonlinear_arith)
        requires d < dash_count, per > 0;
    lemma_fundamental_div_mod_converse(d * per, per, d, 0);
    lemma_fundamental_div_mod_converse(d * per + per - 1, per, d, per - 1);
    if k + 1 < dash_count * POINTS_PER_DASH && (k + 1) % per != 0 {
        let q = k / per;
        let r = k % per;
        lemma_fundamental_div_mod_converse(k, per, k / per, k % per);
        if r + 1 == per {
            lemma_fundamental_div_mod_converse(k + 1, per, q + 1, 0);
        }
        lemma_fundamental_div_mod_converse(k + 1, per, q, r + 1);
    }
}

/// Segment `k` of the ring lies entirely on dash `k / POINTS_PER_DASH`: both
/// of its points belong to that dash, at steps `k % POINTS_PER_DASH` and the
/// next one, so no segment joins two dashes.
pub proof fn lemma_dash_segments_layout(dash_count: u32)
    ensures
        forall|k: int| 0 <= k < dash_count * POINTS_PER_DASH ==> {
            let seg = #[trigger] spec_dashed_ring_segments(dash_count)[k];
            &&& seg.0.dash == k / (POINTS_PER_DASH as int)
            &&& seg.1.dash == k / (POINTS_PER_DASH as int)
            &&& seg.0.step == k % (POINTS_PER_DASH as int)
            &&& seg.1.step == k % (POINTS_PER_DASH as int) + 1
            &&& seg.0.dash < dash_count
        },
{
    let per = POINTS_PER_DASH as int;
    assert forall|k: int| 0 <= k < dash_count * POINTS_PER_DASH implies {
        let seg = #[trigger] spec_dashed_ring_segments(dash_count)[k];
        &&& seg.0.dash == k / per
        &&& seg.1.dash == k / per
        &&& seg.0.step == k % per
        &&& seg.1.step == k % per + 1
        &&& seg.0.dash < dash_count
    } by {
        assert(k / per < dash_count);
    }
}

} // verus!
