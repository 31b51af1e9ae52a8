//! The sampling plan of the globe wireframe.
//!
//! The wireframe is drawn as GL_LINES: every two consecutive vertices form
//! one segment. It holds the latitude parallels (the poles are skipped,
//! where a parallel collapses to a point), then the meridians from pole to
//! pole. Each vertex is a point of the sphere given by two fractions of a
//! turn, which the caller turns into coordinates.

use vstd::prelude::*;
use vstd::arithmetic::div_mod::{lemma_fundamental_div_mod, lemma_fundamental_div_mod_converse};

verus! {

/// A point of the sphere, given by two angles as fractions.
///
/// The polar angle, measured from the `+Y` pole, is
/// `PI * polar_step / polar_steps`; the azimuth, measured in the `XZ`
/// plane from `+X` towards `+Z`, is `TAU * azimuth_step / azimuth_steps`.
/// On a sphere of radius `R` the point is
/// `(R sin(polar) cos(azimuth), R cos(polar), R sin(polar) sin(azimuth))`.
#[derive(Clone, Copy, Debug, PartialEq, Eq, Structural)]
pub struct SphereSample {
    pub polar_step: u32,
    pub polar_steps: u32,
    pub azimuth_step: u32,
    pub azimuth_steps: u32,
}

pub open spec fn sample(polar_step: int, polar_steps: u32, azimuth_step: int, azimuth_steps: u32) -> SphereSample {
    SphereSample {
        polar_step: polar_step as u32,
        polar_steps,
        azimuth_step: azimuth_step as u32,
        azimuth_steps,
    }
}

/// Parallels are drawn at the polar steps `1 .. lat_count`, each cut into
/// `lat_segs` segments.
pub open spec fn parallel_segment_count(lat_count: u32, lat_segs: u32) -> nat {
    if lat_count == 0 { 0 } else { ((lat_count - 1) * lat_segs) as nat }
}

/// `lon_count` meridians, each cut into `mer_segs` segments.
pub open spec fn meridian_segment_count(lon_count: u32, mer_segs: u32) -> nat {
    (lon_count * mer_segs) as nat
}

/// Vertex `k` of the parallels: segment `k / 2` lies on parallel
/// `(k / 2) / lat_segs + 1` and runs from azimuth step `(k / 2) % lat_segs`
/// to the next one; even vertices start a segment, odd ones end it.
pub open spec fn parallel_vertex(lat_count: u32, lat_segs: u32, k: int) -> SphereSample {
    let s = k / 2;
    sample(s / (lat_segs as int) + 1, lat_count, s % (lat_segs as int) + k % 2, lat_segs)
}

/// Vertex `k` of the meridians: segment `k / 2` lies on meridian
/// `(k / 2) / mer_segs` and runs from polar step `(k / 2) % mer_segs`
/// to the next one.
pub open spec fn meridian_vertex(lon_count: u32, mer_segs: u32, k: int) -> SphereSample {
    let s = k / 2;
    sample(s % (mer_segs as int) + k % 2, mer_segs, s / (mer_segs as int), lon_count)
}

pub open spec fn parallel_vertices(lat_count: u32, lat_segs: u32, n: nat) -> Seq<SphereSample> {
    Seq::new(n, |k: int| parallel_vertex(lat_count, lat_segs, k))
}

pub open spec fn meridian_vertices(lon_count: u32, mer_segs: u32, n: nat) -> Seq<SphereSample> {
    Seq::new(n, |k: int| meridian_vertex(lon_count, mer_segs, k))
}

/// The whole vertex list: all parallels, then all meridians.
pub open spec fn spec_globe_line_samples(lat_count: u32, lon_count: u32, lat_segs: u32, mer_segs: u32) -> Seq<SphereSample> {
    parallel_vertices(lat_count, lat_segs, 2 * parallel_segment_count(lat_count, lat_segs))
        + meridian_vertices(lon_count, mer_segs, 2 * meridian_segment_count(lon_count, mer_segs))
}

proof fn lemma_split(s: int, q: int, r: int, d: int)
    requires
        d > 0,
        0 <= r < d,
        s == q * d + r,
    ensures
        s / d == q,
        s % d == r,
{
    lemma_fundamental_div_mod_converse(s, d, q, r);
}

/// Builds the vertex list of the globe wireframe: the parallels at polar
/// steps `1 .. lat_count` of `lat_count`, each of `lat_segs` segments, then
/// `lon_count` meridians of `mer_segs` segments each. Consecutive pairs of
/// the result are the segments.
pub fn globe_line_samples(lat_count: u32, lon_count: u32, lat_segs: u32, mer_segs: u32) -> (samples: Vec<SphereSample>)
    ensures
        samples@ == spec_globe_line_samples(lat_count, lon_count, lat_segs, mer_segs),
        samples@.len() == 2 * (parallel_segment_count(lat_count, lat_segs)
            + meridian_segment_count(lon_count, mer_segs)),
        forall|k: int| 0 <= k < 2 * parallel_segment_count(lat_count, lat_segs) ==> {
            &&& (#[trigger] samples@[k]).polar_steps == lat_count
            &&& samples@[k].polar_step == (k / 2) / (lat_segs as int) + 1
            &&& samples@[k].azimuth_steps == lat_segs
            &&& samples@[k].azimuth_step == (k / 2) % (lat_segs as int) + k % 2
        },
        forall|k: int| 0 <= k < 2 * meridian_segment_count(lon_count, mer_segs) ==> {
            let v = #[trigger] samples@[2 * parallel_segment_count(lat_count, lat_segs) + k];
            &&& v.azimuth_steps == lon_count
            &&& v.azimuth_step == (k / 2) / (mer_segs as int)
            &&& v.polar_steps == mer_segs
            &&& v.polar_step == (k / 2) % (mer_segs as int) + k % 2
        },
{
    let mut samples: Vec<SphereSample> = Vec::new();
    let ghost ls: int = lat_segs as int;
    // `done` counts the segments pushed so far.
    let ghost mut done: int = 0;
    let mut i: u32 = 1;
    while i < lat_count
        invariant
            1 <= i,
            i <= lat_count || (lat_count == 0 && i == 1),
            ls == lat_segs as int,
            done == (i - 1) * ls,
            samples@ == parallel_vertices(lat_count, lat_segs, (2 * done) as nat),
        decreases lat_count - i,
    {
        let mut j: u32 = 0;
        while j < lat_segs
            invariant
                1 <= i < lat_count,
                j <= lat_segs,
                ls == lat_segs as int,
                done == (i - 1) * ls + j,
                samples@ == parallel_vertices(lat_count, lat_segs, (2 * done) as nat),
            decreases lat_segs - j,
        {
            proof {
                lemma_split(done, i - 1, j as int, ls);
                assert((2 * done) / 2 == done && (2 * done) % 2 == 0);
                assert((2 * done + 1) / 2 == done && (2 * done + 1) % 2 == 1);
            }
            let a = SphereSample { polar_step: i, polar_steps: lat_count, azimuth_step: j, azimuth_steps: lat_segs };
            let b = SphereSample { polar_step: i, polar_steps: lat_count, azimuth_step: j + 1, azimuth_steps: lat_segs };
            samples.push(a);
            samples.push(b);
            proof {
                assert(samples@ =~= parallel_vertices(lat_count, lat_segs, (2 * (done + 1)) as nat));
                done = done + 1;
            }
            j = j + 1;
        }
        proof {
            assert((i - 1) * ls + ls == i * ls) by (nonlinear_arith);
        }
        i = i + 1;
    }
    assert(done == parallel_segment_count(lat_count, lat_segs));
    let ghost parallels = samples@;
    let ghost ms: int = mer_segs as int;
    let ghost mut done_m: int = 0;
    let mut j: u32 = 0;
    while j < lon_count
        invariant
            j <= lon_count,
            ms == mer_segs as int,
            done_m == j * ms,
            samples@ == parallels + meridian_vertices(lon_count, mer_segs, (2 * done_m) as nat),
        decreases lon_count - j,
    {
        let mut i: u32 = 0;
        while i < mer_segs
            invariant
                j < lon_count,
                i <= mer_segs,
                ms == mer_segs as int,
                done_m == j * ms + i,
                samples@ == parallels + meridian_vertices(lon_count, mer_segs, (2 * done_m) as nat),
            decreases mer_segs - i,
        {
            proof {
                lemma_split(done_m, j as int, i as int, ms);
                assert((2 * done_m) / 2 == done_m && (2 * done_m) % 2 == 0);
                assert((2 * done_m + 1) / 2 == done_m && (2 * done_m + 1) % 2 == 1);
            }
            let a = SphereSample { polar_step: i, polar_steps: mer_segs, azimuth_step: j, azimuth_steps: lon_count };
            let b = SphereSample { polar_step: i + 1, polar_steps: mer_segs, azimuth_step: j, azimuth_steps: lon_count };
            samples.push(a);
            samples.push(b);
            proof {
                assert(meridian_vertices(lon_count, mer_segs, (2 * (done_m + 1)) as nat) =~=
                    meridian_vertices(lon_count, mer_segs, (2 * done_m) as nat).push(a).push(b));
                assert(samples@ =~= parallels + meridian_vertices(lon_count, mer_segs, (2 * (done_m + 1)) as nat));
                done_m = done_m + 1;
            }
            i = i + 1;
        }
        proof {
            assert(j * ms + ms == (j + 1) * ms) by (nonlinear_arith);
        }
        j = j + 1;
    }
    proof {
        lemma_globe_layout(lat_count, lon_count, lat_segs, mer_segs);
    }
    samples
}

/// Parallel vertex `k` lies on parallel number `(k / 2) / lat_segs` (counted
/// from `0`), which is drawn at polar step `(k / 2) / lat_segs + 1` of
/// `lat_count`: distinct parallels sit at distinct polar steps, and none of
/// them reaches a pole. Along its parallel the vertex is at azimuth step
/// `(k / 2) % lat_segs`, plus one for the end vertex of a segment.
pub proof fn lemma_parallels_skip_poles(lat_count: u32, lon_count: u32, lat_segs: u32, mer_segs: u32, k: int)
    requires
        0 <= k < 2 * parallel_segment_count(lat_count, lat_segs),
    ensures
        ({
            let v = spec_globe_line_samples(lat_count, lon_count, lat_segs, mer_segs)[k];
            &&& v.polar_steps == lat_count
            &&& v.polar_step == (k / 2) / (lat_segs as int) + 1
            &&& 1 <= v.polar_step < lat_count
            &&& v.azimuth_steps == lat_segs
            &&& v.azimuth_step == (k / 2) % (lat_segs as int) + k % 2
            &&& v.azimuth_step <= lat_segs
        }),
{
    let ls = lat_segs as int;
    let p = parallel_segment_count(lat_count, lat_segs);
    let s = k / 2;
    assert(lat_count >= 1);
    assert(ls > 0) by {
        if ls == 0 {
            assert((lat_count - 1) * ls == 0) by (nonlinear_arith)
                requires ls == 0;
        }
    }
    lemma_fundamental_div_mod(s, ls);
    let q = s / ls;
    let r = s % ls;
    assert(0 <= q) by {
        if q < 0 {
            assert(ls * q <= -ls) by (nonlinear_arith)
                requires q < 0, ls > 0;
        }
    }
    assert(q < lat_count - 1) by {
        if q >= lat_count - 1 {
            assert(ls * q >= ls * (lat_count - 1)) by (nonlinear_arith)
                requires q >= lat_count - 1, ls > 0;
            assert(ls * (lat_count - 1) == (lat_count - 1) * ls) by (nonlinear_arith);
        }
    }
    assert(spec_globe_line_samples(lat_count, lon_count, lat_segs, mer_segs)[k]
        == parallel_vertex(lat_count, lat_segs, k));
}

/// Each meridian runs from pole to pole: its first vertex lies at polar step
/// `0` and its last at polar step `mer_segs`, both at the meridian's own
/// azimuth step.
pub proof fn lemma_meridians_reach_poles(lat_count: u32, lon_count: u32, lat_segs: u32, mer_segs: u32, m: int)
    requires
        0 <= m < lon_count,
        mer_segs > 0,
    ensures
        ({
            let samples = spec_globe_line_samples(lat_count, lon_count, lat_segs, mer_segs);
            let first = 2 * parallel_segment_count(lat_count, lat_segs) + 2 * (m * mer_segs);
            let last = first + 2 * mer_segs - 1;
            &&& last < samples.len()
            &&& samples[first] == sample(0, mer_segs, m, lon_count)
            &&& samples[last] == sample(mer_segs as int, mer_segs, m, lon_count)
        }),
{
    let ms = mer_segs as int;
    let p = 2 * parallel_segment_count(lat_count, lat_segs);
    let samples = spec_globe_line_samples(lat_count, lon_count, lat_segs, mer_segs);
    let t0 = 2 * (m * ms);
    let t1 = t0 + 2 * ms - 1;
    assert(m * ms + ms <= lon_count * ms) by (nonlinear_arith)
        requires m < lon_count, ms > 0;
    assert(t0 / 2 == m * ms && t0 % 2 == 0);
    lemma_split(m * ms, m, 0, ms);
    assert(t1 / 2 == m * ms + ms - 1 && t1 % 2 == 1);
    lemma_split(m * ms + ms - 1, m, ms - 1, ms);
    assert(samples[p + t0] == meridian_vertex(lon_count, mer_segs, t0));
    assert(samples[p + t1] == meridian_vertex(lon_count, mer_segs, t1));
}

/// Consecutive segments of one parallel join: where segment `s + 1` lies on
/// the same parallel as segment `s`, it starts where segment `s` ends.
pub proof fn lemma_parallel_segments_join(lat_count: u32, lon_count: u32, lat_segs: u32, mer_segs: u32, s: int)
    requires
        0 <= s,
        s + 1 < parallel_segment_count(lat_count, lat_segs),
        (s + 1) % (lat_segs as int) != 0,
    ensures
        spec_globe_line_samples(lat_count, lon_count, lat_segs, mer_segs)[2 * s + 1]
            == spec_globe_line_samples(lat_count, lon_count, lat_segs, mer_segs)[2 * s + 2],
{
    let ls = lat_segs as int;
    assert(ls > 0) by {
        if ls == 0 {
            assert((lat_count - 1) * ls == 0) by (nonlinear_arith)
                requires ls == 0;
        }
    }
    lemma_fundamental_div_mod(s, ls);
    let q = s / ls;
    let r = s % ls;
    assert(ls * q == q * ls && (q + 1) * ls == q * ls + ls) by (nonlinear_arith);
    assert(r + 1 < ls) by {
        if r + 1 == ls {
            lemma_split(s + 1, q + 1, 0, ls);
        }
    }
    lemma_split(s + 1, q, r + 1, ls);
    assert((2 * s + 1) / 2 == s && (2 * s + 1) % 2 == 1);
    assert((2 * s + 2) / 2 == s + 1 && (2 * s + 2) % 2 == 0);
}

/// Consecutive segments of one meridian join: where segment `s + 1` of the
/// meridians lies on the same meridian as segment `s`, it starts where
/// segment `s` ends.
pub proof fn lemma_meridian_segments_join(lat_count: u32, lon_count: u32, lat_segs: u32, mer_segs: u32, s: int)
    requires
        0 <= s,
        s + 1 < meridian_segment_count(lon_count, mer_segs),
        (s + 1) % (mer_segs as int) != 0,
    ensures
        ({
            let samples = spec_globe_line_samples(lat_count, lon_count, lat_segs, mer_segs);
            let p = 2 * parallel_segment_count(lat_count, lat_segs);
            samples[p + 2 * s + 1] == samples[p + 2 * s + 2]
        }),
{
    let ms = mer_segs as int;
    assert(ms > 0) by {
        if ms == 0 {
            assert(lon_count * ms == 0) by (nonlinear_arith)
                requires ms == 0;
        }
    }
    lemma_fundamental_div_mod(s, ms);
    let q = s / ms;
    let r = s % ms;
    assert(ms * q == q * ms && (q + 1) * ms == q * ms + ms) by (nonlinear_arith);
    assert(r + 1 < ms) by {
        if r + 1 == ms {
            lemma_split(s + 1, q + 1, 0, ms);
        }
    }
    lemma_split(s + 1, q, r + 1, ms);
    assert((2 * s + 1) / 2 == s && (2 * s + 1) % 2 == 1);
    assert((2 * s + 2) / 2 == s + 1 && (2 * s + 2) % 2 == 0);
}

/// Meridian vertex `k` (vertex `k` after the parallels) lies on meridian
/// `(k / 2) / mer_segs`, at that meridian's azimuth step, whichever vertex of
/// the meridian it is; its polar step is `(k / 2) % mer_segs`, plus one for
/// the end vertex of a segment.
pub proof fn lemma_meridian_vertex_layout(lat_count: u32, lon_count: u32, lat_segs: u32, mer_segs: u32, k: int)
    requires
        0 <= k < 2 * meridian_segment_count(lon_count, mer_segs),
    ensures
        ({
            let v = spec_globe_line_samples(lat_count, lon_count, lat_segs, mer_segs)[
                2 * parallel_segment_count(lat_count, lat_segs) + k];
            &&& v.azimuth_steps == lon_count
            &&& v.azimuth_step == (k / 2) / (mer_segs as int)
            &&& v.azimuth_step < lon_count
            &&& v.polar_steps == mer_segs
            &&& v.polar_step == (k / 2) % (mer_segs as int) + k % 2
            &&& v.polar_step <= mer_segs
        }),
{
    let ms = mer_segs as int;
    let s = k / 2;
    assert(ms > 0) by {
        if ms == 0 {
            assert(lon_count * ms == 0) by (nonlinear_arith)
                requires ms == 0;
        }
    }
    lemma_fundamental_div_mod(s, ms);
    let q = s / ms;
    assert(0 <= q) by {
        if q < 0 {
            assert(ms * q <= -ms) by (nonlinear_arith)
                requires q < 0, ms > 0;
        }
    }
    assert(q < lon_count) by {
        if q >= lon_count {
            assert(ms * q >= ms * lon_count) by (nonlinear_arith)
                requires q >= lon_count, ms > 0;
            assert(ms * lon_count == lon_count * ms) by (nonlinear_arith);
        }
    }
    let p = 2 * parallel_segment_count(lat_count, lat_segs);
    assert(spec_globe_line_samples(lat_count, lon_count, lat_segs, mer_segs)[p + k]
        == meridian_vertex(lon_count, mer_segs, k));
}

/// The whole layout, vertex by vertex: first the parallels, parallel number
/// `q` at polar step `q + 1`, then the meridians, each vertex of meridian `m`
/// at azimuth step `m`.
pub proof fn lemma_globe_layout(lat_count: u32, lon_count: u32, lat_segs: u32, mer_segs: u32)
    ensures
        ({
            let v = spec_globe_line_samples(lat_count, lon_count, lat_segs, mer_segs);
            let p = 2 * parallel_segment_count(lat_count, lat_segs);
            &&& forall|k: int| 0 <= k < p ==> {
                &&& (#[trigger] v[k]).polar_steps == lat_count
                &&& v[k].polar_step == (k / 2) / (lat_segs as int) + 1
                &&& v[k].azimuth_steps == lat_segs
                &&& v[k].azimuth_step == (k / 2) % (lat_segs as int) + k % 2
            }
            &&& forall|k: int| 0 <= k < 2 * meridian_segment_count(lon_count, mer_segs) ==> {
                &&& (#[trigger] v[p + k]).azimuth_steps == lon_count
                &&& v[p + k].azimuth_step == (k / 2) / (mer_segs as int)
                &&& v[p + k].polar_steps == mer_segs
                &&& v[p + k].polar_step == (k / 2) % (mer_segs as int) + k % 2
            }
        }),
{
    let v = spec_globe_line_samples(lat_count, lon_count, lat_segs, mer_segs);
    let p = 2 * parallel_segment_count(lat_count, lat_segs);
    assert forall|k: int| 0 <= k < p implies {
        &&& (#[trigger] v[k]).polar_steps == lat_count
        &&& v[k].polar_step == (k / 2) / (lat_segs as int) + 1
        &&& v[k].azimuth_steps == lat_segs
        &&& v[k].azimuth_step == (k / 2) % (lat_segs as int) + k % 2
    } by {
        lemma_parallels_skip_poles(lat_count, lon_count, lat_segs, mer_segs, k);
    }
    assert forall|k: int| 0 <= k < 2 * meridian_segment_count(lon_count, mer_segs) implies {
        &&& (#[trigger] v[p + k]).azimuth_steps == lon_count
        &&& v[p + k].azimuth_step == (k / 2) / (mer_segs as int)
        &&& v[p + k].polar_steps == mer_segs
        &&& v[p + k].polar_step == (k / 2) % (mer_segs as int) + k % 2
    } by {
        lemma_meridian_vertex_layout(lat_count, lon_count, lat_segs, mer_segs, k);
    }
}

} // verus!
