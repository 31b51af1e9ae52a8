use orbital_elements::dashes::{dashed_ring_segments, DashPoint, POINTS_PER_DASH};
use orbital_elements::globe::{globe_line_samples, SphereSample};
use orbital_elements::labels::interleave_pairs;
use orbital_elements::strip::{consecutive_pairs, keep_present};

fn s(polar_step: u32, polar_steps: u32, azimuth_step: u32, azimuth_steps: u32) -> SphereSample {
    SphereSample { polar_step, polar_steps, azimuth_step, azimuth_steps }
}

#[test]
fn globe_counts_match_the_scene() {
    // The scene's globe: 32 parallels steps, 32 meridians, 64 segments each.
    let v = globe_line_samples(32, 32, 64, 64);
    assert_eq!(v.len(), 2 * (31 * 64 + 32 * 64));
}

#[test]
fn globe_small_exact_layout() {
    let v = globe_line_samples(3, 2, 2, 2);
    let expected = vec![
        // parallel at polar step 1 of 3
        s(1, 3, 0, 2), s(1, 3, 1, 2),
        s(1, 3, 1, 2), s(1, 3, 2, 2),
        // parallel at polar step 2 of 3
        s(2, 3, 0, 2), s(2, 3, 1, 2),
        s(2, 3, 1, 2), s(2, 3, 2, 2),
        // meridian 0 of 2, pole to pole
        s(0, 2, 0, 2), s(1, 2, 0, 2),
        s(1, 2, 0, 2), s(2, 2, 0, 2),
        // meridian 1 of 2
        s(0, 2, 1, 2), s(1, 2, 1, 2),
        s(1, 2, 1, 2), s(2, 2, 1, 2),
    ];
    assert_eq!(v, expected);
}

#[test]
fn globe_without_parallels_or_meridians() {
    assert!(globe_line_samples(0, 0, 5, 5).is_empty());
    // A single latitude band has no parallel between the poles.
    let v = globe_line_samples(1, 1, 7, 1);
    assert_eq!(v, vec![s(0, 1, 0, 1), s(1, 1, 0, 1)]);
}

#[test]
fn globe_parallels_skip_poles_example() {
    let v = globe_line_samples(4, 3, 5, 6);
    let parallels = 2 * 3 * 5;
    for k in 0..parallels {
        assert!(v[k].polar_step >= 1 && v[k].polar_step < 4);
    }
    for m in 0..3usize {
        let first = parallels + 2 * m * 6;
        assert_eq!(v[first], s(0, 6, m as u32, 3));
        assert_eq!(v[first + 2 * 6 - 1], s(6, 6, m as u32, 3));
    }
}

#[test]
fn dashes_exact_layout() {
    let segs = dashed_ring_segments(2);
    assert_eq!(segs.len(), 8);
    assert_eq!(POINTS_PER_DASH, 4);
    for (k, (a, b)) in segs.iter().enumerate() {
        let d = (k / 4) as u32;
        let st = (k % 4) as u32;
        assert_eq!(*a, DashPoint { dash: d, step: st });
        assert_eq!(*b, DashPoint { dash: d, step: st + 1 });
    }
    assert_eq!(dashed_ring_segments(28).len(), 112);
    assert!(dashed_ring_segments(0).is_empty());
}

#[test]
fn pairs_of_a_polyline() {
    let pts = vec![1, 2, 3, 4];
    assert_eq!(consecutive_pairs(&pts), vec![(1, 2), (2, 3), (3, 4)]);
    assert!(consecutive_pairs::<i32>(&vec![]).is_empty());
    assert!(consecutive_pairs(&vec![9]).is_empty());
}

#[test]
fn present_values_are_kept_in_order() {
    assert_eq!(keep_present(vec![Some(1), None, Some(3), None]), vec![1, 3]);
    assert_eq!(keep_present(vec![Some('a'), Some('b')]), vec!['a', 'b']);
    assert!(keep_present::<u8>(vec![None, None]).is_empty());
    assert!(keep_present::<u8>(vec![]).is_empty());
}

#[test]
fn label_positions_are_interleaved() {
    let pairs = vec![(1.5f32, -2.0f32), (3.0, 4.0), (-9999.0, -9999.0)];
    assert_eq!(interleave_pairs(&pairs), vec![1.5, -2.0, 3.0, 4.0, -9999.0, -9999.0]);
    assert!(interleave_pairs::<u8>(&vec![]).is_empty());
}
