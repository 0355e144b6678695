use rebound::sampler::{
    to_poisson_disc_polar, u_grid_jittered, u_grid_regular, DiscPolar, SamplePoint, SampleSource,
    JITTER_UNIT,
};
use rebound::sets::MasterSampleSets;

// The common denominator of grid coordinates for a given root.
fn den(root: u64) -> u64 {
    2 * root * JITTER_UNIT
}

#[test]
fn regular_grid_has_root_squared_points() {
    for root in [1usize, 2, 3, 7, 16] {
        let v = u_grid_regular(root);
        assert_eq!(v.len(), root * root);
    }
}

#[test]
fn regular_grid_points_strictly_inside_unit_square() {
    for root in [1usize, 2, 5, 11] {
        let d = den(root as u64);
        for p in u_grid_regular(root) {
            assert!(0 < p.x && p.x < d);
            assert!(0 < p.y && p.y < d);
        }
    }
}

#[test]
fn single_sample_grid_is_centered() {
    let v = u_grid_regular(1);
    assert_eq!(v.len(), 1);
    // The one point is exactly (1/2, 1/2).
    assert_eq!(v[0].x, JITTER_UNIT);
    assert_eq!(v[0].y, JITTER_UNIT);
    assert_eq!(den(1), 2 * JITTER_UNIT);
}

#[test]
fn regular_grid_positions_are_cell_centers() {
    let v = u_grid_regular(3);
    // Point k sits at ((2 * (k / 3) + 1) / 6, (2 * (k % 3) + 1) / 6).
    assert_eq!(v[0].x, JITTER_UNIT);
    assert_eq!(v[0].y, JITTER_UNIT);
    assert_eq!(v[5].x, 3 * JITTER_UNIT);
    assert_eq!(v[5].y, 5 * JITTER_UNIT);
    assert_eq!(v[8].x, 5 * JITTER_UNIT);
    assert_eq!(v[8].y, 5 * JITTER_UNIT);
}

#[test]
fn jittered_grid_stays_within_half_cell_of_regular() {
    let root = 4usize;
    let regular = u_grid_regular(root);
    let mut s = SampleSource::from_seed(99);
    let jittered = u_grid_jittered(&mut s, root);
    assert_eq!(jittered.len(), root * root);
    for (j, r) in jittered.iter().zip(regular.iter()) {
        let dx = j.x.abs_diff(r.x);
        let dy = j.y.abs_diff(r.y);
        assert!(dx < JITTER_UNIT);
        assert!(dy < JITTER_UNIT);
    }
}

#[test]
fn jittered_grid_stays_strictly_inside_unit_square() {
    let root = 8usize;
    let d = den(root as u64);
    let mut s = SampleSource::from_seed(7);
    for _ in 0..4 {
        for p in u_grid_jittered(&mut s, root) {
            assert!(0 < p.x && p.x < d);
            assert!(0 < p.y && p.y < d);
        }
    }
}

#[test]
fn equal_seeds_give_identical_sample_sets() {
    let mut a = SampleSource::from_seed(1234);
    let mut b = SampleSource::from_seed(1234);
    for root in [1usize, 3, 5] {
        let ga = u_grid_jittered(&mut a, root);
        let gb = u_grid_jittered(&mut b, root);
        assert_eq!(ga, gb);
    }
}

#[test]
fn different_seeds_give_different_sample_sets() {
    let mut a = SampleSource::from_seed(1);
    let mut b = SampleSource::from_seed(2);
    let ga = u_grid_jittered(&mut a, 4);
    let gb = u_grid_jittered(&mut b, 4);
    assert_ne!(ga, gb);
}

#[test]
fn master_sets_cover_every_column_and_depth() {
    let mut s = SampleSource::from_seed(5);
    let m = MasterSampleSets::new(&mut s, 2, 3, 10);
    assert_eq!(m.pixel_sets.len(), 10);
    assert_eq!(m.disc_sets.len(), 10);
    assert_eq!(m.hemi_sets.len(), 10);
    for col in &m.hemi_sets {
        assert_eq!(col.len(), 3);
        for set in col {
            assert_eq!(set.len(), 4);
        }
    }
    for set in &m.pixel_sets {
        assert_eq!(set.len(), 4);
    }
}

#[test]
fn master_sets_are_reproducible_for_a_fixed_seed() {
    let mut a = SampleSource::from_seed(31337);
    let mut b = SampleSource::from_seed(31337);
    let ma = MasterSampleSets::new(&mut a, 2, 2, 6);
    let mb = MasterSampleSets::new(&mut b, 2, 2, 6);
    assert_eq!(ma.pixel_sets, mb.pixel_sets);
    assert_eq!(ma.disc_sets, mb.disc_sets);
    assert_eq!(ma.hemi_sets, mb.hemi_sets);
    let sa = ma.shuffle_indices(&mut a);
    let sb = mb.shuffle_indices(&mut b);
    assert_eq!(sa, sb);
}

#[test]
fn shuffle_is_a_permutation_of_the_columns() {
    let mut s = SampleSource::from_seed(77);
    let m = MasterSampleSets::new(&mut s, 1, 1, 25);
    let mut idx = m.shuffle_indices(&mut s);
    assert_eq!(idx.len(), 25);
    idx.sort();
    let expected: Vec<usize> = (0..25).collect();
    assert_eq!(idx, expected);
}

#[test]
fn disc_mapping_of_the_center_is_the_origin() {
    // The center of the square has radius zero and pre-angle zero.
    let root = 1usize;
    let center = SamplePoint { x: JITTER_UNIT, y: JITTER_UNIT };
    let d = to_poisson_disc_polar(&center, root);
    assert_eq!(d, DiscPolar { r_num: 0, phi_num: 0, phi_den: 1 });
}

#[test]
fn disc_mapping_picks_the_right_octants() {
    let root = 1usize;
    let den = (2 * JITTER_UNIT) as i64;
    // (0.75, 0.5): on the positive x axis after centering; radius 0.5 of the
    // denominator, pre-angle 0.
    let p = SamplePoint { x: 3 * JITTER_UNIT / 2, y: JITTER_UNIT };
    let d = to_poisson_disc_polar(&p, root);
    assert_eq!(d, DiscPolar { r_num: den / 2, phi_num: 0, phi_den: den / 2 });
    // (0.5, 0.75): on the positive y axis; pre-angle 2 (a quarter turn).
    let q = SamplePoint { x: JITTER_UNIT, y: 3 * JITTER_UNIT / 2 };
    let e = to_poisson_disc_polar(&q, root);
    assert_eq!(e.r_num, den / 2);
    assert_eq!((e.phi_num, e.phi_den), (2 * (den / 2), den / 2));
    // (0.25, 0.5): on the negative x axis; pre-angle 4 (a half turn).
    let s = SamplePoint { x: JITTER_UNIT / 2, y: JITTER_UNIT };
    let f = to_poisson_disc_polar(&s, root);
    assert_eq!(f.r_num, den / 2);
    assert_eq!((f.phi_num, f.phi_den), (4 * (-(den / 2)), -(den / 2)));
    // (0.5, 0.25): on the negative y axis; pre-angle 6.
    let t = SamplePoint { x: JITTER_UNIT, y: JITTER_UNIT / 2 };
    let g = to_poisson_disc_polar(&t, root);
    assert_eq!(g.r_num, den / 2);
    assert_eq!((g.phi_num, g.phi_den), (6 * (-(den / 2)), -(den / 2)));
}

#[test]
fn disc_mapping_radius_never_leaves_the_disc() {
    let root = 3usize;
    let den = (2 * root as u64 * JITTER_UNIT) as i64;
    let mut s = SampleSource::from_seed(2024);
    for p in u_grid_jittered(&mut s, root) {
        let d = to_poisson_disc_polar(&p, root);
        assert!(0 <= d.r_num && d.r_num <= den);
        assert_ne!(d.phi_den, 0);
    }
}

#[test]
fn shuffle_of_one_column_is_trivial() {
    let mut s = SampleSource::from_seed(0);
    let m = MasterSampleSets::new(&mut s, 1, 0, 1);
    assert_eq!(m.shuffle_indices(&mut s), vec![0]);
}
