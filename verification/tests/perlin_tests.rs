use raytracer::perlin::Perlin;
use raytracer::scalar::ONE;
use raytracer::vec3::{Vec3, Vector};

fn identity() -> Vec<usize> {
    (0..256).collect()
}

fn along_x() -> Vec<Vector> {
    vec![Vec3::new(ONE, 0, 0); 256]
}

#[test]
fn tables_must_be_permutations() {
    assert!(Perlin::from_tables(along_x(), identity(), identity(), identity()).is_some());
    let mut short = identity();
    short.pop();
    assert!(Perlin::from_tables(along_x(), short, identity(), identity()).is_none());
    let mut twice = identity();
    twice[7] = 8;
    assert!(Perlin::from_tables(along_x(), identity(), twice.clone(), identity()).is_none());
    assert!(!Perlin::check_perm(&twice));
    let mut high = identity();
    high[255] = 256;
    assert!(Perlin::from_tables(along_x(), identity(), identity(), high).is_none());
    assert!(Perlin::from_tables(vec![Vec3::zero(); 255], identity(), identity(), identity()).is_none());
    let mut turned = identity();
    turned.reverse();
    assert!(Perlin::check_perm(&turned));
}

#[test]
fn noise_is_nothing_at_the_lattice_points() {
    let noise = Perlin::new();
    for i in -3..4 {
        for j in -3..4 {
            assert_eq!(noise.noise(&Vec3::new(i * ONE, j * ONE, (i + j) * ONE)), 0);
        }
    }
}

#[test]
fn noise_along_one_vector() {
    // Every lattice vector points along the first axis: at the place (u, v, w) of a cell
    // the noise is u (1 - s) + (u - 1) s with the smooth step s = u^2 (3 - 2 u).
    let noise = Perlin::from_tables(along_x(), identity(), identity(), identity()).unwrap();
    let at = |u: i64| noise.noise(&Vec3::new(5 * ONE + u, 3 * ONE / 4, -ONE / 3));
    let want = |u: f64| {
        let s = u * u * (3.0 - 2.0 * u);
        u * (1.0 - s) + (u - 1.0) * s
    };
    for u in [ONE / 4, ONE / 2, 3 * ONE / 4, ONE / 10] {
        let got = at(u) as f64 / 1e9;
        assert!((got - want(u as f64 / 1e9)).abs() < 1e-7, "at {}: {}", u, got);
    }
    assert_eq!(at(ONE / 2), 0);
}

#[test]
fn the_same_tables_give_the_same_noise() {
    let mut tables = identity();
    tables.rotate_left(17);
    let vectors: Vec<Vector> =
        (0..256).map(|k| Vec3::new((k % 7 - 3) * ONE / 3, (k % 5 - 2) * ONE / 2, (k % 3 - 1) * ONE)).collect();
    let a = Perlin::from_tables(vectors.clone(), identity(), tables.clone(), identity()).unwrap();
    let b = Perlin::from_tables(vectors, identity(), tables, identity()).unwrap();
    for k in 0..100 {
        let at = Vec3::new(k * 123_456_789, -k * 77_777_777, k * 31_415_926);
        assert_eq!(a.noise(&at), b.noise(&at));
        assert_eq!(a.turb(&at, 7), b.turb(&at, 7));
    }
}

#[test]
fn turbulence_adds_up_octaves() {
    let noise = Perlin::from_tables(along_x(), identity(), identity(), identity()).unwrap();
    let at = Vec3::new(ONE / 4, 0, 0);
    assert_eq!(noise.turb(&at, 0), 0);
    assert_eq!(noise.turb(&at, -3), 0);
    assert_eq!(noise.turb(&at, 1), noise.noise(&at).abs());
    let two = noise.noise(&at) + noise.noise(&at.scaled(2 * ONE)) / 2;
    assert!((noise.turb(&at, 2) - two.abs()).abs() <= 1);
    for k in 0..50 {
        assert!(noise.turb(&Vec3::new(k * 99_999_999, k * 3, -k), 7) >= 0);
    }
}

#[test]
fn blending_the_corners_of_a_cell() {
    let corners = vec![Vec3::new(0, 0, ONE); 8];
    // With the same vector at every corner the weights add up to one at the
    // middle of the cell, and the ways to the corners cancel.
    assert_eq!(Perlin::perlin_interp(&corners, ONE / 2, ONE / 2, ONE / 2), 0);
    // At a corner only that corner counts, and the way to it is nothing.
    assert_eq!(Perlin::perlin_interp(&corners, 0, 0, 0), 0);
    // Along the third axis: w (1 - s) + (w - 1) s.
    let got = Perlin::perlin_interp(&corners, 0, 0, ONE / 4) as f64 / 1e9;
    let s = 0.25 * 0.25 * 2.5;
    assert!((got - (0.25 * (1.0 - s) - 0.75 * s)).abs() < 1e-8);
}

#[test]
fn fresh_noise_stays_small() {
    let noise = Perlin::default();
    let mut moved = false;
    for k in 0..500 {
        let at = Vec3::new(k * 37_000_001, k * 91_000_003, -k * 13_000_007);
        let n = noise.noise(&at);
        // The lattice vectors are longer than one, and at most as long as a draw allows.
        assert!(n.abs() < 1_000 * ONE);
        if n != 0 {
            moved = true;
        }
    }
    assert!(moved);
}

#[test]
fn a_shuffle_follows_its_draws() {
    // Every place draws itself: nothing moves.
    let mut table = identity();
    let own: Vec<usize> = (1..256).rev().collect();
    Perlin::permute_with(&mut table, &own);
    assert_eq!(table, identity());
    // Every place draws the first: the numbers move one place down.
    let mut table = identity();
    Perlin::permute_with(&mut table, &vec![0; 255]);
    let mut want: Vec<usize> = (1..256).collect();
    want.push(0);
    assert_eq!(table, want);
    assert!(Perlin::check_perm(&table));
}

#[test]
fn a_shuffle_changes_two_numbers_at_each_draw() {
    // Only the last place draws another: the numbers at 255 and 3 change.
    let mut draws: Vec<usize> = (1..256).rev().collect();
    draws[0] = 3;
    let mut table = identity();
    Perlin::permute_with(&mut table, &draws);
    let mut want = identity();
    want.swap(255, 3);
    assert_eq!(table, want);
    // A table that is no permutation is shuffled all the same.
    let mut sevens = vec![7usize; 256];
    sevens[255] = 9;
    Perlin::permute_with(&mut sevens, &draws);
    assert_eq!(sevens[3], 9);
    assert_eq!(sevens[255], 7);
}
