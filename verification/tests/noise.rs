use geometry_engine::noise::{cell_corners2d, cell_corners3d, hash2d_static, hash3d_static, UNIT};

fn wrapped_value(seed: i32) -> i32 {
    let n = (seed << 13) ^ seed;
    let m = n
        .wrapping_mul(n.wrapping_mul(n).wrapping_mul(15731).wrapping_add(789221))
        .wrapping_add(1376312589)
        & 0x7fffffff;
    UNIT - m
}

fn lattice_float(value: i32) -> f32 {
    1.0 - ((UNIT - value) as f32) / 1073741824.0
}

fn smooth(t: f32) -> f32 {
    t * t * (3.0 - 2.0 * t)
}

fn noise2d(x: f32, y: f32) -> f32 {
    let corners = cell_corners2d(x.floor() as i32, y.floor() as i32);
    let ux = smooth(x - x.floor());
    let uy = smooth(y - y.floor());
    let x1 = lattice_float(corners[0]) * (1.0 - ux) + lattice_float(corners[1]) * ux;
    let x2 = lattice_float(corners[2]) * (1.0 - ux) + lattice_float(corners[3]) * ux;
    x1 * (1.0 - uy) + x2 * uy
}

fn noise3d(x: f32, y: f32, z: f32) -> f32 {
    let c = cell_corners3d(x.floor() as i32, y.floor() as i32, z.floor() as i32);
    let ux = smooth(x - x.floor());
    let uy = smooth(y - y.floor());
    let uz = smooth(z - z.floor());
    let x1 = lattice_float(c[0]) * (1.0 - ux) + lattice_float(c[1]) * ux;
    let x2 = lattice_float(c[2]) * (1.0 - ux) + lattice_float(c[3]) * ux;
    let x3 = lattice_float(c[4]) * (1.0 - ux) + lattice_float(c[5]) * ux;
    let x4 = lattice_float(c[6]) * (1.0 - ux) + lattice_float(c[7]) * ux;
    let y1 = x1 * (1.0 - uy) + x2 * uy;
    let y2 = x3 * (1.0 - uy) + x4 * uy;
    y1 * (1.0 - uz) + y2 * uz
}

#[test]
fn hash_at_the_origin_has_its_exact_value() {
    // seed 0: the polynomial leaves its constant term, 1376312589 mod 2^31.
    assert_eq!(hash2d_static(0, 0), 1073741824 - 1376312589);
    assert_eq!(hash3d_static(0, 0, 0), 1073741824 - 1376312589);
}

#[test]
fn hash2d_follows_the_mixing_formula() {
    for x in -20i32..20 {
        for y in -20i32..20 {
            assert_eq!(hash2d_static(x, y), wrapped_value(x.wrapping_add(y.wrapping_mul(57))));
        }
    }
}

#[test]
fn hash3d_follows_the_mixing_formula() {
    for x in -6i32..6 {
        for y in -6i32..6 {
            for z in -6i32..6 {
                let seed = x.wrapping_add(y.wrapping_mul(57)).wrapping_add(z.wrapping_mul(131));
                assert_eq!(hash3d_static(x, y, z), wrapped_value(seed));
            }
        }
    }
}

#[test]
fn hash_wraps_at_the_ends_of_the_range() {
    let ends = [i32::MIN, i32::MIN + 1, -1, 0, 1, i32::MAX - 1, i32::MAX];
    for &x in &ends {
        for &y in &ends {
            assert_eq!(hash2d_static(x, y), wrapped_value(x.wrapping_add(y.wrapping_mul(57))));
            for &z in &ends {
                let seed = x.wrapping_add(y.wrapping_mul(57)).wrapping_add(z.wrapping_mul(131));
                assert_eq!(hash3d_static(x, y, z), wrapped_value(seed));
            }
        }
    }
}

#[test]
fn hash_stays_within_the_unit_range() {
    for x in -50i32..50 {
        for y in -50i32..50 {
            let value = hash2d_static(x * 7919, y * 104729);
            assert!(-UNIT < value && value <= UNIT);
            let value = hash3d_static(x, y, x * y);
            assert!(-UNIT < value && value <= UNIT);
            let float = lattice_float(value);
            assert!((-1.0..=1.0).contains(&float));
        }
    }
}

#[test]
fn hash_is_repeatable() {
    for x in -10i32..10 {
        for y in -10i32..10 {
            assert_eq!(hash2d_static(x, y), hash2d_static(x, y));
            assert_eq!(hash3d_static(x, y, x - y), hash3d_static(x, y, x - y));
        }
    }
}

#[test]
fn hash_depends_on_its_arguments() {
    assert_ne!(hash2d_static(0, 0), hash2d_static(1, 0));
    assert_ne!(hash2d_static(0, 0), hash2d_static(0, 1));
    assert_ne!(hash3d_static(0, 0, 0), hash3d_static(0, 0, 1));
}

#[test]
fn cell_corners_are_the_hashes_of_the_corners() {
    for x in -5i32..5 {
        for y in -5i32..5 {
            let corners = cell_corners2d(x, y);
            assert_eq!(corners[0], hash2d_static(x, y));
            assert_eq!(corners[1], hash2d_static(x + 1, y));
            assert_eq!(corners[2], hash2d_static(x, y + 1));
            assert_eq!(corners[3], hash2d_static(x + 1, y + 1));
            for z in -3i32..3 {
                let corners = cell_corners3d(x, y, z);
                assert_eq!(corners[0], hash3d_static(x, y, z));
                assert_eq!(corners[1], hash3d_static(x + 1, y, z));
                assert_eq!(corners[2], hash3d_static(x, y + 1, z));
                assert_eq!(corners[3], hash3d_static(x + 1, y + 1, z));
                assert_eq!(corners[4], hash3d_static(x, y, z + 1));
                assert_eq!(corners[5], hash3d_static(x + 1, y, z + 1));
                assert_eq!(corners[6], hash3d_static(x, y + 1, z + 1));
                assert_eq!(corners[7], hash3d_static(x + 1, y + 1, z + 1));
            }
        }
    }
}

#[test]
fn cell_corners_at_the_end_of_the_range_wrap_like_the_hash() {
    let corners = cell_corners2d(i32::MAX, i32::MAX);
    assert_eq!(corners[0], hash2d_static(i32::MAX, i32::MAX));
    assert_eq!(corners[1], hash2d_static(i32::MIN, i32::MAX));
    assert_eq!(corners[2], hash2d_static(i32::MAX, i32::MIN));
    assert_eq!(corners[3], hash2d_static(i32::MIN, i32::MIN));
}

#[test]
fn noise_at_lattice_points_is_the_hash() {
    for x in -8i32..8 {
        for y in -8i32..8 {
            assert_eq!(noise2d(x as f32, y as f32), lattice_float(hash2d_static(x, y)));
            for z in -3i32..3 {
                assert_eq!(
                    noise3d(x as f32, y as f32, z as f32),
                    lattice_float(hash3d_static(x, y, z))
                );
            }
        }
    }
}

#[test]
fn noise_stays_between_its_corners() {
    for i in 0..200 {
        let x = i as f32 * 0.137 - 11.0;
        let y = i as f32 * 0.291 - 23.0;
        let corners = cell_corners2d(x.floor() as i32, y.floor() as i32);
        let floats: Vec<f32> = corners.iter().map(|&c| lattice_float(c)).collect();
        let low = floats.iter().cloned().fold(f32::INFINITY, f32::min);
        let high = floats.iter().cloned().fold(f32::NEG_INFINITY, f32::max);
        let value = noise2d(x, y);
        assert!(low - 1e-5 <= value && value <= high + 1e-5);
        assert!((-1.0..=1.0).contains(&value));
        let value = noise3d(x, y, x - y);
        assert!((-1.00001..=1.00001).contains(&value));
    }
}
