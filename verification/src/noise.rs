//! The lattice hash under the value noise: a pure function from integer
//! lattice points to a fixed-point value between -1 and 1.
//!
//! Values are carried as integers in units of 2^-30, so that one unit of the
//! hash is `UNIT` and the whole range is `-UNIT ..= UNIT`.

use vstd::prelude::*;
use vstd::arithmetic::div_mod::{
    lemma_add_mod_noop, lemma_mod_bound, lemma_mod_multiples_vanish, lemma_mul_mod_noop,
    lemma_mul_mod_noop_general,
};

verus! {

/// The fixed-point representation of 1.
pub const UNIT: i32 = 0x4000_0000;

/// The low 32 bits of an integer, as an unsigned word.
pub open spec fn fold32(s: int) -> u32 {
    (s % 0x1_0000_0000) as u32
}

/// Mixes the high bits of a word into its low ones.
pub open spec fn stir(k: u32) -> u32 {
    (k << 13) ^ k
}

/// The cubic scrambling polynomial, reduced to 31 bits.
pub open spec fn scramble(n: int) -> int {
    (n * (n * n * 15731 + 789221) + 1376312589) % 0x8000_0000
}

/// The hash value of a lattice seed, in units of 2^-30.
pub open spec fn lattice_value(seed: int) -> int {
    0x4000_0000 - scramble(stir(fold32(seed)) as int)
}

/// The hash of a point of the plane lattice, in units of 2^-30.
pub open spec fn hash2d(x: int, y: int) -> int {
    lattice_value(x + y * 57)
}

/// The hash of a point of the space lattice, in units of 2^-30.
pub open spec fn hash3d(x: int, y: int, z: int) -> int {
    lattice_value(x + y * 57 + z * 131)
}

/// Every lattice value lies in the half-open range from -1 to 1, 1 included.
pub proof fn lemma_lattice_value_bounds(seed: int)
    ensures
        -0x4000_0000 < lattice_value(seed) <= 0x4000_0000,
{
    let n = stir(fold32(seed)) as int;
    lemma_mod_bound(n * (n * n * 15731 + 789221) + 1376312589, 0x8000_0000);
}

/// Both hashes stay between -1 and 1 at every lattice point.
pub proof fn lemma_hash_bounds(x: int, y: int, z: int)
    ensures
        -0x4000_0000 < hash2d(x, y) <= 0x4000_0000,
        -0x4000_0000 < hash3d(x, y, z) <= 0x4000_0000,
{
    lemma_lattice_value_bounds(x + y * 57);
    lemma_lattice_value_bounds(x + y * 57 + z * 131);
}

/// Reducing the argument to 31 bits first does not change the scrambled value.
proof fn lemma_scramble_reduced(n: int, a: int, sq: int, t: int, u: int)
    requires
        a == n % 0x8000_0000,
        sq == (a * a) % 0x8000_0000,
        t == (sq * 15731 + 789221) % 0x8000_0000,
        u == (a * t + 1376312589) % 0x8000_0000,
    ensures
        u == scramble(n),
{
    let m = 0x8000_0000int;
    // sq is n*n reduced
    lemma_mul_mod_noop(n, n, m);
    assert(sq == (n * n) % m);
    // t is n*n*15731 + 789221 reduced
    lemma_mul_mod_noop_general(n * n, 15731, m);
    assert((sq * 15731) % m == (n * n * 15731) % m);
    lemma_add_mod_noop(sq * 15731, 789221, m);
    lemma_add_mod_noop(n * n * 15731, 789221, m);
    let inner = n * n * 15731 + 789221;
    assert(t == inner % m);
    // u is n*inner + c reduced
    lemma_mul_mod_noop(n, inner, m);
    assert((a * t) % m == (n * inner) % m);
    lemma_add_mod_noop(a * t, 1376312589, m);
    lemma_add_mod_noop(n * inner, 1376312589, m);
}

/// The lattice value of `seed`.
fn seed_value(seed: i64) -> (value: i32)
    requires
        -0x100_0000_0000 <= seed < 0x100_0000_0000,
    ensures
        value == lattice_value(seed as int),
        -0x4000_0000 < value <= 0x4000_0000,
{
    // 256 * 2^32 lifts the seed above zero without touching its low 32 bits.
    let lifted: u64 = (seed + 0x100_0000_0000) as u64;
    proof {
        lemma_mod_multiples_vanish(256, seed as int, 0x1_0000_0000);
    }
    let k: u32 = (lifted % 0x1_0000_0000) as u32;
    let n: u64 = ((k << 13) ^ k) as u64;
    let a: u64 = n % 0x8000_0000;
    assert(a * a <= 0x7fff_ffff * 0x7fff_ffff) by (nonlinear_arith)
        requires
            a <= 0x7fff_ffff,
    ;
    let sq: u64 = (a * a) % 0x8000_0000;
    let t: u64 = (sq * 15731 + 789221) % 0x8000_0000;
    assert(a * t <= 0x7fff_ffff * 0x7fff_ffff) by (nonlinear_arith)
        requires
            a <= 0x7fff_ffff,
            t <= 0x7fff_ffff,
    ;
    let u: u64 = (a * t + 1376312589) % 0x8000_0000;
    proof {
        assert(k == fold32(seed as int));
        lemma_scramble_reduced(n as int, a as int, sq as int, t as int, u as int);
    }
    let value: i64 = 0x4000_0000 - (u as i64);
    value as i32
}

/// The lattice values at the corners of the plane cell whose least corner is
/// `(x, y)`: at `(x, y)`, `(x + 1, y)`, `(x, y + 1)` and `(x + 1, y + 1)`.
pub open spec fn corners2d(x: int, y: int) -> Seq<int> {
    seq![hash2d(x, y), hash2d(x + 1, y), hash2d(x, y + 1), hash2d(x + 1, y + 1)]
}

/// The lattice values at the corners of the space cell whose least corner is
/// `(x, y, z)`: the four of the plane cell at level `z`, then the four at
/// level `z + 1`.
pub open spec fn corners3d(x: int, y: int, z: int) -> Seq<int> {
    seq![
        hash3d(x, y, z),
        hash3d(x + 1, y, z),
        hash3d(x, y + 1, z),
        hash3d(x + 1, y + 1, z),
        hash3d(x, y, z + 1),
        hash3d(x + 1, y, z + 1),
        hash3d(x, y + 1, z + 1),
        hash3d(x + 1, y + 1, z + 1),
    ]
}

/// The hash of the plane lattice point `(x, y)`, in units of 2^-30.
pub fn hash2d_static(x: i32, y: i32) -> (value: i32)
    ensures
        value == hash2d(x as int, y as int),
        -UNIT < value <= UNIT,
{
    seed_value(x as i64 + (y as i64) * 57)
}

/// The hash of the space lattice point `(x, y, z)`, in units of 2^-30.
pub fn hash3d_static(x: i32, y: i32, z: i32) -> (value: i32)
    ensures
        value == hash3d(x as int, y as int, z as int),
        -UNIT < value <= UNIT,
{
    seed_value(x as i64 + (y as i64) * 57 + (z as i64) * 131)
}

/// The lattice values that value noise blends inside the plane cell whose
/// least corner is `(x, y)`.
pub fn cell_corners2d(x: i32, y: i32) -> (corners: [i32; 4])
    ensures
        corners@.map_values(|v: i32| v as int) == corners2d(x as int, y as int),
        forall|i: int| 0 <= i < 4 ==> -UNIT < #[trigger] corners@[i] <= UNIT,
{
    let base: i64 = x as i64 + (y as i64) * 57;
    let corners = [
        seed_value(base),
        seed_value(base + 1),
        seed_value(base + 57),
        seed_value(base + 58),
    ];
    assert(corners@.map_values(|v: i32| v as int) =~= corners2d(x as int, y as int));
    corners
}

/// The lattice values that value noise blends inside the space cell whose
/// least corner is `(x, y, z)`.
pub fn cell_corners3d(x: i32, y: i32, z: i32) -> (corners: [i32; 8])
    ensures
        corners@.map_values(|v: i32| v as int) == corners3d(x as int, y as int, z as int),
        forall|i: int| 0 <= i < 8 ==> -UNIT < #[trigger] corners@[i] <= UNIT,
{
    let base: i64 = x as i64 + (y as i64) * 57 + (z as i64) * 131;
    let corners = [
        seed_value(base),
        seed_value(base + 1),
        seed_value(base + 57),
        seed_value(base + 58),
        seed_value(base + 131),
        seed_value(base + 132),
        seed_value(base + 188),
        seed_value(base + 189),
    ];
    assert(corners@.map_values(|v: i32| v as int) =~= corners3d(x as int, y as int, z as int));
    corners
}

/// At a lattice point the first corner of its cell is the hash of the point
/// itself: noise that gives the first corner full weight there returns the
/// hash exactly.
pub proof fn lemma_first_corner_is_hash(x: int, y: int, z: int)
    ensures
        corners2d(x, y)[0] == hash2d(x, y),
        corners3d(x, y, z)[0] == hash3d(x, y, z),
{
}

} // verus!
