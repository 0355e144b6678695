use vstd::prelude::*;
use rand::RngCore;
use rand::SeedableRng;

verus! {

/// Declares the ISAAC generator of the `rand_isaac` crate as an opaque
/// outside type, so that a value of it can stand in a field.
#[verifier::external_type_specification]
#[verifier::external_body]
pub struct ExIsaacRng(rand_isaac::IsaacRng);

/// The `i`-th 64-bit word drawn from an ISAAC generator seeded with `seed`.
/// ISAAC is a deterministic pseudo-random generator: for a fixed seed it
/// yields the same word stream on every run and machine, so the stream is a
/// function of the seed and the position alone.
pub uninterp spec fn isaac_word(seed: u64, i: int) -> u64;

/// One owned, seeded pseudo-random generator: every randomized sampling
/// operation draws from a value of this type, threaded explicitly through the
/// calls that need randomness. The ghost fields record the seed and how many
/// words have been drawn, so contracts can pin every randomized result to a
/// position in the seed-determined stream.
pub struct SampleSource {
    rng: rand_isaac::IsaacRng,
    seed: Ghost<u64>,
    drawn: Ghost<int>,
}

impl SampleSource {
    /// The seed this generator was built from.
    pub closed spec fn seed(&self) -> u64 {
        self.seed@
    }

    /// How many words have been drawn so far.
    pub closed spec fn drawn(&self) -> int {
        self.drawn@
    }

    /// Relies on `SeedableRng::seed_from_u64` for `rand_isaac::IsaacRng`: a
    /// deterministic constructor, documented to derive the same generator
    /// state from the same seed on every run and architecture.
    #[verifier::external_body]
    pub fn from_seed(seed: u64) -> (s: SampleSource)
        ensures
            s.seed() == seed,
            s.drawn() == 0,
    {
        SampleSource {
            rng: rand_isaac::IsaacRng::seed_from_u64(seed),
            seed: Ghost(seed),
            drawn: Ghost(0),
        }
    }

    /// Relies on `RngCore::next_u64` for `rand_isaac::IsaacRng`: each call
    /// returns the next word of the stream that the seed determines.
    #[verifier::external_body]
    pub fn next_word(&mut self) -> (w: u64)
        ensures
            final(self).seed() == old(self).seed(),
            final(self).drawn() == old(self).drawn() + 1,
            w == isaac_word(old(self).seed(), old(self).drawn()),
    {
        self.rng.next_u64()
    }
}

/// Relies on `rand::random` for a machine-entropy value; nothing is promised
/// of which value comes back.
#[verifier::external_body]
fn entropy_seed() -> (seed: u64)
{
    rand::random::<u64>()
}

/// A sample source seeded from machine entropy: renders that need no
/// reproducibility start here, tests seed with `from_seed` instead.
pub fn new() -> (s: SampleSource)
    ensures
        s.drawn() == 0,
{
    SampleSource::from_seed(entropy_seed())
}

/// Half of one grid cell, in numerator units: sample coordinates are exact
/// fractions with denominator `grid_denominator(root)`, and a jitter offset
/// is strictly smaller than this value in magnitude.
pub const JITTER_UNIT: u64 = 65536;

/// The common denominator of all sample coordinates of a `root`-by-`root`
/// grid: one grid cell spans `2 * JITTER_UNIT` numerator units.
pub open spec fn grid_denominator(root: int) -> int {
    2 * root * (JITTER_UNIT as int)
}

/// A point of the unit square, held exactly: the coordinates are the
/// numerators of fractions over `grid_denominator(root)`.
#[derive(Clone, Copy, PartialEq, Eq, Structural, Debug)]
pub struct SamplePoint {
    pub x: u64,
    pub y: u64,
}

/// The x numerator of the `k`-th regular grid point: the grid walks x in the
/// outer position, so `k / root` picks the x strip, and the point sits at the
/// center of its cell, half an increment away from the cell boundary.
pub open spec fn regular_x(root: int, k: int) -> int {
    (2 * (k / root) + 1) * (JITTER_UNIT as int)
}

/// The y numerator of the `k`-th regular grid point.
pub open spec fn regular_y(root: int, k: int) -> int {
    (2 * (k % root) + 1) * (JITTER_UNIT as int)
}

/// The `k`-th point of the regular grid, in row-major x-then-y order.
pub open spec fn regular_point(root: int, k: int) -> SamplePoint {
    SamplePoint { x: regular_x(root, k) as u64, y: regular_y(root, k) as u64 }
}

/// Law: the regular grid's points all lie strictly inside the open unit
/// square: every coordinate numerator is strictly between 0 and the
/// denominator.
pub proof fn lemma_regular_grid_strictly_inside(root: int, k: int)
    requires
        1 <= root,
        0 <= k < root * root,
    ensures
        0 < regular_x(root, k) < grid_denominator(root),
        0 < regular_y(root, k) < grid_denominator(root),
{
    lemma_strip_index_bound(root, k);
    vstd::arithmetic::div_mod::lemma_mod_bound(k, root);
}

/// The x strip of a point index is within the grid: `k / root < root`.
proof fn lemma_strip_index_bound(root: int, k: int)
    requires
        1 <= root,
        0 <= k < root * root,
    ensures
        0 <= k / root < root,
{
    vstd::arithmetic::div_mod::lemma_div_pos_is_pos(k, root);
    if k / root >= root {
        vstd::arithmetic::div_mod::lemma_fundamental_div_mod(k, root);
        vstd::arithmetic::div_mod::lemma_mod_bound(k, root);
        assert(root * root <= root * (k / root)) by (nonlinear_arith)
            requires
                1 <= root,
                root <= k / root,
        ;
    }
}

/// The regular grid: `root * root` points evenly spaced over the unit
/// square, each at the center of its grid cell. Deterministic: no randomness
/// is involved. The upper bound on `root` keeps the point count and every
/// coordinate numerator within machine range.
pub fn u_grid_regular(root: usize) -> (v: Vec<SamplePoint>)
    requires
        1 <= root <= 0xFFFF,
    ensures
        v@.len() == root * root,
        forall|k: int| 0 <= k < root * root ==> v@[k] == regular_point(root as int, k),
        forall|k: int|
            0 <= k < root * root ==> 0 < (#[trigger] v@[k]).x < grid_denominator(root as int) && 0
                < v@[k].y < grid_denominator(root as int),
{
    let mut v: Vec<SamplePoint> = Vec::new();
    let mut i: usize = 0;
    while i < root
        invariant
            1 <= root <= 0xFFFF,
            0 <= i <= root,
            v@.len() == i * root,
            forall|k: int| 0 <= k < i * root ==> v@[k] == regular_point(root as int, k),
        decreases root - i,
    {
        let mut j: usize = 0;
        proof {
            assert((i + 1) * root == i * root + root) by (nonlinear_arith);
            assert((i + 1) * root <= root * root) by (nonlinear_arith)
                requires
                    i + 1 <= root,
                    0 <= root,
            ;
        }
        while j < root
            invariant
                1 <= root <= 0xFFFF,
                0 <= i < root,
                0 <= j <= root,
                i * root + root <= root * root,
                v@.len() == i * root + j,
                forall|k: int| 0 <= k < i * root + j ==> v@[k] == regular_point(root as int, k),
            decreases root - j,
        {
            proof {
                assert(root * root <= 0xFFFF * 0xFFFF) by (nonlinear_arith)
                    requires
                        0 <= root <= 0xFFFF,
                ;
            }
            let k: usize = i * root + j;
            let p = SamplePoint {
                x: (2 * i as u64 + 1) * JITTER_UNIT,
                y: (2 * j as u64 + 1) * JITTER_UNIT,
            };
            proof {
                vstd::arithmetic::div_mod::lemma_fundamental_div_mod_converse(
                    k as int,
                    root as int,
                    i as int,
                    j as int,
                );
                assert(p == regular_point(root as int, k as int));
            }
            v.push(p);
            j = j + 1;
        }
        i = i + 1;
        proof {
            assert(i * root == (i - 1) * root + root) by (nonlinear_arith);
        }
    }
    proof {
        assert forall|k: int| 0 <= k < root * root implies 0 < (#[trigger] v@[k]).x
            < grid_denominator(root as int) && 0 < v@[k].y < grid_denominator(root as int) by {
            lemma_regular_grid_strictly_inside(root as int, k);
            assert(v@[k] == regular_point(root as int, k));
        }
    }
    v
}

/// The jitter offset a raw generator word stands for: a value between
/// `-(JITTER_UNIT - 1)` and `JITTER_UNIT - 1`, so strictly smaller in
/// magnitude than half a grid cell.
pub open spec fn jitter_offset(w: u64) -> int {
    (w as int) % (2 * (JITTER_UNIT as int) - 1) - ((JITTER_UNIT as int) - 1)
}

/// The x numerator of the `k`-th jittered grid point for a generator at
/// position `start` of the stream of `seed`: the regular point, perturbed by
/// the jitter offset of the `2k`-th word drawn.
pub open spec fn jittered_x(seed: u64, start: int, root: int, k: int) -> int {
    regular_x(root, k) + jitter_offset(isaac_word(seed, start + 2 * k))
}

/// The y numerator of the `k`-th jittered grid point; y draws the word after
/// x's.
pub open spec fn jittered_y(seed: u64, start: int, root: int, k: int) -> int {
    regular_y(root, k) + jitter_offset(isaac_word(seed, start + 2 * k + 1))
}

/// The `k`-th jittered grid point, as a function of the generator's seed and
/// stream position alone: two generators at the same seed and position yield
/// the same point.
pub open spec fn jittered_point(seed: u64, start: int, root: int, k: int) -> SamplePoint {
    SamplePoint {
        x: jittered_x(seed, start, root, k) as u64,
        y: jittered_y(seed, start, root, k) as u64,
    }
}

/// The whole jittered grid a generator at `(seed, start)` yields.
pub open spec fn jittered_set(seed: u64, start: int, root: int) -> Seq<SamplePoint> {
    Seq::new((root * root) as nat, |k: int| jittered_point(seed, start, root, k))
}

/// Law: every jittered point stays strictly within half a grid cell of its
/// regular-grid counterpart in both axes, and so stays strictly inside the
/// open unit square.
pub proof fn lemma_jittered_grid_in_cell(seed: u64, start: int, root: int, k: int)
    requires
        1 <= root,
        0 <= k < root * root,
    ensures
        -(JITTER_UNIT as int) < jittered_x(seed, start, root, k) - regular_x(root, k)
            < JITTER_UNIT as int,
        -(JITTER_UNIT as int) < jittered_y(seed, start, root, k) - regular_y(root, k)
            < JITTER_UNIT as int,
        0 < jittered_x(seed, start, root, k) < grid_denominator(root),
        0 < jittered_y(seed, start, root, k) < grid_denominator(root),
{
    lemma_regular_grid_strictly_inside(root, k);
    lemma_jitter_offset_bounded(isaac_word(seed, start + 2 * k));
    lemma_jitter_offset_bounded(isaac_word(seed, start + 2 * k + 1));
    lemma_strip_index_bound(root, k);
    vstd::arithmetic::div_mod::lemma_mod_bound(k, root);
    assert((2 * (k / root) + 1) * (JITTER_UNIT as int) <= (2 * root - 1) * (JITTER_UNIT as int));
    assert((2 * (k % root) + 1) * (JITTER_UNIT as int) <= (2 * root - 1) * (JITTER_UNIT as int));
}

/// A jitter offset is strictly smaller in magnitude than `JITTER_UNIT`.
proof fn lemma_jitter_offset_bounded(w: u64)
    ensures
        -((JITTER_UNIT as int) - 1) <= jitter_offset(w) <= (JITTER_UNIT as int) - 1,
{
    vstd::arithmetic::div_mod::lemma_mod_bound(w as int, 2 * (JITTER_UNIT as int) - 1);
}

/// The stratified grid: the regular grid with every point perturbed, in each
/// axis, by a uniform random offset strictly smaller than half a grid cell.
/// The result is a function of the generator's seed and position alone, and
/// the call draws exactly two words per point.
pub fn u_grid_jittered(s: &mut SampleSource, root: usize) -> (v: Vec<SamplePoint>)
    requires
        1 <= root <= 0xFFFF,
    ensures
        v@ == jittered_set(old(s).seed(), old(s).drawn(), root as int),
        v@.len() == root * root,
        forall|k: int|
            0 <= k < root * root ==> 0 < (#[trigger] v@[k]).x < grid_denominator(root as int) && 0
                < v@[k].y < grid_denominator(root as int),
        forall|k: int|
            0 <= k < root * root ==> regular_x(root as int, k) - JITTER_UNIT < (
            #[trigger] v@[k]).x < regular_x(root as int, k) + JITTER_UNIT && regular_y(
                root as int,
                k,
            ) - JITTER_UNIT < v@[k].y < regular_y(root as int, k) + JITTER_UNIT,
        final(s).seed() == old(s).seed(),
        final(s).drawn() == old(s).drawn() + 2 * root * root,
{
    let regular = u_grid_regular(root);
    let n = regular.len();
    let mut v: Vec<SamplePoint> = Vec::new();
    let mut k: usize = 0;
    while k < n
        invariant
            1 <= root <= 0xFFFF,
            n == root * root,
            regular@.len() == n,
            forall|t: int| 0 <= t < n ==> regular@[t] == regular_point(root as int, t),
            0 <= k <= n,
            v@.len() == k,
            s.seed() == old(s).seed(),
            s.drawn() == old(s).drawn() + 2 * k,
            forall|t: int|
                0 <= t < k ==> v@[t] == jittered_point(
                    old(s).seed(),
                    old(s).drawn(),
                    root as int,
                    t,
                ),
        decreases n - k,
    {
        let rp = regular[k];
        let wx = s.next_word();
        let wy = s.next_word();
        let jx: u64 = wx % (2 * JITTER_UNIT - 1);
        let jy: u64 = wy % (2 * JITTER_UNIT - 1);
        proof {
            lemma_strip_index_bound(root as int, k as int);
            vstd::arithmetic::div_mod::lemma_mod_bound(k as int, root as int);
            assert(rp == regular_point(root as int, k as int));
            assert(JITTER_UNIT <= regular_x(root as int, k as int) <= (2 * 0xFFFF - 1) * (
            JITTER_UNIT as int));
            assert(JITTER_UNIT <= regular_y(root as int, k as int) <= (2 * 0xFFFF - 1) * (
            JITTER_UNIT as int));
        }
        let p = SamplePoint {
            x: rp.x - (JITTER_UNIT - 1) + jx,
            y: rp.y - (JITTER_UNIT - 1) + jy,
        };
        v.push(p);
        k = k + 1;
    }
    proof {
        assert(v@ =~= jittered_set(old(s).seed(), old(s).drawn(), root as int));
        assert(2 * root * root == 2 * (root * root)) by (nonlinear_arith);
        assert forall|t: int| 0 <= t < root * root implies 0 < (#[trigger] v@[t]).x
            < grid_denominator(root as int) && 0 < v@[t].y < grid_denominator(root as int)
            && regular_x(root as int, t) - JITTER_UNIT < v@[t].x < regular_x(root as int, t)
            + JITTER_UNIT && regular_y(root as int, t) - JITTER_UNIT < v@[t].y < regular_y(
            root as int,
            t,
        ) + JITTER_UNIT by {
            lemma_jittered_grid_in_cell(old(s).seed(), old(s).drawn(), root as int, t);
        }
    }
    v
}

/// The exact half of the concentric disc mapping of one unit-square point:
/// a radius and a pre-angle, both exact fractions. The mapping centers the
/// square, picks one of its eight octants by sign comparisons, takes the
/// larger centered coordinate as the radius, and a ratio of the two as the
/// angle in units of an eighth turn. Scaling that pre-angle by a quarter pi
/// and taking its sine and cosine is floating-point work left to the caller.
#[derive(Clone, Copy, PartialEq, Eq, Structural, Debug)]
pub struct DiscPolar {
    /// Numerator of the radius, over the point's grid denominator.
    pub r_num: i64,
    /// Numerator of the pre-angle fraction.
    pub phi_num: i64,
    /// Denominator of the pre-angle fraction; never zero.
    pub phi_den: i64,
}

/// The x coordinate of a point, centered on the square: a numerator over the
/// grid denominator, so a fraction between -1 and 1.
pub open spec fn centered_x(p: SamplePoint, root: int) -> int {
    2 * p.x - grid_denominator(root)
}

/// The y coordinate of a point, centered.
pub open spec fn centered_y(p: SamplePoint, root: int) -> int {
    2 * p.y - grid_denominator(root)
}

/// Maps one unit-square point toward the unit disc: everything of the
/// concentric (octant-wise) mapping that is exact arithmetic — the octant
/// choice, the radius, and the pre-angle fraction that a quarter-pi scaling
/// turns into the polar angle.
pub fn to_poisson_disc_polar(p: &SamplePoint, root: usize) -> (d: DiscPolar)
    requires
        1 <= root <= 0xFFFF,
        p.x <= grid_denominator(root as int),
        p.y <= grid_denominator(root as int),
    ensures
        ({
            let sx = centered_x(*p, root as int);
            let sy = centered_y(*p, root as int);
            &&& (sx > -sy && sx > sy ==> d == (DiscPolar {
                r_num: sx as i64,
                phi_num: sy as i64,
                phi_den: sx as i64,
            }))
            &&& (sx > -sy && sx <= sy ==> d == (DiscPolar {
                r_num: sy as i64,
                phi_num: (2 * sy - sx) as i64,
                phi_den: sy as i64,
            }))
            &&& (sx <= -sy && sx < sy ==> d == (DiscPolar {
                r_num: (-sx) as i64,
                phi_num: (4 * sx + sy) as i64,
                phi_den: sx as i64,
            }))
            &&& (sx <= -sy && sx >= sy && sy != 0 ==> d == (DiscPolar {
                r_num: (-sy) as i64,
                phi_num: (6 * sy - sx) as i64,
                phi_den: sy as i64,
            }))
            &&& (sx <= -sy && sx >= sy && sy == 0 ==> d == (DiscPolar {
                r_num: (-sy) as i64,
                phi_num: 0,
                phi_den: 1,
            }))
            &&& 0 <= d.r_num <= grid_denominator(root as int)
            &&& d.phi_den != 0
        }),
{
    let den: i64 = 2 * (root as i64) * (JITTER_UNIT as i64);
    let sx: i64 = 2 * (p.x as i64) - den;
    let sy: i64 = 2 * (p.y as i64) - den;

    if sx > -sy {
        if sx > sy {
            DiscPolar { r_num: sx, phi_num: sy, phi_den: sx }
        } else {
            DiscPolar { r_num: sy, phi_num: 2 * sy - sx, phi_den: sy }
        }
    } else {
        if sx < sy {
            DiscPolar { r_num: -sx, phi_num: 4 * sx + sy, phi_den: sx }
        } else {
            if sy != 0 {
                DiscPolar { r_num: -sy, phi_num: 6 * sy - sx, phi_den: sy }
            } else {
                DiscPolar { r_num: -sy, phi_num: 0, phi_den: 1 }
            }
        }
    }
}

} // verus!
