use vstd::prelude::*;
use crate::sampler::SamplePoint;
use crate::sampler::SampleSource;
use crate::sampler::isaac_word;
use crate::sampler::jittered_set;
use crate::sampler::u_grid_jittered;

verus! {

/// Words drawn from the generator for one jittered sample set: two per point.
pub open spec fn draws_per_set(root: int) -> int {
    2 * root * root
}

/// The identity index sequence `0, 1, ..., n - 1`.
pub open spec fn identity_seq(n: int) -> Seq<usize> {
    Seq::new(n as nat, |i: int| i as usize)
}

/// A sequence with the entries at `i` and `j` exchanged.
pub open spec fn swapped<A>(s: Seq<A>, i: int, j: int) -> Seq<A> {
    s.update(i, s[j]).update(j, s[i])
}

/// The identity index sequence of length `n` after the first `t` steps of the
/// shuffle a generator at `(seed, start)` drives: step `t` exchanges the entry
/// at `n - t` with one drawn at or below it.
pub open spec fn shuffled_after(seed: u64, start: int, n: int, t: int) -> Seq<usize>
    decreases t,
{
    if t <= 0 {
        identity_seq(n)
    } else {
        let prev = shuffled_after(seed, start, n, t - 1);
        let i = n - t;
        let j = (isaac_word(seed, start + t - 1) as int) % (i + 1);
        swapped(prev, i, j)
    }
}

/// The full shuffle of the identity index sequence of length `n`, as a
/// function of the generator's seed and position alone.
pub open spec fn shuffled_seq(seed: u64, start: int, n: int) -> Seq<usize> {
    if n <= 1 {
        identity_seq(n)
    } else {
        shuffled_after(seed, start, n, n - 1)
    }
}

/// Words the shuffle of `n` indices draws: one per exchange step.
pub open spec fn shuffle_draws(n: int) -> int {
    if n <= 1 {
        0
    } else {
        n - 1
    }
}

/// Exchanging two entries of a sequence does not change the multiset of its
/// entries.
proof fn lemma_swap_preserves_multiset<A>(s: Seq<A>, i: int, j: int)
    requires
        0 <= i < s.len(),
        0 <= j < s.len(),
    ensures
        swapped(s, i, j).to_multiset() == s.to_multiset(),
{
    broadcast use vstd::seq_lib::group_to_multiset_ensures;
    broadcast use vstd::multiset::group_multiset_axioms;

    let s1 = s.update(i, s[j]);
    assert(s.contains(s[i]));
    assert(s.contains(s[j]));
    assert(s1[j] == s[j]);
    assert(s1.contains(s1[j]));
    assert(swapped(s, i, j).to_multiset() =~= s.to_multiset());
}

/// Every step of the shuffle leaves a rearrangement of the identity
/// sequence: the multiset of entries never changes.
proof fn lemma_shuffled_after_multiset(seed: u64, start: int, n: int, t: int)
    requires
        1 <= n,
        0 <= t <= n - 1,
    ensures
        shuffled_after(seed, start, n, t).len() == n,
        shuffled_after(seed, start, n, t).to_multiset() == identity_seq(n).to_multiset(),
    decreases t,
{
    if t > 0 {
        lemma_shuffled_after_multiset(seed, start, n, t - 1);
        let prev = shuffled_after(seed, start, n, t - 1);
        let i = n - t;
        let j = (isaac_word(seed, start + t - 1) as int) % (i + 1);
        vstd::arithmetic::div_mod::lemma_mod_bound(isaac_word(seed, start + t - 1) as int, i + 1);
        lemma_swap_preserves_multiset(prev, i, j);
    }
}

/// A sequence whose entries form the multiset of the identity sequence has
/// every entry below `n`.
proof fn lemma_identity_multiset_entries_below(n: int, s: Seq<usize>, idx: int)
    requires
        s.to_multiset() == identity_seq(n).to_multiset(),
        0 <= idx < s.len(),
        0 <= n <= usize::MAX,
    ensures
        s[idx] < n,
{
    broadcast use vstd::seq_lib::group_to_multiset_ensures;

    assert(s.contains(s[idx]));
    assert(s.to_multiset().count(s[idx]) > 0);
    assert(identity_seq(n).to_multiset().count(s[idx]) > 0);
    assert(identity_seq(n).contains(s[idx]));
    let w = choose|w: int|
        0 <= w < identity_seq(n).len() && identity_seq(n)[w] == s[idx];
    assert(0 <= w < n);
    assert(identity_seq(n)[w] == w as usize);
    assert(s[idx] == w as usize);
}

/// All the sample sets one render draws up front, one bundle per image
/// column: a pixel-jitter set, a unit-square set meant for the lens-disc
/// mapping, and one unit-square set per recursion depth meant for the
/// hemisphere mapping. The disc and hemisphere mappings themselves are
/// floating-point work of the caller; the sets here are their exact
/// unit-square precursors.
pub struct MasterSampleSets {
    pub image_width: usize,
    pub pixel_sets: Vec<Vec<SamplePoint>>,
    pub disc_sets: Vec<Vec<SamplePoint>>,
    pub hemi_sets: Vec<Vec<Vec<SamplePoint>>>,
}

impl MasterSampleSets {
    /// The image width the sets were built for: one bundle per column.
    pub open spec fn width(&self) -> int {
        self.image_width as int
    }

    /// Draws every sample set for a render of `width` columns and up to
    /// `max_depth` bounces: first the pixel sets of every column, then the
    /// disc sets, then the hemisphere sets, depth-major within a column. The
    /// whole bundle is a function of the generator's seed and position alone.
    pub fn new(
        sampler: &mut SampleSource,
        sample_root: usize,
        max_depth: usize,
        width: usize,
    ) -> (m: MasterSampleSets)
        requires
            1 <= sample_root <= 0xFFFF,
        ensures
            m.width() == width,
            m.pixel_sets@.len() == width,
            forall|c: int|
                0 <= c < width ==> m.pixel_sets@[c]@ == jittered_set(
                    old(sampler).seed(),
                    old(sampler).drawn() + c * draws_per_set(sample_root as int),
                    sample_root as int,
                ),
            m.disc_sets@.len() == width,
            forall|c: int|
                0 <= c < width ==> m.disc_sets@[c]@ == jittered_set(
                    old(sampler).seed(),
                    old(sampler).drawn() + (width + c) * draws_per_set(sample_root as int),
                    sample_root as int,
                ),
            m.hemi_sets@.len() == width,
            forall|c: int| 0 <= c < width ==> m.hemi_sets@[c]@.len() == max_depth,
            forall|c: int, d: int|
                0 <= c < width && 0 <= d < max_depth ==> m.hemi_sets@[c]@[d]@ == jittered_set(
                    old(sampler).seed(),
                    old(sampler).drawn() + (2 * width + c * max_depth + d) * draws_per_set(
                        sample_root as int,
                    ),
                    sample_root as int,
                ),
            final(sampler).seed() == old(sampler).seed(),
            final(sampler).drawn() == old(sampler).drawn() + (2 * width + width * max_depth)
                * draws_per_set(sample_root as int),
    {
        let ghost seed0: u64 = sampler.seed();
        let ghost start0: int = sampler.drawn();
        let ghost dps: int = draws_per_set(sample_root as int);

        let mut pixel_sets: Vec<Vec<SamplePoint>> = Vec::new();
        let mut c: usize = 0;
        while c < width
            invariant
                1 <= sample_root <= 0xFFFF,
                0 <= c <= width,
                pixel_sets@.len() == c,
                sampler.seed() == seed0,
                sampler.drawn() == start0 + c * dps,
                dps == draws_per_set(sample_root as int),
                forall|t: int|
                    0 <= t < c ==> pixel_sets@[t]@ == jittered_set(
                        seed0,
                        start0 + t * dps,
                        sample_root as int,
                    ),
            decreases width - c,
        {
            let set = u_grid_jittered(sampler, sample_root);
            pixel_sets.push(set);
            proof {
                assert((c + 1) * dps == c * dps + dps) by (nonlinear_arith);
                assert(2 * (sample_root * sample_root) == dps) by (nonlinear_arith)
                    requires
                        dps == 2 * sample_root * sample_root,
                ;
            }
            c = c + 1;
        }

        let mut disc_sets: Vec<Vec<SamplePoint>> = Vec::new();
        let mut c2: usize = 0;
        while c2 < width
            invariant
                1 <= sample_root <= 0xFFFF,
                0 <= c2 <= width,
                disc_sets@.len() == c2,
                sampler.seed() == seed0,
                sampler.drawn() == start0 + (width + c2) * dps,
                dps == draws_per_set(sample_root as int),
                forall|t: int|
                    0 <= t < c2 ==> disc_sets@[t]@ == jittered_set(
                        seed0,
                        start0 + (width + t) * dps,
                        sample_root as int,
                    ),
            decreases width - c2,
        {
            let set = u_grid_jittered(sampler, sample_root);
            disc_sets.push(set);
            proof {
                assert((width + c2 + 1) * dps == (width + c2) * dps + dps) by (nonlinear_arith);
                assert(2 * (sample_root * sample_root) == dps) by (nonlinear_arith)
                    requires
                        dps == 2 * sample_root * sample_root,
                ;
            }
            c2 = c2 + 1;
        }
        proof {
            assert((width + width as int) * dps == 2 * width * dps) by (nonlinear_arith);
        }

        let mut hemi_sets: Vec<Vec<Vec<SamplePoint>>> = Vec::new();
        let mut c3: usize = 0;
        while c3 < width
            invariant
                1 <= sample_root <= 0xFFFF,
                0 <= c3 <= width,
                hemi_sets@.len() == c3,
                sampler.seed() == seed0,
                sampler.drawn() == start0 + (2 * width + c3 * max_depth) * dps,
                dps == draws_per_set(sample_root as int),
                forall|t: int| 0 <= t < c3 ==> hemi_sets@[t]@.len() == max_depth,
                forall|t: int, d: int|
                    0 <= t < c3 && 0 <= d < max_depth ==> hemi_sets@[t]@[d]@ == jittered_set(
                        seed0,
                        start0 + (2 * width + t * max_depth + d) * dps,
                        sample_root as int,
                    ),
            decreases width - c3,
        {
            let mut column: Vec<Vec<SamplePoint>> = Vec::new();
            let mut d: usize = 0;
            while d < max_depth
                invariant
                    1 <= sample_root <= 0xFFFF,
                    0 <= d <= max_depth,
                    0 <= c3 < width,
                    column@.len() == d,
                    sampler.seed() == seed0,
                    sampler.drawn() == start0 + (2 * width + c3 * max_depth + d) * dps,
                    dps == draws_per_set(sample_root as int),
                    forall|e: int|
                        0 <= e < d ==> column@[e]@ == jittered_set(
                            seed0,
                            start0 + (2 * width + c3 * max_depth + e) * dps,
                            sample_root as int,
                        ),
                decreases max_depth - d,
            {
                let set = u_grid_jittered(sampler, sample_root);
                column.push(set);
                proof {
                    assert((2 * width + c3 * max_depth + d + 1) * dps == (2 * width + c3
                        * max_depth + d) * dps + dps) by (nonlinear_arith);
                    assert(2 * (sample_root * sample_root) == dps) by (nonlinear_arith)
                        requires
                            dps == 2 * sample_root * sample_root,
                    ;
                }
                d = d + 1;
            }
            hemi_sets.push(column);
            proof {
                assert((2 * width + (c3 + 1) * max_depth) * dps == (2 * width + c3 * max_depth
                    + max_depth) * dps) by (nonlinear_arith);
            }
            c3 = c3 + 1;
        }
        proof {
            assert((2 * width + width * max_depth) * dps == (2 * width as int + width * max_depth)
                * dps) by (nonlinear_arith);
        }

        MasterSampleSets { image_width: width, pixel_sets, disc_sets, hemi_sets }
    }

    /// A fresh random assignment of sample-set bundles to image columns: the
    /// identity index sequence `0..width`, shuffled by exchange steps driven
    /// by the given generator. The result always holds each index below
    /// `width` exactly once, and which rearrangement comes out is a function
    /// of the generator's seed and position alone.
    pub fn shuffle_indices(&self, s: &mut SampleSource) -> (v: Vec<usize>)
        ensures
            v@ == shuffled_seq(old(s).seed(), old(s).drawn(), self.width()),
            v@.len() == self.width(),
            v@.to_multiset() == identity_seq(self.width()).to_multiset(),
            forall|idx: int| 0 <= idx < self.width() ==> v@[idx] < self.width(),
            final(s).seed() == old(s).seed(),
            final(s).drawn() == old(s).drawn() + shuffle_draws(self.width()),
    {
        let n = self.image_width;
        let ghost seed0: u64 = s.seed();
        let ghost start0: int = s.drawn();
        let mut v: Vec<usize> = Vec::new();
        let mut i: usize = 0;
        while i < n
            invariant
                0 <= i <= n,
                v@.len() == i,
                forall|t: int| 0 <= t < i ==> v@[t] == t as usize,
            decreases n - i,
        {
            v.push(i);
            i = i + 1;
        }
        proof {
            assert(v@ =~= identity_seq(n as int));
        }
        if n >= 2 {
            let mut t: usize = 0;
            while t < n - 1
                invariant
                    2 <= n,
                    0 <= t <= n - 1,
                    v@.len() == n,
                    v@ == shuffled_after(seed0, start0, n as int, t as int),
                    s.seed() == seed0,
                    s.drawn() == start0 + t,
                decreases n - 1 - t,
            {
                let pos = n - 1 - t;
                let w = s.next_word();
                let j = (w % (pos as u64 + 1)) as usize;
                proof {
                    vstd::arithmetic::div_mod::lemma_mod_bound(w as int, pos as int + 1);
                    lemma_shuffled_after_multiset(seed0, start0, n as int, t as int);
                }
                let a = v[pos];
                let b = v[j];
                v.set(pos, b);
                v.set(j, a);
                proof {
                    assert(v@ =~= shuffled_after(seed0, start0, n as int, t as int + 1));
                }
                t = t + 1;
            }
        }
        proof {
            assert(v@ == shuffled_seq(seed0, start0, n as int));
            if n as int >= 1 {
                lemma_shuffled_after_multiset(seed0, start0, n as int, shuffle_draws(n as int));
            } else {
                assert(v@ =~= identity_seq(n as int));
            }
            assert forall|idx: int| 0 <= idx < n implies v@[idx] < n by {
                lemma_identity_multiset_entries_below(n as int, v@, idx);
            }
        }
        v
    }
}

} // verus!
