use vstd::prelude::*;

verus! {

/// Number of fixed-point units that stand for a channel value of 1.0.
/// A channel of `2 * COLOR_ONE` units is the over-bright value 2.0, and so on.
pub const COLOR_ONE: u32 = 65536;

/// A color of three non-negative channels, each held in fixed-point units of
/// `1 / COLOR_ONE`. Channels may exceed `COLOR_ONE` (over-bright light) until
/// tone mapping caps them.
#[derive(Clone, Copy, PartialEq, Eq, Structural, Debug)]
pub struct Color {
    pub r: u32,
    pub g: u32,
    pub b: u32,
}

/// The sum of two channels, capped at the largest representable value.
pub open spec fn sat_add_units(a: u32, b: u32) -> u32 {
    if a + b > u32::MAX {
        u32::MAX
    } else {
        (a + b) as u32
    }
}

/// The product of two channels in fixed-point form: `a * b / COLOR_ONE`,
/// capped at the largest representable value.
pub open spec fn fixed_mul_units(a: u32, b: u32) -> u32 {
    if a * b / (COLOR_ONE as int) > u32::MAX {
        u32::MAX
    } else {
        (a * b / (COLOR_ONE as int)) as u32
    }
}

/// The largest of three channel values.
pub open spec fn max_channel(c: Color) -> u32 {
    if c.r >= c.g && c.r >= c.b {
        c.r
    } else if c.g >= c.b {
        c.g
    } else {
        c.b
    }
}

/// The color a `max_to_one` call leaves behind: unchanged when no channel
/// exceeds 1.0, otherwise every channel rescaled by `COLOR_ONE / max`, which
/// brings the largest channel to exactly 1.0 and keeps the channel ratios.
pub open spec fn max_to_one_spec(c: Color) -> Color {
    let m = max_channel(c);
    if m <= COLOR_ONE {
        c
    } else {
        Color {
            r: (c.r * COLOR_ONE / (m as int)) as u32,
            g: (c.g * COLOR_ONE / (m as int)) as u32,
            b: (c.b * COLOR_ONE / (m as int)) as u32,
        }
    }
}

impl Color {
    pub fn new(r: u32, g: u32, b: u32) -> (c: Color)
        ensures
            c == (Color { r, g, b }),
    {
        Color { r, g, b }
    }

    /// A gray color: the same value in all three channels.
    pub fn all(v: u32) -> (c: Color)
        ensures
            c == (Color { r: v, g: v, b: v }),
    {
        Color { r: v, g: v, b: v }
    }

    /// Component-wise addition, saturating at the largest channel value.
    pub fn add(self, other: Color) -> (c: Color)
        ensures
            c.r == sat_add_units(self.r, other.r),
            c.g == sat_add_units(self.g, other.g),
            c.b == sat_add_units(self.b, other.b),
    {
        Color {
            r: sat_add(self.r, other.r),
            g: sat_add(self.g, other.g),
            b: sat_add(self.b, other.b),
        }
    }

    /// Component-wise fixed-point multiplication: multiplying by a color whose
    /// channels are all `COLOR_ONE` leaves a color unchanged.
    pub fn mul(self, other: Color) -> (c: Color)
        ensures
            c.r == fixed_mul_units(self.r, other.r),
            c.g == fixed_mul_units(self.g, other.g),
            c.b == fixed_mul_units(self.b, other.b),
    {
        Color {
            r: fixed_mul(self.r, other.r),
            g: fixed_mul(self.g, other.g),
            b: fixed_mul(self.b, other.b),
        }
    }

    /// Divides every channel by `n`, rounding down: the arithmetic mean step
    /// of pixel accumulation, with `n` the number of samples.
    pub fn div_by(self, n: u32) -> (c: Color)
        requires
            n >= 1,
        ensures
            c.r == self.r / n,
            c.g == self.g / n,
            c.b == self.b / n,
    {
        Color { r: self.r / n, g: self.g / n, b: self.b / n }
    }

    /// Rescales an over-bright color so its largest channel becomes exactly
    /// 1.0, preserving the channel ratios; a color already within range is
    /// left untouched.
    pub fn max_to_one(&mut self)
        ensures
            *final(self) == max_to_one_spec(*old(self)),
    {
        let m = max_3(self.r, self.g, self.b);
        assert(m == max_channel(*self));
        if m > COLOR_ONE {
            let r2 = rescale(self.r, m);
            let g2 = rescale(self.g, m);
            let b2 = rescale(self.b, m);
            self.r = r2;
            self.g = g2;
            self.b = b2;
        }
    }

    /// Square-root gamma correction of every channel, in fixed-point form:
    /// the result is the integer square root of `channel * COLOR_ONE`, so a
    /// channel of exactly 0.0, 0.25 or 1.0 maps to exactly 0.0, 0.5 or 1.0.
    pub fn gamma_corrected(self) -> (c: Color)
        ensures
            c.r == gamma_unit(self.r),
            c.g == gamma_unit(self.g),
            c.b == gamma_unit(self.b),
    {
        Color { r: gamma_channel(self.r), g: gamma_channel(self.g), b: gamma_channel(self.b) }
    }
}

/// Component-wise color sum, saturating per channel.
pub open spec fn color_add_spec(a: Color, b: Color) -> Color {
    Color {
        r: sat_add_units(a.r, b.r),
        g: sat_add_units(a.g, b.g),
        b: sat_add_units(a.b, b.b),
    }
}

/// Component-wise fixed-point color product.
pub open spec fn color_mul_spec(a: Color, b: Color) -> Color {
    Color {
        r: fixed_mul_units(a.r, b.r),
        g: fixed_mul_units(a.g, b.g),
        b: fixed_mul_units(a.b, b.b),
    }
}

/// Law: full-intensity white is the identity of color attenuation: a perfect
/// mirror's albedo passes light through unchanged.
pub proof fn lemma_white_attenuation_identity(c: Color)
    ensures
        color_mul_spec(Color { r: COLOR_ONE, g: COLOR_ONE, b: COLOR_ONE }, c) == c,
{
    lemma_fixed_mul_one(c.r);
    lemma_fixed_mul_one(c.g);
    lemma_fixed_mul_one(c.b);
}

proof fn lemma_fixed_mul_one(a: u32)
    ensures
        fixed_mul_units(COLOR_ONE, a) == a,
{
    assert(COLOR_ONE * a == (COLOR_ONE as int) * a) by (nonlinear_arith);
    vstd::arithmetic::div_mod::lemma_div_multiples_vanish(a as int, COLOR_ONE as int);
}

/// Law: `max_to_one` really clamps: afterwards no channel exceeds 1.0.
pub proof fn lemma_max_to_one_within_range(c: Color)
    ensures
        max_to_one_spec(c).r <= COLOR_ONE,
        max_to_one_spec(c).g <= COLOR_ONE,
        max_to_one_spec(c).b <= COLOR_ONE,
{
    let m = max_channel(c);
    if m > COLOR_ONE {
        lemma_rescale_bounded(c.r, m);
        lemma_rescale_bounded(c.g, m);
        lemma_rescale_bounded(c.b, m);
    }
}

proof fn lemma_rescale_bounded(x: u32, m: u32)
    requires
        x <= m,
        m >= 1,
    ensures
        x * COLOR_ONE / (m as int) <= COLOR_ONE,
{
    assert(x * (COLOR_ONE as int) <= m * (COLOR_ONE as int)) by (nonlinear_arith)
        requires
            x <= m,
    ;
    vstd::arithmetic::div_mod::lemma_div_is_ordered(
        x * (COLOR_ONE as int),
        m * (COLOR_ONE as int),
        m as int,
    );
    vstd::arithmetic::div_mod::lemma_div_multiples_vanish(COLOR_ONE as int, m as int);
}

/// Every channel divided by the sample count, rounding down.
pub open spec fn mean_spec(sum: Color, samples: u32) -> Color
    recommends
        samples >= 1,
{
    Color {
        r: (sum.r as int / samples as int) as u32,
        g: (sum.g as int / samples as int) as u32,
        b: (sum.b as int / samples as int) as u32,
    }
}

/// Every channel gamma-corrected.
pub open spec fn gamma_spec(c: Color) -> Color {
    Color { r: gamma_unit(c.r), g: gamma_unit(c.g), b: gamma_unit(c.b) }
}

/// What one accumulated pixel becomes: the arithmetic mean of its samples,
/// gamma-corrected, then clamped by `max_to_one`.
pub open spec fn tone_mapped(sum: Color, samples: u32) -> Color
    recommends
        samples >= 1,
{
    max_to_one_spec(gamma_spec(mean_spec(sum, samples)))
}

/// The whole per-pixel tone-mapping step, from the accumulated sample sum to
/// the stored pixel color: mean, square-root gamma, clamp.
pub fn finish_pixel(sum: Color, samples: u32) -> (c: Color)
    requires
        samples >= 1,
    ensures
        c == tone_mapped(sum, samples),
{
    let mut c = sum.div_by(samples).gamma_corrected();
    proof {
        assert(c == gamma_spec(mean_spec(sum, samples)));
    }
    c.max_to_one();
    c
}

/// The saturating sum of a sequence of colors, first to last.
pub open spec fn color_sum_spec(v: Seq<Color>) -> Color
    decreases v.len(),
{
    if v.len() == 0 {
        Color { r: 0, g: 0, b: 0 }
    } else {
        color_add_spec(color_sum_spec(v.drop_last()), v.last())
    }
}

/// One pixel of the render loop, whole: accumulate the per-sample colors,
/// take their mean, gamma-correct, clamp.
pub fn render_pixel(samples: &Vec<Color>) -> (c: Color)
    requires
        1 <= samples@.len() <= u32::MAX,
    ensures
        c == tone_mapped(color_sum_spec(samples@), samples@.len() as u32),
{
    let mut sum = Color { r: 0, g: 0, b: 0 };
    let mut i: usize = 0;
    while i < samples.len()
        invariant
            0 <= i <= samples@.len(),
            sum == color_sum_spec(samples@.take(i as int)),
        decreases samples@.len() - i,
    {
        proof {
            assert(samples@.take(i as int + 1).drop_last() =~= samples@.take(i as int));
            assert(samples@.take(i as int + 1).last() == samples@[i as int]);
        }
        sum = sum.add(samples[i]);
        i = i + 1;
    }
    proof {
        assert(samples@.take(samples@.len() as int) =~= samples@);
    }
    finish_pixel(sum, samples.len() as u32)
}

/// Law: a pixel all of whose samples are full-intensity white tone-maps to
/// exactly full intensity: the mean of `samples` samples of 1.0 is 1.0, the
/// square-root gamma correction fixes 1.0, and the clamp leaves it alone.
pub proof fn lemma_full_intensity_pixel(samples: u32)
    requires
        1 <= samples,
        samples * COLOR_ONE <= u32::MAX,
    ensures
        ({
            let sum = Color {
                r: (samples * COLOR_ONE) as u32,
                g: (samples * COLOR_ONE) as u32,
                b: (samples * COLOR_ONE) as u32,
            };
            tone_mapped(sum, samples) == (Color { r: COLOR_ONE, g: COLOR_ONE, b: COLOR_ONE })
        }),
{
    vstd::arithmetic::div_mod::lemma_div_multiples_vanish(COLOR_ONE as int, samples as int);
    assert(samples * COLOR_ONE == samples * (COLOR_ONE as int)) by (nonlinear_arith);
    let sum = Color {
        r: (samples * COLOR_ONE) as u32,
        g: (samples * COLOR_ONE) as u32,
        b: (samples * COLOR_ONE) as u32,
    };
    assert(mean_spec(sum, samples) == (Color { r: COLOR_ONE, g: COLOR_ONE, b: COLOR_ONE }));
    assert((COLOR_ONE as nat) * (COLOR_ONE as nat) < ((COLOR_ONE as nat) + 1) * ((
    COLOR_ONE as nat) + 1)) by (nonlinear_arith);
    lemma_sqrt_floor_unique((COLOR_ONE * COLOR_ONE) as nat, COLOR_ONE as nat);
    assert(gamma_unit(COLOR_ONE) == COLOR_ONE);
}

/// Pure black: the emitted radiance of every non-emissive material.
pub fn black() -> (c: Color)
    ensures
        c == (Color { r: 0, g: 0, b: 0 }),
{
    Color { r: 0, g: 0, b: 0 }
}

fn sat_add(a: u32, b: u32) -> (r: u32)
    ensures
        r == sat_add_units(a, b),
{
    let s: u64 = a as u64 + b as u64;
    if s > u32::MAX as u64 {
        u32::MAX
    } else {
        s as u32
    }
}

fn fixed_mul(a: u32, b: u32) -> (r: u32)
    ensures
        r == fixed_mul_units(a, b),
{
    proof {
        assert(a * b <= u32::MAX * u32::MAX) by (nonlinear_arith)
            requires
                a <= u32::MAX,
                b <= u32::MAX,
        ;
    }
    let p: u64 = (a as u64 * b as u64) / (COLOR_ONE as u64);
    if p > u32::MAX as u64 {
        u32::MAX
    } else {
        p as u32
    }
}

fn max_3(a: u32, b: u32, c: u32) -> (m: u32)
    ensures
        m == max_channel(Color { r: a, g: b, b: c }),
{
    if a >= b && a >= c {
        a
    } else if b >= c {
        b
    } else {
        c
    }
}

/// One channel of the `max_to_one` rescaling, for a color whose largest
/// channel is `m`.
fn rescale(c: u32, m: u32) -> (r: u32)
    requires
        c <= m,
        m > COLOR_ONE,
    ensures
        r == c * COLOR_ONE / (m as int),
{
    proof {
        assert(c * (COLOR_ONE as int) <= m * (COLOR_ONE as int)) by (nonlinear_arith)
            requires
                c <= m,
        ;
        assert(c * (COLOR_ONE as int) / (m as int) <= m * (COLOR_ONE as int) / (m as int)) by {
            vstd::arithmetic::div_mod::lemma_div_is_ordered(
                c * (COLOR_ONE as int),
                m * (COLOR_ONE as int),
                m as int,
            );
        }
        assert(m * (COLOR_ONE as int) / (m as int) == COLOR_ONE) by {
            vstd::arithmetic::div_mod::lemma_div_multiples_vanish(COLOR_ONE as int, m as int);
        }
    }
    ((c as u64 * COLOR_ONE as u64) / (m as u64)) as u32
}

/// The gamma-corrected value of one channel: the integer square root of
/// `c * COLOR_ONE`.
pub open spec fn gamma_unit(c: u32) -> u32 {
    sqrt_floor((c * COLOR_ONE) as nat) as u32
}

/// The integer square root: the largest `r` with `r * r <= n`.
pub open spec fn sqrt_floor(n: nat) -> nat {
    choose|r: nat| #[trigger] (r * r) <= n < (r + 1) * (r + 1)
}

/// The integer square root is well defined: exactly one value satisfies its
/// two bounds.
pub proof fn lemma_sqrt_floor_unique(n: nat, r: nat)
    requires
        r * r <= n < (r + 1) * (r + 1),
    ensures
        sqrt_floor(n) == r,
{
    assert(exists|q: nat| #[trigger] (q * q) <= n < (q + 1) * (q + 1)) by {
        assert(r * r <= n < (r + 1) * (r + 1));
    }
    let q = choose|q: nat| #[trigger] (q * q) <= n < (q + 1) * (q + 1);
    if q < r {
        assert((q + 1) * (q + 1) <= r * r) by (nonlinear_arith)
            requires
                q + 1 <= r,
        ;
    }
    if r < q {
        assert((r + 1) * (r + 1) <= q * q) by (nonlinear_arith)
            requires
                r + 1 <= q,
        ;
    }
}

fn gamma_channel(c: u32) -> (r: u32)
    ensures
        r == gamma_unit(c),
{
    proof {
        assert(c * COLOR_ONE <= u32::MAX * COLOR_ONE) by (nonlinear_arith)
            requires
                c <= u32::MAX,
        ;
    }
    let n: u64 = c as u64 * COLOR_ONE as u64;
    let s = isqrt64(n);
    proof {
        assert(s < 0x1_0000_0000) by (nonlinear_arith)
            requires
                s * s <= n,
                n < 0x1_0000_0000_0000_0000,
        ;
        lemma_sqrt_floor_unique(n as nat, s as nat);
    }
    s as u32
}

/// The integer square root of a 64-bit value, by binary search.
fn isqrt64(n: u64) -> (r: u64)
    ensures
        r * r <= n,
        n < (r + 1) * (r + 1),
{
    let mut lo: u64 = 0;
    let mut hi: u64 = 0x1_0000_0000;
    assert(hi * hi > n);
    while hi - lo > 1
        invariant
            lo < hi,
            hi <= 0x1_0000_0000,
            lo * lo <= n,
            n < hi * hi,
        decreases hi - lo,
    {
        let mid = lo + (hi - lo) / 2;
        proof {
            assert(mid * mid <= 0x1_0000_0000u64 * 0x1_0000_0000u64) by (nonlinear_arith)
                requires
                    mid <= 0x1_0000_0000u64,
            ;
        }
        if (mid as u128) * (mid as u128) <= n as u128 {
            lo = mid;
        } else {
            hi = mid;
        }
    }
    lo
}

} // verus!
