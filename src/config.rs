//! Generation settings and the octave schedule derived from them.
use vstd::arithmetic::power::{lemma_pow0, lemma_pow1, lemma_pow_adds, lemma_pow_increases, lemma_pow_positive, pow};
use vstd::arithmetic::power2::{lemma2_to64, lemma_pow2};
use crate::lattice::MAX_CELLS;
use vstd::prelude::*;

verus! {

/// Largest image side accepted.
pub const MAX_SIDE: usize = 0x10_0000;

/// Largest number of octaves accepted.
pub const MAX_OCTAVES: usize = 21;

/// Largest integer weight an octave may carry.
pub const MAX_WEIGHT: u64 = 0x1_0000_0000;

/// Why a configuration was refused.
#[derive(Debug, Clone, Copy, PartialEq, Eq, Structural)]
pub enum ConfigError {
    /// The height or the width is zero.
    EmptyImage,
    /// A side exceeds `MAX_SIDE`, or `(height + 1) * (width + 1)` exceeds `MAX_CELLS`.
    ImageTooLarge,
    /// The octave count is zero or exceeds `MAX_OCTAVES`.
    OctavesOutOfRange,
    /// The attenuation `att_num / att_den` does not lie strictly between 0 and 1.
    AttenuationOutOfRange,
    /// `att_den` raised to `octaves - 1` exceeds `MAX_WEIGHT`.
    WeightsTooLarge,
}

/// Settings of one generation run. The attenuation is the fraction `att_num / att_den`.
///
/// Octave `k` (counting from 0, coarsest first) has cells of size
/// `2^(octaves - 1 - k)` and carries the integer weight
/// `att_num^k * att_den^(octaves - 1 - k)`, which is `att_den^(octaves - 1)` times
/// the amplitude `attenuation^k`.
pub struct NoiseConfig {
    pub height: usize,
    pub width: usize,
    pub octaves: usize,
    pub att_num: u64,
    pub att_den: u64,
}

/// The integer weight of octave `k` among `n`.
pub open spec fn weight_of(num: int, den: int, n: nat, k: nat) -> int {
    pow(num, k) * pow(den, (n - 1 - k) as nat)
}

/// The sum of the weights of the first `m` octaves among `n`.
pub open spec fn weight_sum(num: int, den: int, n: nat, m: nat) -> int
    decreases m,
{
    if m == 0 {
        0
    } else {
        weight_sum(num, den, n, (m - 1) as nat) + weight_of(num, den, n, (m - 1) as nat)
    }
}

impl NoiseConfig {
    /// The settings that `new` accepts.
    pub open spec fn wf(&self) -> bool {
        &&& 0 < self.height <= MAX_SIDE
        &&& 0 < self.width <= MAX_SIDE
        &&& (self.height + 1) * (self.width + 1) <= MAX_CELLS
        &&& 0 < self.octaves <= MAX_OCTAVES
        &&& 0 < self.att_num < self.att_den
        &&& pow(self.att_den as int, (self.octaves - 1) as nat) <= MAX_WEIGHT
    }

    /// The cell size of octave `k`.
    pub open spec fn cell(&self, k: int) -> int {
        pow(2, (self.octaves - 1 - k) as nat)
    }

    /// The integer weight of octave `k`.
    pub open spec fn weight(&self, k: int) -> int {
        weight_of(self.att_num as int, self.att_den as int, self.octaves as nat, k as nat)
    }

    /// The sum of the weights of the first `m` octaves.
    pub open spec fn partial_sum(&self, m: int) -> int {
        weight_sum(self.att_num as int, self.att_den as int, self.octaves as nat, m as nat)
    }

    /// The normalization divisor: the sum of all octave weights.
    pub open spec fn scale_sum(&self) -> int {
        self.partial_sum(self.octaves as int)
    }

    /// Checks the settings: positive sides of at most `MAX_SIDE` with
    /// `(height + 1) * (width + 1)` at most `MAX_CELLS`, between 1 and `MAX_OCTAVES`
    /// octaves, an attenuation strictly between 0 and 1, and weights no larger than
    /// `MAX_WEIGHT`. The checks run in that order.
    pub fn new(height: usize, width: usize, octaves: usize, att_num: u64, att_den: u64) -> (r:
        Result<NoiseConfig, ConfigError>)
        ensures
            (height == 0 || width == 0) ==> r == Err::<NoiseConfig, ConfigError>(
                ConfigError::EmptyImage,
            ),
            (height > 0 && width > 0) ==> (r == Err::<NoiseConfig, ConfigError>(
                ConfigError::ImageTooLarge) <==> (height > MAX_SIDE || width > MAX_SIDE || (height
                + 1) * (width + 1) > MAX_CELLS)),
            r == Err::<NoiseConfig, ConfigError>(ConfigError::OctavesOutOfRange) <==> (0 < height
                <= MAX_SIDE && 0 < width <= MAX_SIDE && (height + 1) * (width + 1) <= MAX_CELLS && (octaves
                == 0 || octaves > MAX_OCTAVES)),
            r == Err::<NoiseConfig, ConfigError>(ConfigError::AttenuationOutOfRange) <==> (0
                < height <= MAX_SIDE && 0 < width <= MAX_SIDE && (height + 1) * (width + 1) <= MAX_CELLS
                && 0 < octaves <= MAX_OCTAVES && !(0 < att_num < att_den)),
            r == Err::<NoiseConfig, ConfigError>(ConfigError::WeightsTooLarge) <==> (0 < height
                <= MAX_SIDE && 0 < width <= MAX_SIDE && (height + 1) * (width + 1) <= MAX_CELLS && 0
                < octaves <= MAX_OCTAVES && 0 < att_num < att_den && pow(
                att_den as int,
                (octaves - 1) as nat,
            ) > MAX_WEIGHT),
            r is Ok <==> (NoiseConfig { height, width, octaves, att_num, att_den }).wf(),
            r matches Ok(c) ==> c == (NoiseConfig { height, width, octaves, att_num, att_den }),
    {
        if height == 0 || width == 0 {
            return Err(ConfigError::EmptyImage);
        }
        if height > MAX_SIDE || width > MAX_SIDE {
            return Err(ConfigError::ImageTooLarge);
        }
        proof {
            assert((height + 1) * (width + 1) <= (MAX_SIDE + 1) * (MAX_SIDE + 1)) by (nonlinear_arith)
                requires
                    height <= MAX_SIDE,
                    width <= MAX_SIDE,
            ;
        }
        if (height as u64 + 1) * (width as u64 + 1) > MAX_CELLS as u64 {
            return Err(ConfigError::ImageTooLarge);
        }
        if octaves == 0 || octaves > MAX_OCTAVES {
            return Err(ConfigError::OctavesOutOfRange);
        }
        if att_num == 0 || att_num >= att_den {
            return Err(ConfigError::AttenuationOutOfRange);
        }
        let mut p: u128 = 1;
        let mut t: usize = 0;
        proof {
            lemma_pow0(att_den as int);
        }
        while t < octaves - 1
            invariant
                0 < height <= MAX_SIDE,
                0 < width <= MAX_SIDE,
                (height + 1) * (width + 1) <= MAX_CELLS,
                0 < att_num < att_den,
                0 < octaves <= MAX_OCTAVES,
                t <= octaves - 1,
                p == pow(att_den as int, t as nat),
                p <= MAX_WEIGHT,
            decreases octaves - 1 - t,
        {
            proof {
                assert(pow(att_den as int, (t + 1) as nat) == att_den * pow(att_den as int, t as nat)) by {
                    lemma_pow_adds(att_den as int, 1, t as nat);
                    lemma_pow1(att_den as int);
                }
                assert(p * att_den <= 0x1_0000_0000 * 0x1_0000_0000_0000_0000) by (nonlinear_arith)
                    requires
                        p <= 0x1_0000_0000,
                        att_den <= 0xffff_ffff_ffff_ffff,
                ;
            }
            p = p * (att_den as u128);
            t = t + 1;
            if p > MAX_WEIGHT as u128 {
                proof {
                    lemma_pow_increases(att_den as nat, t as nat, (octaves - 1) as nat);
                }
                return Err(ConfigError::WeightsTooLarge);
            }
        }
        Ok(NoiseConfig { height, width, octaves, att_num, att_den })
    }
}


proof fn lemma_pow_two_twenty()
    ensures
        pow(2, 20) == MAX_SIDE,
{
    lemma2_to64();
    lemma_pow2(20);
}

proof fn lemma_pow_base_le(a: int, b: int, e: nat)
    requires
        0 <= a <= b,
    ensures
        0 <= pow(a, e) <= pow(b, e),
    decreases e,
{
    if e == 0 {
        lemma_pow0(a);
        lemma_pow0(b);
    } else {
        lemma_pow_base_le(a, b, (e - 1) as nat);
        reveal(pow);
        assert(pow(a, e) == a * pow(a, (e - 1) as nat));
        assert(pow(b, e) == b * pow(b, (e - 1) as nat));
        assert(a * pow(a, (e - 1) as nat) <= b * pow(b, (e - 1) as nat)) by (nonlinear_arith)
            requires
                0 <= a <= b,
                0 <= pow(a, (e - 1) as nat) <= pow(b, (e - 1) as nat),
        ;
    }
}

/// `base^e`, for a result no larger than `MAX_WEIGHT`.
fn pow_small(base: u64, e: usize) -> (r: u64)
    requires
        0 < base,
        pow(base as int, e as nat) <= MAX_WEIGHT,
    ensures
        r == pow(base as int, e as nat),
{
    let mut r: u64 = 1;
    let mut t: usize = 0;
    proof {
        lemma_pow0(base as int);
    }
    while t < e
        invariant
            0 < base,
            pow(base as int, e as nat) <= MAX_WEIGHT,
            t <= e,
            r == pow(base as int, t as nat),
        decreases e - t,
    {
        proof {
            lemma_pow_adds(base as int, 1, t as nat);
            lemma_pow1(base as int);
            lemma_pow_increases(base as nat, (t + 1) as nat, e as nat);
        }
        r = r * base;
        t = t + 1;
    }
    r
}

impl NoiseConfig {
    /// Each octave weight lies in `[1, MAX_WEIGHT]`.
    pub proof fn lemma_weight_range(&self, k: int)
        requires
            self.wf(),
            0 <= k < self.octaves,
        ensures
            1 <= self.weight(k) <= MAX_WEIGHT,
            pow(self.att_num as int, k as nat) <= MAX_WEIGHT,
            pow(self.att_den as int, (self.octaves - 1 - k) as nat) <= MAX_WEIGHT,
    {
        let num = self.att_num as int;
        let den = self.att_den as int;
        let n1 = (self.octaves - 1) as nat;
        let a = pow(num, k as nat);
        let b = pow(den, (n1 - k) as nat);
        lemma_pow_base_le(num, den, k as nat);
        lemma_pow_positive(num, k as nat);
        lemma_pow_positive(den, (n1 - k) as nat);
        lemma_pow_positive(den, k as nat);
        lemma_pow_adds(den, k as nat, (n1 - k) as nat);
        assert(a * b <= pow(den, k as nat) * b) by (nonlinear_arith)
            requires
                0 < a <= pow(den, k as nat),
                0 < b,
        ;
        assert(a <= a * b && b <= a * b && 1 <= a * b) by (nonlinear_arith)
            requires
                0 < a,
                0 < b,
        ;
    }

    /// The running sums of the weights grow with each octave and stay within
    /// `m * MAX_WEIGHT` after `m` octaves.
    pub proof fn lemma_partial_sum_range(&self, m: int)
        requires
            self.wf(),
            0 <= m <= self.octaves,
        ensures
            m <= self.partial_sum(m) <= m * MAX_WEIGHT,
        decreases m,
    {
        if m > 0 {
            self.lemma_partial_sum_range(m - 1);
            self.lemma_weight_range(m - 1);
        }
    }

    /// The weight of octave `k`.
    pub fn octave_weight(&self, k: usize) -> (r: i64)
        requires
            self.wf(),
            k < self.octaves,
        ensures
            r == self.weight(k as int),
            1 <= r <= MAX_WEIGHT,
    {
        proof {
            self.lemma_weight_range(k as int);
        }
        let a = pow_small(self.att_num, k);
        let b = pow_small(self.att_den, self.octaves - 1 - k);
        proof {
            assert(a * b <= MAX_WEIGHT);
        }
        (a * b) as i64
    }

    /// The normalization divisor: the sum of all octave weights.
    pub fn total_weight(&self) -> (r: i64)
        requires
            self.wf(),
        ensures
            r == self.scale_sum(),
            1 <= r <= MAX_OCTAVES * MAX_WEIGHT,
    {
        let mut sum: i64 = 0;
        let mut k: usize = 0;
        while k < self.octaves
            invariant
                self.wf(),
                k <= self.octaves,
                sum == self.partial_sum(k as int),
            decreases self.octaves - k,
        {
            proof {
                self.lemma_partial_sum_range(k as int + 1);
            }
            let w = self.octave_weight(k);
            sum = sum + w;
            k = k + 1;
        }
        proof {
            self.lemma_partial_sum_range(self.octaves as int);
        }
        sum
    }

    /// The cell size of octave `k`, `2^(octaves - 1 - k)`.
    pub fn cell_size(&self, k: usize) -> (r: usize)
        requires
            self.wf(),
            k < self.octaves,
        ensures
            r == self.cell(k as int),
            1 <= r <= MAX_SIDE,
    {
        let level = self.octaves - 1 - k;
        let mut r: usize = 1;
        let mut t: usize = 0;
        proof {
            lemma_pow0(2);
        }
        while t < level
            invariant
                level <= MAX_OCTAVES - 1,
                t <= level,
                r == pow(2, t as nat),
            decreases level - t,
        {
            proof {
                lemma_pow_adds(2, 1, t as nat);
                lemma_pow1(2);
                lemma_pow_increases(2, (t + 1) as nat, 20);
                lemma_pow_two_twenty();
            }
            r = r * 2;
            t = t + 1;
        }
        proof {
            lemma_pow_increases(2, t as nat, 20);
            lemma_pow_positive(2, t as nat);
            lemma_pow_two_twenty();
        }
        r
    }
}

/// The octave weights form a geometric sequence with ratio `att_num / att_den` that
/// starts at `att_den^(octaves - 1)`: the amplitudes `attenuation^k`, all scaled by that
/// first weight.
pub proof fn lemma_weights_geometric(cfg: NoiseConfig, k: int)
    requires
        cfg.wf(),
        0 <= k,
        k + 1 < cfg.octaves,
    ensures
        cfg.weight(0) == pow(cfg.att_den as int, (cfg.octaves - 1) as nat),
        cfg.weight(k + 1) * cfg.att_den == cfg.weight(k) * cfg.att_num,
{
    let num = cfg.att_num as int;
    let den = cfg.att_den as int;
    let e = (cfg.octaves - 2 - k) as nat;
    lemma_pow0(num);
    lemma_pow_adds(num, k as nat, 1);
    lemma_pow1(num);
    lemma_pow_adds(den, e, 1);
    lemma_pow1(den);
    let pk = pow(num, k as nat);
    let pe = pow(den, e);
    assert(pk * num * pe * den == pk * (pe * den) * num) by (nonlinear_arith);
}

proof fn lemma_partial_sum_closed(cfg: NoiseConfig, m: int)
    requires
        cfg.wf(),
        0 <= m <= cfg.octaves,
    ensures
        cfg.partial_sum(m) * (cfg.att_den - cfg.att_num) == pow(cfg.att_den as int, cfg.octaves as nat)
            - pow(cfg.att_num as int, m as nat) * pow(cfg.att_den as int, (cfg.octaves - m) as nat),
    decreases m,
{
    let num = cfg.att_num as int;
    let den = cfg.att_den as int;
    let n = cfg.octaves as int;
    if m == 0 {
        lemma_pow0(num);
    } else {
        let k = m - 1;
        lemma_partial_sum_closed(cfg, k);
        lemma_pow_adds(den, (n - 1 - k) as nat, 1);
        lemma_pow1(den);
        lemma_pow_adds(num, k as nat, 1);
        lemma_pow1(num);
        let a = pow(num, k as nat);
        let b = pow(den, (n - 1 - k) as nat);
        let s = cfg.partial_sum(k);
        let dn = pow(den, n as nat);
        assert(pow(den, (n - k) as nat) == b * den);
        assert(pow(num, m as nat) == a * num);
        assert(cfg.partial_sum(m) == s + a * b);
        assert(s * (den - num) == dn - a * (b * den));
        assert((s + a * b) * (den - num) == dn - (a * num) * b) by (nonlinear_arith)
            requires
                s * (den - num) == dn - a * (b * den),
        ;
    }
}

/// The normalization divisor is the geometric series: with `att = att_num / att_den`,
/// `scale_sum = att_den^(octaves - 1) * sum(att^k for k < octaves)`, which in integers
/// reads `scale_sum * (att_den - att_num) == att_den^octaves - att_num^octaves`.
pub proof fn lemma_scale_sum_geometric(cfg: NoiseConfig)
    requires
        cfg.wf(),
    ensures
        cfg.scale_sum() * (cfg.att_den - cfg.att_num) == pow(cfg.att_den as int, cfg.octaves as nat)
            - pow(cfg.att_num as int, cfg.octaves as nat),
{
    lemma_partial_sum_closed(cfg, cfg.octaves as int);
    lemma_pow0(cfg.att_den as int);
}

/// With a single octave the normalization divisor is exactly 1.
pub proof fn lemma_single_octave_scale(cfg: NoiseConfig)
    requires
        cfg.wf(),
        cfg.octaves == 1,
    ensures
        cfg.weight(0) == 1,
        cfg.scale_sum() == 1,
        cfg.cell(0) == 1,
{
    lemma_pow0(cfg.att_num as int);
    lemma_pow0(cfg.att_den as int);
    lemma_pow0(2);
    assert(cfg.partial_sum(0) == 0);
}

} // verus!
