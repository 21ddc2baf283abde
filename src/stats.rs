use vstd::prelude::*;

use crate::error::SimError;
use crate::math::{floor_div, is_isqrt, isqrt, isqrt_scaled};

verus! {

/// Fixed-point scale of a standard-normal deviate handed to
/// [`Stats::random_number`]: a deviate `z` stands for `z / DEVIATE_SCALE`.
pub const DEVIATE_SCALE: i64 = 1_000_000;

/// Fixed-point scale of the spread a model draws with: a spread `d` stands
/// for `d / SPREAD_SCALE` units of score.
pub const SPREAD_SCALE: u64 = 1_000;

/// Sum of the samples.
pub open spec fn seq_sum(s: Seq<i32>) -> int
    decreases s.len(),
{
    if s.len() == 0 {
        0
    } else {
        seq_sum(s.drop_last()) + s.last() as int
    }
}

/// Sum of the squares of the samples.
pub open spec fn seq_sq_sum(s: Seq<i32>) -> int
    decreases s.len(),
{
    if s.len() == 0 {
        0
    } else {
        seq_sq_sum(s.drop_last()) + s.last() as int * s.last() as int
    }
}

/// `sum((n * x - c)^2 for x in s)`.
pub open spec fn sq_dev_sum(s: Seq<i32>, n: int, c: int) -> int
    decreases s.len(),
{
    if s.len() == 0 {
        0
    } else {
        let d = n * s.last() as int - c;
        sq_dev_sum(s.drop_last(), n, c) + d * d
    }
}

/// The mean of the samples, rounded down.
pub open spec fn mean_of(s: Seq<i32>) -> int {
    seq_sum(s) / (s.len() as int)
}

/// `d` is the population standard deviation of `s`, rounded down.
///
/// With `N = |s|` and `mean = sum(s) / N`, the variance is
/// `sum((x - mean)^2) / N = sum((N * x - sum(s))^2) / N^3`, and `d` is the
/// largest integer whose square does not exceed it.
pub open spec fn is_pop_std_dev(s: Seq<i32>, d: int) -> bool {
    let n = s.len() as int;
    let dev = sq_dev_sum(s, n, seq_sum(s));
    0 <= d && d * d * (n * n * n) <= dev && dev < (d + 1) * (d + 1) * (n * n * n)
}

/// `d` is the population standard deviation of `s` in units of
/// `1 / SPREAD_SCALE`, rounded down: as [`is_pop_std_dev`], with the
/// variance scaled by `SPREAD_SCALE^2`.
pub open spec fn is_pop_spread(s: Seq<i32>, d: int) -> bool {
    let n = s.len() as int;
    let k = SPREAD_SCALE as int;
    let dev = k * k * sq_dev_sum(s, n, seq_sum(s));
    0 <= d && d * d * (n * n * n) <= dev && dev < (d + 1) * (d + 1) * (n * n * n)
}

/// One draw from the model of `s` with spread `sp / SPREAD_SCALE`, for the
/// standard-normal deviate `z / DEVIATE_SCALE`:
/// `(z / DEVIATE_SCALE) * (sp / SPREAD_SCALE) + sum(s) / |s|`, rounded down.
pub open spec fn draw_value(s: Seq<i32>, sp: int, z: int) -> int {
    let n = s.len() as int;
    let k = DEVIATE_SCALE * SPREAD_SCALE;
    (z * sp * n + seq_sum(s) * k) / (k * n)
}

/// The distribution model of one entity: the statistics of its historical
/// scores, fixed when it is built.
#[derive(Clone, Copy)]
pub struct Stats {
    average: i64,
    std_dev: u64,
    spread: u64,
    total: i64,
    count: u64,
    samples: Ghost<Seq<i32>>,
}

impl View for Stats {
    type V = Seq<i32>;

    /// The historical samples the model was built from.
    closed spec fn view(&self) -> Seq<i32> {
        self.samples@
    }
}

proof fn lemma_sq_dev_expand(s: Seq<i32>, n: int, c: int)
    ensures
        sq_dev_sum(s, n, c) == n * n * seq_sq_sum(s) - 2 * n * c * seq_sum(s) + s.len() * c * c,
        sq_dev_sum(s, n, c) >= 0,
    decreases s.len(),
{
    if s.len() > 0 {
        let p = s.drop_last();
        let x = s.last() as int;
        lemma_sq_dev_expand(p, n, c);
        assert((n * x - c) * (n * x - c) == n * n * (x * x) - 2 * n * c * x + c * c)
            by (nonlinear_arith);
        assert(n * n * (seq_sq_sum(p) + x * x) == n * n * seq_sq_sum(p) + n * n * (x * x))
            by (nonlinear_arith);
        assert(2 * n * c * (seq_sum(p) + x) == 2 * n * c * seq_sum(p) + 2 * n * c * x)
            by (nonlinear_arith);
        assert((p.len() + 1) * c * c == p.len() * c * c + c * c) by (nonlinear_arith);
        assert((n * x - c) * (n * x - c) >= 0) by (nonlinear_arith);
    }
}

/// From the integer square root `r` of `a = n * sum(x^2) - sum(x)^2`, the
/// population standard deviation is `r / n`.
proof fn lemma_std_dev_from_isqrt(s: Seq<i32>, a: int, r: int, d: int)
    requires
        s.len() >= 1,
        a == s.len() * seq_sq_sum(s) - seq_sum(s) * seq_sum(s),
        is_isqrt(a, r),
        d == r / (s.len() as int),
    ensures
        is_pop_std_dev(s, d),
        d * s.len() <= r,
{
    let n = s.len() as int;
    let t = seq_sum(s);
    lemma_sq_dev_expand(s, n, t);
    let dev = sq_dev_sum(s, n, t);
    assert(dev == n * a) by (nonlinear_arith)
        requires
            dev == n * n * seq_sq_sum(s) - 2 * n * t * t + n * t * t,
            a == n * seq_sq_sum(s) - t * t,
    ;
    vstd::arithmetic::div_mod::lemma_fundamental_div_mod(r, n);
    let m = r % n;
    assert(r == n * d + m);
    assert(0 <= d && d * n <= r && r + 1 <= (d + 1) * n) by (nonlinear_arith)
        requires
            r == n * d + m,
            0 <= m < n,
            0 <= r,
            n >= 1,
    ;
    assert(d * d * (n * n * n) <= dev) by (nonlinear_arith)
        requires
            0 <= d,
            d * n <= r,
            r * r <= a,
            dev == n * a,
            n >= 1,
    ;
    assert(dev < (d + 1) * (d + 1) * (n * n * n)) by (nonlinear_arith)
        requires
            0 <= r,
            r + 1 <= (d + 1) * n,
            a < (r + 1) * (r + 1),
            dev == n * a,
            n >= 1,
    ;
}

/// With `r` the integer square root of `a`, `d = r / n` is the largest
/// integer with `d^2 * n^3 <= n * a`.
proof fn lemma_root_over_count(a: int, r: int, n: int, d: int)
    requires
        n >= 1,
        is_isqrt(a, r),
        d == r / n,
    ensures
        0 <= d,
        d * n <= r,
        d * d * (n * n * n) <= n * a,
        n * a < (d + 1) * (d + 1) * (n * n * n),
{
    vstd::arithmetic::div_mod::lemma_fundamental_div_mod(r, n);
    let m = r % n;
    assert(0 <= d && d * n <= r && r + 1 <= (d + 1) * n) by (nonlinear_arith)
        requires
            r == n * d + m,
            0 <= m < n,
            0 <= r,
            n >= 1,
    ;
    assert(d * d * (n * n * n) <= n * a) by (nonlinear_arith)
        requires
            0 <= d,
            d * n <= r,
            r * r <= a,
            n >= 1,
    ;
    assert(n * a < (d + 1) * (d + 1) * (n * n * n)) by (nonlinear_arith)
        requires
            0 <= r,
            r + 1 <= (d + 1) * n,
            a < (r + 1) * (r + 1),
            n >= 1,
    ;
}

impl Stats {
    /// The spread the model draws with: the population standard deviation
    /// of its samples, rounded down.
    pub closed spec fn std_dev_spec(&self) -> int {
        self.std_dev as int
    }

    /// The spread the model draws with: the population standard deviation
    /// of its samples in units of `1 / SPREAD_SCALE`, rounded down.
    pub closed spec fn spread_spec(&self) -> int {
        self.spread as int
    }

    /// The cached statistics agree with the samples.
    pub closed spec fn inv(&self) -> bool {
        &&& self.count == self@.len()
        &&& self.total == seq_sum(self@)
        &&& self.average == mean_of(self@)
        &&& self.std_dev <= 0x8000_0000
        &&& self.spread <= 0x8000_0000 * 1000
        &&& -0x8000_0000 * self.count <= self.total <= 0x8000_0000 * self.count
    }

    /// A model built by [`Stats::new`].
    pub open spec fn wf(&self) -> bool {
        &&& self.inv()
        &&& 1 <= self@.len() <= u32::MAX
        &&& is_pop_std_dev(self@, self.std_dev_spec())
        &&& is_pop_spread(self@, self.spread_spec())
    }

    /// Builds the model of `data`: its total, mean and population standard
    /// deviation. Fails with `InvalidInput` when `data` is empty.
    pub fn new(data: Vec<i32>) -> (r: Result<Stats, SimError>)
        requires
            data.len() <= u32::MAX,
        ensures
            data.len() == 0 <==> r == Err::<Stats, SimError>(SimError::InvalidInput),
            data.len() > 0 ==> r is Ok,
            r matches Ok(st) ==> st.wf() && st@ == data@,
    {
        if data.len() == 0 {
            return Err(SimError::InvalidInput);
        }
        let ghost s = data@;
        let mut t: i128 = 0;
        let mut q: i128 = 0;
        let mut i: usize = 0;
        while i < data.len()
            invariant
                s == data@,
                i <= data.len() <= u32::MAX,
                t == seq_sum(s.take(i as int)),
                q == seq_sq_sum(s.take(i as int)),
                -0x8000_0000 * i <= t <= 0x8000_0000 * i,
                0 <= q <= 0x4000_0000_0000_0000 * i,
            decreases data.len() - i,
        {
            let x: i128 = data[i] as i128;
            assert(s.take(i + 1).drop_last() =~= s.take(i as int));
            assert(0 <= x * x <= 0x4000_0000_0000_0000) by (nonlinear_arith)
                requires
                    -0x8000_0000 <= x < 0x8000_0000,
            ;
            t = t + x;
            q = q + x * x;
            i = i + 1;
        }
        assert(s.take(i as int) =~= s);
        let n: u64 = data.len() as u64;
        let nn: i128 = n as i128;
        assert(0 <= nn * q <= 0x4000_0000_0000_0000 * 0x1_0000_0000 * 0x1_0000_0000)
            by (nonlinear_arith)
            requires
                0 <= q <= 0x4000_0000_0000_0000 * nn,
                1 <= nn <= 0x1_0000_0000,
        ;
        assert(0 <= t * t <= 0x8000_0000 * 0x8000_0000 * 0x1_0000_0000 * 0x1_0000_0000)
            by (nonlinear_arith)
            requires
                -0x8000_0000 * nn <= t <= 0x8000_0000 * nn,
                1 <= nn <= 0x1_0000_0000,
        ;
        proof {
            lemma_sq_dev_expand(s, nn as int, t as int);
            assert(nn * q - t * t >= 0) by (nonlinear_arith)
                requires
                    nn * nn * q - 2 * nn * t * t + nn * t * t >= 0,
                    nn >= 1,
            ;
        }
        let a: i128 = nn * q - t * t;
        let r: u64 = isqrt(a as u128);
        let sd: u64 = r / n;
        proof {
            lemma_std_dev_from_isqrt(s, a as int, r as int, sd as int);
            assert(sd <= 0x8000_0000) by (nonlinear_arith)
                requires
                    sd * nn <= r,
                    r * r <= a,
                    a <= nn * q,
                    q <= 0x4000_0000_0000_0000 * nn,
                    nn >= 1,
                    sd >= 0,
            ;
        }
        let root: u128 = isqrt_scaled(a as u128, SPREAD_SCALE);
        let spread: u128 = root / (n as u128);
        proof {
            let k = SPREAD_SCALE as int;
            let ka = k * k * a;
            lemma_root_over_count(ka, root as int, nn as int, spread as int);
            lemma_sq_dev_expand(s, nn as int, t as int);
            assert(nn * ka == k * k * sq_dev_sum(s, nn as int, t as int)) by (nonlinear_arith)
                requires
                    sq_dev_sum(s, nn as int, t as int) == nn * nn * seq_sq_sum(s) - 2 * nn * t * t + nn * t * t,
                    a == nn * q - t * t,
                    q == seq_sq_sum(s),
                    ka == k * k * a,
            ;
            assert(spread <= 0x8000_0000 * 1000) by (nonlinear_arith)
                requires
                    spread * nn <= root,
                    root * root <= ka,
                    ka == 1000 * 1000 * a,
                    a <= nn * q,
                    q <= 0x4000_0000_0000_0000 * nn,
                    nn >= 1,
                    spread >= 0,
            ;
        }
        let average: i128 = floor_div(t, n);
        proof {
            vstd::arithmetic::div_mod::lemma_fundamental_div_mod(t as int, nn as int);
            assert(-0x8000_0000 <= average <= 0x8000_0000) by (nonlinear_arith)
                requires
                    t == nn * average + t % nn,
                    0 <= t % nn < nn,
                    -0x8000_0000 * nn <= t <= 0x8000_0000 * nn,
                    nn >= 1,
            ;
        }
        Ok(Stats {
            average: average as i64,
            std_dev: sd,
            spread: spread as u64,
            total: t as i64,
            count: n,
            samples: Ghost(s),
        })
    }

    /// The mean of the samples, rounded down.
    pub fn average(&self) -> (r: i64)
        requires
            self.wf(),
        ensures
            r == mean_of(self@),
    {
        self.average
    }

    /// The population standard deviation of the samples, rounded down.
    pub fn std_deviation(&self) -> (r: u64)
        requires
            self.wf(),
        ensures
            r == self.std_dev_spec(),
            is_pop_std_dev(self@, r as int),
    {
        self.std_dev
    }

    /// The population standard deviation of the samples in units of
    /// `1 / SPREAD_SCALE`, rounded down: the spread that draws use.
    pub fn spread(&self) -> (r: u64)
        requires
            self.wf(),
        ensures
            r == self.spread_spec(),
            is_pop_spread(self@, r as int),
    {
        self.spread
    }

    /// One draw from the model: `z / DEVIATE_SCALE` is a standard-normal
    /// deviate (for instance from the Box-Muller transform), and the result
    /// is `(z / DEVIATE_SCALE) * (spread / SPREAD_SCALE) + mean`, rounded
    /// down, with the exact mean of the samples. The model itself is left as it is.
    pub fn random_number(&self, z: i32) -> (r: i64)
        requires
            self.wf(),
        ensures
            r == draw_value(self@, self.spread_spec(), z as int),
    {
        let n: i128 = self.count as i128;
        let sp: i128 = self.spread as i128;
        let zz: i128 = z as i128;
        let scale: i128 = (DEVIATE_SCALE as i128) * (SPREAD_SCALE as i128);
        assert(-0x8000_0000 * 0x8000_0000 * 1000 <= zz * sp <= 0x8000_0000 * 0x8000_0000 * 1000)
            by (nonlinear_arith)
            requires
                -0x8000_0000 <= zz < 0x8000_0000,
                0 <= sp <= 0x8000_0000 * 1000,
        ;
        assert(-0x8000_0000 * n * scale <= self.total * scale <= 0x8000_0000 * n * scale)
            by (nonlinear_arith)
            requires
                -0x8000_0000 * n <= self.total <= 0x8000_0000 * n,
                scale == 1_000_000_000,
        ;
        let spread: i128 = zz * sp;
        assert(-0x8000_0000 * 0x8000_0000 * 1000 * n <= spread * n
            <= 0x8000_0000 * 0x8000_0000 * 1000 * n) by (nonlinear_arith)
            requires
                -0x8000_0000 * 0x8000_0000 * 1000 <= spread <= 0x8000_0000 * 0x8000_0000 * 1000,
                1 <= n,
        ;
        assert(-0x8000_0000 * 0x8000_0000 * 1000 * 0x1_0000_0000 <= spread * n
            <= 0x8000_0000 * 0x8000_0000 * 1000 * 0x1_0000_0000) by (nonlinear_arith)
            requires
                -0x8000_0000 * 0x8000_0000 * 1000 <= spread <= 0x8000_0000 * 0x8000_0000 * 1000,
                1 <= n <= 0x1_0000_0000,
        ;
        assert(-0x8000_0000 * 0x1_0000_0000 * 1_000_000_000 <= self.total * scale
            <= 0x8000_0000 * 0x1_0000_0000 * 1_000_000_000) by (nonlinear_arith)
            requires
                -0x8000_0000 * n <= self.total <= 0x8000_0000 * n,
                scale == 1_000_000_000,
                1 <= n <= 0x1_0000_0000,
        ;
        let spread_n: i128 = spread * n;
        let shift: i128 = (self.total as i128) * scale;
        let num: i128 = spread_n + shift;
        let den: u64 = (DEVIATE_SCALE as u64) * SPREAD_SCALE * self.count;
        let q: i128 = floor_div(num, den);
        proof {
            let b = den as int;
            vstd::arithmetic::div_mod::lemma_fundamental_div_mod(num as int, b);
            let m = num as int % b;
            assert(-0x8000_0000 * 0x8000_0000 * 1000 * n - 0x8000_0000 * n * scale <= num);
            assert(num <= 0x8000_0000 * 0x8000_0000 * 1000 * n + 0x8000_0000 * n * scale);
            assert(-0x8000_0000_0000_0000 <= q < 0x8000_0000_0000_0000) by (nonlinear_arith)
                requires
                    num == b * q + m,
                    0 <= m < b,
                    b == scale * n,
                    scale == 1_000_000_000,
                    n >= 1,
                    -0x8000_0000 * 0x8000_0000 * 1000 * n - 0x8000_0000 * n * scale <= num,
                    num <= 0x8000_0000 * 0x8000_0000 * 1000 * n + 0x8000_0000 * n * scale,
            ;
        }
        q as i64
    }

    /// The sum of the samples.
    pub fn total(&self) -> (r: i64)
        requires
            self.wf(),
        ensures
            r == seq_sum(self@),
    {
        self.total
    }
}

/// The population standard deviation (rounded down) is one number: two
/// values that both meet [`is_pop_std_dev`] for the same samples are equal.
pub proof fn lemma_pop_std_dev_unique(s: Seq<i32>, d1: int, d2: int)
    requires
        s.len() >= 1,
        is_pop_std_dev(s, d1),
        is_pop_std_dev(s, d2),
    ensures
        d1 == d2,
{
    let n = s.len() as int;
    let c = n * n * n;
    let dev = sq_dev_sum(s, n, seq_sum(s));
    assert(c > 0) by (nonlinear_arith)
        requires
            n >= 1,
            c == n * n * n,
    ;
    if d1 < d2 {
        assert((d1 + 1) * (d1 + 1) * c <= d2 * d2 * c) by (nonlinear_arith)
            requires
                0 <= d1 < d2,
                c > 0,
        ;
    } else if d2 < d1 {
        assert((d2 + 1) * (d2 + 1) * c <= d1 * d1 * c) by (nonlinear_arith)
            requires
                0 <= d2 < d1,
                c > 0,
        ;
    }
}

/// A model with no spread always draws its mean.
pub proof fn lemma_zero_spread_draws_mean(s: Seq<i32>, z: int)
    requires
        s.len() >= 1,
    ensures
        draw_value(s, 0, z) == mean_of(s),
{
    let n = s.len() as int;
    let t = seq_sum(s);
    let k = DEVIATE_SCALE * SPREAD_SCALE;
    vstd::arithmetic::div_mod::lemma_fundamental_div_mod(t, n);
    let q = t / n;
    let m = t % n;
    assert(z * 0 * n + t * k == (k * n) * q + k * m && 0 <= k * m < k * n) by (nonlinear_arith)
        requires
            t == n * q + m,
            0 <= m < n,
            k == 1_000_000_000,
    ;
    vstd::arithmetic::div_mod::lemma_fundamental_div_mod_converse(z * 0 * n + t * k, k * n, q, k * m);
}

} // verus!
