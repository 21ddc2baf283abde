use vstd::prelude::*;

verus! {

/// `r` is the integer square root of `a`: the largest `r` with `r * r <= a`.
pub open spec fn is_isqrt(a: int, r: int) -> bool {
    0 <= r && r * r <= a < (r + 1) * (r + 1)
}

/// Integer square root, rounded down, by bisection.
pub fn isqrt(a: u128) -> (r: u64)
    ensures
        is_isqrt(a as int, r as int),
{
    let mut lo: u128 = 0;
    let mut hi: u128 = 0x1_0000_0000_0000_0000;
    assert(a < hi * hi) by (nonlinear_arith)
        requires
            hi == 0x1_0000_0000_0000_0000u128,
            a <= u128::MAX,
    ;
    while hi - lo > 1
        invariant
            lo < hi <= 0x1_0000_0000_0000_0000,
            lo * lo <= a,
            a < hi * hi,
        decreases hi - lo,
    {
        let mid: u128 = lo + (hi - lo) / 2;
        assert(mid * mid < 0x1_0000_0000_0000_0000 * 0x1_0000_0000_0000_0000) by (nonlinear_arith)
            requires
                mid < 0x1_0000_0000_0000_0000,
        ;
        if mid * mid <= a {
            lo = mid;
        } else {
            hi = mid;
        }
    }
    assert(hi == lo + 1);
    lo as u64
}

/// The integer square root of `k * k * a`, that is `sqrt(a)` in units of
/// `1 / k`, rounded down: found from `isqrt(a)` one unit of `1 / k` at a time.
pub fn isqrt_scaled(a: u128, k: u64) -> (root: u128)
    requires
        1 <= k <= 1024,
    ensures
        is_isqrt(k * k * a, root as int),
{
    let r: u64 = isqrt(a);
    let rr: u128 = r as u128;
    let kk: u128 = k as u128;
    let e: u128 = a - rr * rr;
    assert(e <= 2 * rr) by (nonlinear_arith)
        requires
            a < (rr + 1) * (rr + 1),
            e == a - rr * rr,
    ;
    assert(kk * rr <= 1024 * 0x1_0000_0000_0000_0000) by (nonlinear_arith)
        requires
            kk <= 1024,
            rr < 0x1_0000_0000_0000_0000,
    ;
    assert(kk * kk * e <= 1024 * 1024 * 2 * 0x1_0000_0000_0000_0000) by (nonlinear_arith)
        requires
            kk <= 1024,
            e <= 2 * rr,
            rr < 0x1_0000_0000_0000_0000,
    ;
    assert(kk * kk <= 1024 * 1024) by (nonlinear_arith)
        requires
            kk <= 1024,
    ;
    let base: u128 = kk * rr;
    let sq: u128 = kk * kk;
    let room: u128 = sq * e;
    let mut f: u128 = 0;
    while f + 1 < kk
        invariant
            1 <= kk <= 1024,
            base == kk * rr,
            base <= 1024 * 0x1_0000_0000_0000_0000,
            room == kk * kk * e,
            f < kk,
            2 * base * f + f * f <= room,
        ensures
            base == kk * rr,
            room == kk * kk * e,
            f < kk,
            2 * base * f + f * f <= room,
            f + 1 >= kk || 2 * base * (f + 1) + (f + 1) * (f + 1) > room,
        decreases kk - f,
    {
        let g: u128 = f + 1;
        assert(2 * base * g <= 2 * 1024 * 0x1_0000_0000_0000_0000 * 1024 && g * g <= 1024 * 1024)
            by (nonlinear_arith)
            requires
                base <= 1024 * 0x1_0000_0000_0000_0000,
                g <= 1024,
        ;
        if 2 * base * g + g * g > room {
            break;
        }
        f = g;
    }
    proof {
        let ka = kk * kk * a;
        assert((base + f) * (base + f) <= ka) by (nonlinear_arith)
            requires
                base == kk * rr,
                2 * base * f + f * f <= kk * kk * e,
                e == a - rr * rr,
                ka == kk * kk * a,
        ;
        if f + 1 >= kk {
            assert(ka < (base + f + 1) * (base + f + 1)) by (nonlinear_arith)
                requires
                    base == kk * rr,
                    f + 1 >= kk,
                    f < kk,
                    a < (rr + 1) * (rr + 1),
                    ka == kk * kk * a,
                    kk >= 1,
            ;
        } else {
            assert(2 * base * (f + 1) + (f + 1) * (f + 1) > room);
            assert(ka < (base + f + 1) * (base + f + 1)) by (nonlinear_arith)
                requires
                    base == kk * rr,
                    2 * base * (f + 1) + (f + 1) * (f + 1) > kk * kk * e,
                    e == a - rr * rr,
                    ka == kk * kk * a,
            ;
        }
    }
    base + f
}

/// Floor division of `t` by a positive `n`: the exec counterpart of the
/// spec operator `/` on `int`.
pub fn floor_div(t: i128, n: u64) -> (q: i128)
    requires
        n > 0,
        t > i128::MIN,
    ensures
        q == t as int / n as int,
{
    let d: i128 = n as i128;
    if t >= 0 {
        let q: i128 = t / d;
        proof {
            vstd::arithmetic::div_mod::lemma_fundamental_div_mod(t as int, d as int);
        }
        q
    } else {
        let p: i128 = (-t - 1) / d;
        let r: i128 = (-t - 1) % d;
        let q: i128 = -p - 1;
        proof {
            vstd::arithmetic::div_mod::lemma_fundamental_div_mod((-t - 1) as int, d as int);
            assert(t == q * d + (d - 1 - r)) by (nonlinear_arith)
                requires
                    -t - 1 == d * p + r,
                    q == -p - 1,
            ;
            vstd::arithmetic::div_mod::lemma_fundamental_div_mod_converse(
                t as int,
                d as int,
                q as int,
                (d - 1 - r) as int,
            );
        }
        q
    }
}

/// The sum of two integers that fits in an `i32`.
pub fn add(x: i32, y: i32) -> (r: i32)
    requires
        i32::MIN <= x + y <= i32::MAX,
    ensures
        r == x + y,
{
    x + y
}

} // verus!
