//! Comparing singles by their bit patterns.

use vstd::prelude::*;

verus! {

/// The pattern of a not-a-number.
pub open spec fn is_nan(bits: u32) -> bool {
    (bits as int) % 0x8000_0000 > 0x7F80_0000
}

/// The pattern of a finite number.
pub open spec fn is_finite(bits: u32) -> bool {
    (bits as int) % 0x8000_0000 < 0x7F80_0000
}

/// Where a number stands among the numbers: both zeros at the same place.
pub open spec fn rank(bits: u32) -> int {
    if bits < 0x8000_0000 {
        bits as int
    } else {
        0x8000_0000 - bits
    }
}

/// `a < b` as numbers. Nothing compares with a not-a-number.
pub open spec fn below(a: u32, b: u32) -> bool {
    !is_nan(a) && !is_nan(b) && rank(a) < rank(b)
}

/// Pattern of minus infinity, of infinity and of the not-a-number that stands for
/// no value.
pub const NEG_INFINITY_BITS: u32 = 0xFF80_0000;

pub const INFINITY_BITS: u32 = 0x7F80_0000;

pub const NAN_BITS: u32 = 0x7FC0_0000;

/// Whether the pattern is a not-a-number.
pub fn nan(bits: u32) -> (r: bool)
    ensures
        r == is_nan(bits),
{
    bits % 0x8000_0000 > 0x7F80_0000
}

/// Whether the pattern is a finite number.
pub fn finite(bits: u32) -> (r: bool)
    ensures
        r == is_finite(bits),
{
    bits % 0x8000_0000 < 0x7F80_0000
}

/// Whether `a < b` as numbers.
pub fn less(a: u32, b: u32) -> (r: bool)
    ensures
        r == below(a, b),
{
    if nan(a) || nan(b) {
        return false;
    }
    if a < 0x8000_0000 {
        if b < 0x8000_0000 {
            a < b
        } else {
            false
        }
    } else {
        if b < 0x8000_0000 {
            a - 0x8000_0000 + b > 0
        } else {
            b < a
        }
    }
}

/// The pattern of a double that is not a number.
pub open spec fn is_nan64(bits: u64) -> bool {
    bits as int % 0x8000_0000_0000_0000 > 0x7FF0_0000_0000_0000
}

/// Where a double stands among the numbers: both zeros at the same place.
pub open spec fn rank64(bits: u64) -> int {
    if bits < 0x8000_0000_0000_0000 {
        bits as int
    } else {
        0x8000_0000_0000_0000 - bits
    }
}

/// `a < b` as doubles. Nothing compares with a not-a-number.
pub open spec fn below64(a: u64, b: u64) -> bool {
    !is_nan64(a) && !is_nan64(b) && rank64(a) < rank64(b)
}

/// Whether `a < b` as doubles.
pub fn less64(a: u64, b: u64) -> (r: bool)
    ensures
        r == below64(a, b),
{
    let h: u64 = 0x8000_0000_0000_0000;
    if a % h > 0x7FF0_0000_0000_0000 || b % h > 0x7FF0_0000_0000_0000 {
        return false;
    }
    if a < h {
        b < h && a < b
    } else if b < h {
        a > h || b > 0
    } else {
        b < a
    }
}

/// The best of the first `n` numbers, as a left-to-right search for something
/// greater finds it: where it stands and what it is.
pub open spec fn best(v: Seq<u32>, n: int) -> (int, u32)
    decreases n,
{
    if n <= 0 {
        (0, NEG_INFINITY_BITS)
    } else {
        let b = best(v, n - 1);
        if below(b.1, v[n - 1]) {
            (n - 1, v[n - 1])
        } else {
            b
        }
    }
}

/// The least of the first `n` numbers.
pub open spec fn least(v: Seq<u32>, n: int) -> u32
    decreases n,
{
    if n <= 0 {
        INFINITY_BITS
    } else {
        let b = least(v, n - 1);
        if below(v[n - 1], b) {
            v[n - 1]
        } else {
            b
        }
    }
}

/// How many of the first `n` patterns are no numbers.
pub open spec fn nan_count(v: Seq<u32>, n: int) -> int
    decreases n,
{
    if n <= 0 {
        0
    } else {
        nan_count(v, n - 1) + (if is_nan(v[n - 1]) {
            1int
        } else {
            0
        })
    }
}

/// The first of the greatest numbers; zero where there is none above minus
/// infinity.
pub fn argmax(v: &[u32]) -> (r: usize)
    ensures
        r == best(v@, v@.len() as int).0,
{
    let mut at: usize = 0;
    let mut top: u32 = NEG_INFINITY_BITS;
    let mut i: usize = 0;
    while i < v.len()
        invariant
            i <= v@.len(),
            at == best(v@, i as int).0,
            top == best(v@, i as int).1,
        decreases v@.len() - i,
    {
        if less(top, v[i]) {
            top = v[i];
            at = i;
        }
        i = i + 1;
    }
    at
}

/// What was found among logits. Numbers as bits; a not-a-number where there is no
/// finite extreme.
#[derive(Clone, Copy, Debug, PartialEq, Eq, Structural)]
pub struct LogitsStats {
    pub finite: bool,
    pub nan: usize,
    pub max_bits: u32,
    pub min_bits: u32,
    pub host_argmax: u32,
}

/// A finite pattern, or else the one for no value.
pub open spec fn or_nan(bits: u32) -> u32 {
    if is_finite(bits) {
        bits
    } else {
        NAN_BITS
    }
}

/// What there is to see in logits.
pub open spec fn stats_of(v: Seq<u32>, r: LogitsStats) -> bool {
    let n = v.len() as int;
    &&& r.nan == nan_count(v, n)
    &&& r.finite == (r.nan == 0 && n > 0)
    &&& r.max_bits == or_nan(best(v, n).1)
    &&& r.min_bits == or_nan(least(v, n))
    &&& r.host_argmax == best(v, n).0
}

/// Looks through logits.
pub fn stats_f32(v: &[u32]) -> (r: LogitsStats)
    requires
        v@.len() <= u32::MAX,
    ensures
        stats_of(v@, r),
{
    let mut nans: usize = 0;
    let mut top: u32 = NEG_INFINITY_BITS;
    let mut low: u32 = INFINITY_BITS;
    let mut at: usize = 0;
    let mut i: usize = 0;
    while i < v.len()
        invariant
            i <= v@.len() <= u32::MAX,
            at <= i,
            nans <= i,
            nans == nan_count(v@, i as int),
            at == best(v@, i as int).0,
            top == best(v@, i as int).1,
            low == least(v@, i as int),
        decreases v@.len() - i,
    {
        let x: u32 = v[i];
        if nan(x) {
            nans = nans + 1;
        } else {
            if less(top, x) {
                top = x;
                at = i;
            }
            if less(x, low) {
                low = x;
            }
        }
        i = i + 1;
    }
    LogitsStats {
        finite: nans == 0 && v.len() > 0,
        nan: nans,
        max_bits: if finite(top) {
            top
        } else {
            NAN_BITS
        },
        min_bits: if finite(low) {
            low
        } else {
            NAN_BITS
        },
        host_argmax: at as u32,
    }
}

/// Where two lists of numbers first differ: at a pair that does not compare as
/// equal, or at the end of the shorter.
pub open spec fn differ_at(a: Seq<u32>, b: Seq<u32>, i: int) -> bool {
    &&& 0 <= i <= a.len()
    &&& i <= b.len()
    &&& forall|j: int| 0 <= j < i ==> same_number(#[trigger] a[j], b[j])
    &&& if i < a.len() && i < b.len() {
        !same_number(a[i], b[i])
    } else {
        a.len() != b.len()
    }
}

/// The patterns compare as equal.
pub open spec fn same_number(a: u32, b: u32) -> bool {
    !is_nan(a) && !is_nan(b) && rank(a) == rank(b)
}

/// Where two lists of numbers first differ, if they do.
pub fn first_diff(a: &[u32], b: &[u32]) -> (r: Option<usize>)
    ensures
        match r {
            Some(i) => differ_at(a@, b@, i as int),
            None => a@.len() == b@.len() && forall|j: int|
                0 <= j < a@.len() ==> same_number(#[trigger] a@[j], b@[j]),
        },
{
    let mut i: usize = 0;
    while i < a.len() && i < b.len()
        invariant
            i <= a@.len(),
            i <= b@.len(),
            forall|j: int| 0 <= j < i ==> same_number(#[trigger] a@[j], b@[j]),
        decreases a@.len() - i,
    {
        if nan(a[i]) || nan(b[i]) || less(a[i], b[i]) || less(b[i], a[i]) {
            return Some(i);
        }
        i = i + 1;
    }
    if a.len() != b.len() {
        return Some(i);
    }
    None
}

/// `n / d` to the nearest integer; halves go to the even one.
pub open spec fn half_even(n: int, d: int) -> int {
    let q = n / d;
    let r = n % d;
    if 2 * r < d {
        q
    } else if 2 * r > d {
        q + 1
    } else {
        q + q % 2
    }
}

/// `n / d` to the nearest integer; halves go to the even one.
pub fn round_half_even(n: u128, d: u128) -> (r: u128)
    requires
        0 < d < 0x1_0000_0000_0000_0000_0000_0000_0000_000,
        n < 0x1_0000_0000_0000_0000_0000_0000_0000_000,
    ensures
        r == half_even(n as int, d as int),
        r <= n as int / d as int + 1,
{
    let q: u128 = n / d;
    let rest: u128 = n % d;
    assert(q <= n) by (nonlinear_arith)
        requires
            q == n / d,
            d > 0,
    ;
    if 2 * rest < d {
        q
    } else if 2 * rest > d {
        q + 1
    } else {
        q + q % 2
    }
}

/// The step between neighbours at `n` among the numbers whose significand is below
/// `limit`.
pub open spec fn grain(n: int, limit: int) -> int
    decreases n,
{
    if n < limit || limit < 1 {
        1
    } else {
        2 * grain(n / 2, limit)
    }
}

/// The nearest number to `n` whose significand is below `limit`, or the next power.
pub open spec fn rounded(n: int, limit: int) -> int {
    half_even(n, grain(n, limit)) * grain(n, limit)
}

fn grain_of(n: u128, limit: u128) -> (r: u128)
    requires
        2 <= limit,
        limit % 2 == 0,
    ensures
        r == grain(n as int, limit as int),
        1 <= r,
        r > 1 ==> r <= n,
    decreases n,
{
    if n < limit {
        1
    } else {
        let g: u128 = grain_of(n / 2, limit);
        2 * g
    }
}

/// The nearest number to `n` whose significand is below `limit`, or the next power.
pub fn round_to(n: u128, limit: u128) -> (r: u128)
    requires
        2 <= limit,
        limit % 2 == 0,
        n < 0x1_0000_0000_0000_0000_0000_0000_0000_000,
    ensures
        r == rounded(n as int, limit as int),
        r <= 2 * n + 1,
{
    let g: u128 = grain_of(n, limit);
    let q: u128 = round_half_even(n, g);
    proof {
        let (nn, gg, qq) = (n as int, g as int, q as int);
        assert(qq * gg <= nn + gg) by (nonlinear_arith)
            requires
                qq <= nn / gg + 1,
                gg >= 1,
                nn >= 0,
        ;
    }
    q * g
}

/// `x` times `m * 2^e`, in arithmetic with significands below `limit`, without its
/// fraction.
pub open spec fn scaled(x: int, m: int, e: int, limit: int) -> int {
    let p = rounded(rounded(x, limit) * m, limit);
    if e >= 0 {
        p * vstd::arithmetic::power2::pow2(e as nat)
    } else {
        p / vstd::arithmetic::power2::pow2((-e) as nat) as int
    }
}

/// At most the largest machine number.
pub open spec fn saturated(n: int) -> int {
    if n <= usize::MAX {
        n
    } else {
        usize::MAX as int
    }
}

fn scale_down(p: u128, k: u64) -> (r: usize)
    requires
        p < 0x1_0000_0000_0000_0000_0000_0000_0000_0000,
        k >= 1,
    ensures
        r == saturated(p as int / vstd::arithmetic::power2::pow2(k as nat) as int),
    decreases k,
{
    proof {
        vstd::arithmetic::power2::lemma2_to64();
        vstd::arithmetic::power2::lemma_pow2_unfold(k as nat);
        vstd::arithmetic::power2::lemma_pow2_pos((k - 1) as nat);
        let (pp, h) = (p as int, vstd::arithmetic::power2::pow2((k - 1) as nat) as int);
        vstd::arithmetic::div_mod::lemma_div_denominator(pp, 2, h);
        assert(2 * h == vstd::arithmetic::power2::pow2(k as nat));
        if p == 0 {
            vstd::arithmetic::div_mod::lemma_div_of0(2 * h);
        }
    }
    if p == 0 {
        return 0;
    }
    let q: u128 = p / 2;
    if k == 1 {
        assert(vstd::arithmetic::power2::pow2(0) == 1);
        if q <= usize::MAX as u128 {
            return q as usize;
        }
        return usize::MAX;
    }
    scale_down(q, k - 1)
}

fn scale_up(p: u128, k: u64) -> (r: usize)
    ensures
        r == saturated(p * vstd::arithmetic::power2::pow2(k as nat)),
    decreases k,
{
    proof {
        vstd::arithmetic::power2::lemma2_to64();
        vstd::arithmetic::power2::lemma_pow2_pos(k as nat);
    }
    if p == 0 {
        return 0;
    }
    if p > usize::MAX as u128 {
        assert(p * vstd::arithmetic::power2::pow2(k as nat) >= p) by (nonlinear_arith)
            requires
                vstd::arithmetic::power2::pow2(k as nat) >= 1,
                p >= 0,
        ;
        return usize::MAX;
    }
    if k == 0 {
        return p as usize;
    }
    proof {
        vstd::arithmetic::power2::lemma_pow2_unfold(k as nat);
        let h = vstd::arithmetic::power2::pow2((k - 1) as nat) as int;
        assert((2 * p) * h == p * (2 * h)) by (nonlinear_arith);
    }
    scale_up(2 * p, k - 1)
}

/// `x` times `m * 2^e`, in arithmetic with significands below `limit`, without its
/// fraction, at most the largest machine number.
pub fn scale(x: usize, m: u64, e: i64, limit: u128) -> (r: usize)
    requires
        2 <= limit <= 0x20_0000_0000_0000,
        limit % 2 == 0,
        m < 0x20_0000_0000_0000,
        -0x10000 < e < 0x10000,
    ensures
        r == saturated(scaled(x as int, m as int, e as int, limit as int)),
{
    let y: u128 = round_to(x as u128, limit);
    assert(y * m <= 0x2_0000_0000_0000_0000 * 0x20_0000_0000_0000) by (nonlinear_arith)
        requires
            y <= 0x2_0000_0000_0000_0000,
            m <= 0x20_0000_0000_0000,
    ;
    let p: u128 = round_to(y * m as u128, limit);
    if e >= 0 {
        scale_up(p, e as u64)
    } else {
        scale_down(p, (-e) as u64)
    }
}

/// What a machine number times a double comes to, without its fraction: nothing for
/// what is negative or no number, and the largest machine number for what is too
/// large.
pub open spec fn times_f64(x: int, bits: u64) -> int {
    let e = bits as int / 0x10_0000_0000_0000 % 0x800;
    let frac = bits as int % 0x10_0000_0000_0000;
    if bits >= 0x8000_0000_0000_0000 || is_nan64(bits) {
        0
    } else if e == 0x7FF {
        if x == 0 {
            0
        } else {
            usize::MAX as int
        }
    } else if e == 0 {
        saturated(scaled(x, frac, -1074, 0x20_0000_0000_0000))
    } else {
        saturated(scaled(x, frac + 0x10_0000_0000_0000, e - 1075, 0x20_0000_0000_0000))
    }
}

/// What a machine number times a double comes to, without its fraction.
pub fn floor_times_f64(x: usize, bits: u64) -> (r: usize)
    ensures
        r == times_f64(x as int, bits),
{
    let e: u64 = bits / 0x10_0000_0000_0000 % 0x800;
    let frac: u64 = bits % 0x10_0000_0000_0000;
    if bits >= 0x8000_0000_0000_0000 {
        return 0;
    }
    if e == 0x7FF {
        if frac > 0 || x == 0 {
            return 0;
        }
        return usize::MAX;
    }
    if e == 0 {
        scale(x, frac, -1074, 0x20_0000_0000_0000)
    } else {
        scale(x, frac + 0x10_0000_0000_0000, e as i64 - 1075, 0x20_0000_0000_0000)
    }
}

/// What a machine number times a single comes to, without its fraction, as for a
/// double.
pub open spec fn times_f32(x: int, bits: u32) -> int {
    let e = bits as int / 0x80_0000 % 0x100;
    let frac = bits as int % 0x80_0000;
    if bits >= 0x8000_0000 || is_nan(bits) {
        0
    } else if e == 0xFF {
        if x == 0 {
            0
        } else {
            usize::MAX as int
        }
    } else if e == 0 {
        saturated(scaled(x, frac, -149, 0x100_0000))
    } else {
        saturated(scaled(x, frac + 0x80_0000, e - 150, 0x100_0000))
    }
}

/// What a machine number times a single comes to, without its fraction.
pub fn floor_times_f32(x: usize, bits: u32) -> (r: usize)
    ensures
        r == times_f32(x as int, bits),
{
    let e: u32 = bits / 0x80_0000 % 0x100;
    let frac: u32 = bits % 0x80_0000;
    if bits >= 0x8000_0000 {
        return 0;
    }
    if e == 0xFF {
        if frac > 0 || x == 0 {
            return 0;
        }
        return usize::MAX;
    }
    if e == 0 {
        scale(x, frac as u64, -149, 0x100_0000)
    } else {
        scale(x, (frac + 0x80_0000) as u64, e as i64 - 150, 0x100_0000)
    }
}

/// The magnitude of the single nearest to a finite double with exponent field `e`
/// and fraction `frac`, as bits: halves go to the even one, and what is too large
/// becomes infinite.
pub open spec fn narrowed_magnitude(e: int, frac: int) -> int {
    let m = if e == 0 {
        frac
    } else {
        frac + 0x10_0000_0000_0000
    };
    let ex = (if e == 0 {
        1
    } else {
        e
    }) - 896;
    let mag = if ex >= 1 {
        (ex - 1) * 0x80_0000 + half_even(m, 0x2000_0000)
    } else if ex < -30 {
        0
    } else {
        half_even(m, vstd::arithmetic::power2::pow2((30 - ex) as nat) as int)
    };
    if mag < 0x7F80_0000 {
        mag
    } else {
        0x7F80_0000
    }
}

/// The single nearest to a double, both as bits.
pub open spec fn narrowed(bits: u64) -> u32 {
    let sign = bits as int / 0x8000_0000_0000_0000;
    let e = bits as int / 0x10_0000_0000_0000 % 0x800;
    let frac = bits as int % 0x10_0000_0000_0000;
    let mag = if e < 0x7FF {
        narrowed_magnitude(e, frac)
    } else if frac == 0 {
        0x7F80_0000
    } else {
        0x7FC0_0000
    };
    (sign * 0x8000_0000 + mag) as u32
}

fn power_of_two(n: u64) -> (r: u64)
    requires
        n <= 60,
    ensures
        r == vstd::arithmetic::power2::pow2(n as nat),
        0 < r,
{
    proof {
        vstd::arithmetic::power2::lemma2_to64();
        vstd::arithmetic::power2::lemma_pow2_strictly_increases(n as nat, 64);
        vstd::arithmetic::power2::lemma_pow2_pos(n as nat);
        vstd::bits::lemma_u64_shl_is_mul(1, n);
    }
    1u64 << n
}

fn narrow_magnitude(e: u64, frac: u64) -> (r: u32)
    requires
        e < 0x7FF,
        frac < 0x10_0000_0000_0000,
    ensures
        r == narrowed_magnitude(e as int, frac as int),
        r <= 0x7F80_0000,
{
    let m: u64 = if e == 0 {
        frac
    } else {
        frac + 0x10_0000_0000_0000
    };
    let ex: u64 = if e == 0 {
        1
    } else {
        e
    };
    let mag: u128 = if ex >= 897 {
        (ex - 897) as u128 * 0x80_0000 + round_half_even(m as u128, 0x2000_0000)
    } else if ex < 866 {
        0
    } else {
        round_half_even(m as u128, power_of_two(926 - ex) as u128)
    };
    if mag < 0x7F80_0000 {
        mag as u32
    } else {
        0x7F80_0000
    }
}

/// The single nearest to a double, both as bits.
pub fn narrow(bits: u64) -> (r: u32)
    ensures
        r == narrowed(bits),
{
    let e: u64 = bits / 0x10_0000_0000_0000 % 0x800;
    let frac: u64 = bits % 0x10_0000_0000_0000;
    let mag: u32 = if e < 0x7FF {
        narrow_magnitude(e, frac)
    } else if frac == 0 {
        0x7F80_0000
    } else {
        0x7FC0_0000
    };
    if bits >= 0x8000_0000_0000_0000 {
        0x8000_0000 + mag
    } else {
        mag
    }
}

/// The search finds the greatest: no number stands above it, and every number
/// before it stands below.
pub proof fn best_is_greatest(v: Seq<u32>, n: int, j: int)
    requires
        0 <= j < n <= v.len(),
    ensures
        !below(best(v, n).1, v[j]),
        !is_nan(best(v, n).1),
        best(v, n).1 != NEG_INFINITY_BITS ==> best(v, n).1 == v[best(v, n).0] && 0 <= best(v, n).0
            < n,
        best(v, n).1 != NEG_INFINITY_BITS && j < best(v, n).0 && !is_nan(v[j]) ==> below(
            v[j],
            best(v, n).1,
        ),
    decreases n,
{
    reveal_with_fuel(best, 2);
    if j < n - 1 {
        best_is_greatest(v, n - 1, j);
    } else if n > 1 {
        best_is_greatest(v, n - 1, 0);
    }
}

} // verus!
