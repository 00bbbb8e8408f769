//! Integer rounding shared by the geometry and colour computations.

use vstd::prelude::*;
use vstd::arithmetic::div_mod::lemma_fundamental_div_mod_converse;

verus! {

/// `n / d` rounded to the nearest integer, halves rounded up.
pub open spec fn round_div(n: int, d: int) -> int {
    (2 * n + d) / (2 * d)
}

pub open spec fn min_int(a: int, b: int) -> int {
    if a <= b { a } else { b }
}

pub open spec fn max_int(a: int, b: int) -> int {
    if a >= b { a } else { b }
}

/// `n / d` rounded to the nearest integer, halves rounded up.
pub fn round_div_u64(n: u64, d: u64) -> (r: u64)
    requires
        0 < d <= u32::MAX,
        2 * n + d <= u64::MAX,
    ensures
        r == round_div(n as int, d as int),
{
    (2 * n + d) / (2 * d)
}

pub fn min_u64(a: u64, b: u64) -> (r: u64)
    ensures
        r == min_int(a as int, b as int),
{
    if a <= b { a } else { b }
}

/// A rounded quotient of a numerator of at most `bound * d` is at most `bound`.
pub proof fn lemma_round_div_bound(n: int, d: int, bound: int)
    requires
        d > 0,
        0 <= n <= bound * d,
        bound >= 0,
    ensures
        0 <= round_div(n, d) <= bound,
{
    assert(2 * n + d < (2 * bound + 2) * d) by (nonlinear_arith)
        requires n <= bound * d, d > 0;
    assert((2 * n + d) / (2 * d) <= bound) by (nonlinear_arith)
        requires 2 * n + d < (2 * bound + 2) * d, d > 0, n >= 0, bound >= 0;
    assert((2 * n + d) / (2 * d) >= 0) by (nonlinear_arith)
        requires d > 0, n >= 0;
}

/// `2` to the power `e`.
pub open spec fn two_to(e: nat) -> nat
    decreases e,
{
    if e == 0 { 1 } else { 2 * two_to((e - 1) as nat) }
}

/// The least significand of a normal double, `2^52`; significands lie in `[2^52, 2^53)`.
pub open spec fn significand_floor() -> nat {
    4_503_599_627_370_496
}

/// `a - b` where `a > b`, else zero.
pub open spec fn excess(a: nat, b: nat) -> nat {
    if a > b { (a - b) as nat } else { 0 }
}

/// `a / b` rounded to the nearest integer, ties to the even one.
pub open spec fn round_half_even(a: nat, b: nat) -> nat {
    let q = a / b;
    let r = a % b;
    if 2 * r > b {
        q + 1
    } else if 2 * r < b {
        q
    } else if q % 2 == 0 {
        q
    } else {
        q + 1
    }
}

/// How many doublings of `n` bring `n / d` to at least `2^52`.
pub open spec fn shift_up(n: nat, d: nat) -> nat
    decreases excess(significand_floor() * d, n),
{
    if n == 0 || n >= significand_floor() * d {
        0
    } else {
        1 + shift_up(2 * n, d)
    }
}

/// How many halvings of `n / d` bring it below `2^53` (those of the whole part of `n / 2^t`
/// against `2^53 * d` are the same).
pub open spec fn shift_down(n: nat, d: nat) -> nat
    decreases n,
{
    if n == 0 || n < 2 * significand_floor() * d {
        0
    } else {
        1 + shift_down(n / 2, d)
    }
}

/// The double nearest to `n / d`, ties to an even significand, as a fraction whose
/// numerator and denominator are a 53-bit significand and a power of two (one of them
/// `1`); for quotients within the range of normal doubles.
pub open spec fn nearest_double(n: nat, d: nat) -> (nat, nat) {
    if n == 0 || d == 0 {
        (0, 1)
    } else if n < significand_floor() * d {
        let s = shift_up(n, d);
        (round_half_even(n * two_to(s), d), two_to(s))
    } else {
        let t = shift_down(n, d);
        (round_half_even(n, d * two_to(t)) * two_to(t), 1)
    }
}

/// `a / b` rounded to the nearest integer, ties to the even one.
pub fn round_half_even_u128(a: u128, b: u128) -> (r: u128)
    requires
        b > 0,
    ensures
        r == round_half_even(a as nat, b as nat),
{
    let q = a / b;
    let rem = a % b;
    proof {
        vstd::arithmetic::div_mod::lemma_fundamental_div_mod(a as int, b as int);
        assert(q * b <= a) by (nonlinear_arith)
            requires a == b * q + rem, rem >= 0;
        assert(rem > 0 ==> q < a) by (nonlinear_arith)
            requires a == b * q + rem, b > 0, q >= 0;
    }
    if rem > b - rem {
        q + 1
    } else if rem < b - rem {
        q
    } else if q % 2 == 0 {
        q
    } else {
        q + 1
    }
}

/// Scaling both sides of a quotient leaves its rounding unchanged.
pub proof fn lemma_round_half_even_scaled(a: nat, b: nat, c: nat)
    requires
        b > 0,
        c > 0,
    ensures
        round_half_even(a * c, b * c) == round_half_even(a, b),
{
    let q = a / b;
    let r = a % b;
    vstd::arithmetic::div_mod::lemma_fundamental_div_mod(a as int, b as int);
    assert(a * c == q * (b * c) + r * c) by (nonlinear_arith)
        requires a == b * q + r;
    assert(r * c < b * c) by (nonlinear_arith)
        requires r < b, c > 0;
    assert(r * c >= 0) by (nonlinear_arith)
        requires r >= 0, c > 0;
    lemma_fundamental_div_mod_converse((a * c) as int, (b * c) as int, q as int, (r * c) as int);
    assert((2 * r > b) == (2 * (r * c) > b * c)) by (nonlinear_arith)
        requires c > 0;
    assert((2 * r < b) == (2 * (r * c) < b * c)) by (nonlinear_arith)
        requires c > 0;
}

/// Rounding a quotient is monotonic in its numerator.
pub proof fn lemma_round_half_even_monotonic(a1: nat, a2: nat, b: nat)
    requires
        b > 0,
        a1 <= a2,
    ensures
        round_half_even(a1, b) <= round_half_even(a2, b),
{
    vstd::arithmetic::div_mod::lemma_div_is_ordered(a1 as int, a2 as int, b as int);
    vstd::arithmetic::div_mod::lemma_fundamental_div_mod(a1 as int, b as int);
    vstd::arithmetic::div_mod::lemma_fundamental_div_mod(a2 as int, b as int);
    if a1 / b == a2 / b {
        let q = a1 / b;
        assert(a1 == b * q + a1 % b);
        assert(a2 == b * q + a2 % b);
    }
}

/// A whole quotient rounds to itself.
pub proof fn lemma_round_half_even_exact(k: nat, b: nat)
    requires
        b > 0,
    ensures
        round_half_even(k * b, b) == k,
{
    lemma_fundamental_div_mod_converse((k * b) as int, b as int, k as int, 0);
}

/// The double nearest to `n / d` for `0 < n / d < 2^52`, found by doubling `n`: its
/// significand `r.0`, in `[2^52, 2^53]`, and its scale `r.1`, a power of two with
/// `2^52 <= n * r.1 / d < 2^53`.
pub fn nearest_double_below_floor(n: u128, d: u128) -> (r: (u128, u128))
    requires
        0 < n,
        n < significand_floor() * d,
        d <= 0x40_0000_0000_0000_0000,
    ensures
        (r.0 as nat, r.1 as nat) == nearest_double(n as nat, d as nat),
        r.1 == two_to(shift_up(n as nat, d as nat)),
        significand_floor() <= r.0 <= 2 * significand_floor(),
        significand_floor() * d <= n * r.1 < 2 * significand_floor() * d,
{
    let mut num: u128 = n;
    let mut scale: u128 = 1;
    let ghost mut k: nat = 0;
    while num < 4_503_599_627_370_496 * d
        invariant
            0 < n < significand_floor() * d,
            d <= 0x40_0000_0000_0000_0000,
            num == n * scale,
            1 <= scale <= num,
            scale == two_to(k),
            shift_up(n as nat, d as nat) == k + shift_up(num as nat, d as nat),
            0 < num < 2 * (significand_floor() * d),
        decreases excess((significand_floor() * d) as nat, num as nat),
    {
        assert(shift_up(num as nat, d as nat) == 1 + shift_up(2 * num as nat, d as nat));
        assert(2 * num == n * (2 * scale)) by (nonlinear_arith)
            requires num == n * scale;
        num = 2 * num;
        scale = 2 * scale;
        proof {
            k = k + 1;
        }
    }
    assert(shift_up(num as nat, d as nat) == 0);
    let m = round_half_even_u128(num, d);
    proof {
        assert(2 * (significand_floor() * d) == 2 * significand_floor() * d) by (nonlinear_arith);
        lemma_round_half_even_monotonic((significand_floor() * d) as nat, num as nat, d as nat);
        lemma_round_half_even_monotonic(num as nat, (2 * significand_floor() * d) as nat, d as nat);
        lemma_round_half_even_exact(significand_floor(), d as nat);
        lemma_round_half_even_exact(2 * significand_floor(), d as nat);
        assert(significand_floor() * d == d * significand_floor()) by (nonlinear_arith);
    }
    (m, scale)
}

/// The nearest double to `width / height`, as `nearest_double` gives it, with its bounds:
/// a significand in `[2^52, 2^53]` over a power of two that scales the quotient into that
/// range.
pub fn ratio_double(width: u32, height: u32) -> (r: (u128, u128))
    requires
        0 < width,
        0 < height,
    ensures
        (r.0 as nat, r.1 as nat) == nearest_double(width as nat, height as nat),
        r.1 == two_to(shift_up(width as nat, height as nat)),
        significand_floor() <= r.0 <= 2 * significand_floor(),
        1 <= r.1 <= 2 * significand_floor() * 0xffff_ffff,
        width > height ==> r.1 <= r.0,
        width <= height ==> r.0 <= r.1,
        significand_floor() * height <= width * r.1 < 2 * significand_floor() * height,
{
    proof {
        assert(width < significand_floor() * height) by (nonlinear_arith)
            requires width <= 0xffff_ffff, height >= 1;
    }
    let (ratio_m, ratio_s) = nearest_double_below_floor(width as u128, height as u128);
    proof {
        vstd::arithmetic::mul::lemma_mul_is_commutative(ratio_s as int, height as int);
        if width > height {
            assert(height * ratio_s <= width * ratio_s) by (nonlinear_arith)
                requires height < width, ratio_s >= 0;
            lemma_round_half_even_monotonic((height * ratio_s) as nat, (width * ratio_s) as nat, height as nat);
        } else {
            assert(width * ratio_s <= height * ratio_s) by (nonlinear_arith)
                requires width <= height, ratio_s >= 0;
            lemma_round_half_even_monotonic((width * ratio_s) as nat, (height * ratio_s) as nat, height as nat);
        }
        lemma_round_half_even_exact(ratio_s as nat, height as nat);
        assert(ratio_s <= width * ratio_s) by (nonlinear_arith)
            requires width >= 1, ratio_s >= 0;
        assert(2 * significand_floor() * height <= 2 * significand_floor() * 0xffff_ffff) by (nonlinear_arith)
            requires height <= 0xffff_ffff;
        lemma_two_to_positive(shift_up(width as nat, height as nat));
    }
    (ratio_m, ratio_s)
}

/// `2^e` is positive.
pub proof fn lemma_two_to_positive(e: nat)
    ensures
        two_to(e) >= 1,
    decreases e,
{
    if e > 0 {
        lemma_two_to_positive((e - 1) as nat);
    }
}

/// `m` over the double `ratio_m / ratio_s`, a quotient of at most `bound`, rounded to the
/// nearest double, then to the nearest integer with halves up.
pub fn quotient_side(m: u128, ratio_m: u128, ratio_s: u128, bound: u128) -> (r: u128)
    requires
        1 <= m <= 0xffff_ffff,
        1 <= ratio_s,
        1 <= ratio_m <= 2 * significand_floor(),
        bound <= 0xff_ffff_ffff,
        m * ratio_s <= bound * ratio_m,
    ensures
        ({
            let q = nearest_double((m * ratio_s) as nat, ratio_m as nat);
            r == round_div(q.0 as int, q.1 as int)
        }),
        r <= bound,
{
    proof {
        assert(bound * ratio_m < significand_floor() * ratio_m) by (nonlinear_arith)
            requires bound <= 0xff_ffff_ffff, ratio_m > 0;
        assert(m * ratio_s > 0) by (nonlinear_arith)
            requires m > 0, ratio_s > 0;
        assert(bound * ratio_m <= 0xff_ffff_ffff * (2 * significand_floor())) by (nonlinear_arith)
            requires bound <= 0xff_ffff_ffff, ratio_m <= 2 * significand_floor();
    }
    let n = m * ratio_s;
    let (q_m, q_s) = nearest_double_below_floor(n, ratio_m);
    proof {
        assert(n * q_s <= bound * q_s * ratio_m) by (nonlinear_arith)
            requires n <= bound * ratio_m, q_s >= 0;
        assert(bound * q_s * ratio_m == (bound * q_s) * ratio_m);
        lemma_round_half_even_monotonic((n * q_s) as nat, (bound * q_s * ratio_m) as nat, ratio_m as nat);
        lemma_round_half_even_exact((bound * q_s) as nat, ratio_m as nat);
        lemma_two_to_positive(shift_up(n as nat, ratio_m as nat));
        lemma_round_div_bound(q_m as int, q_s as int, bound as int);
        assert(q_s <= n * q_s) by (nonlinear_arith)
            requires n >= 1, q_s >= 0;
        assert(2 * significand_floor() * ratio_m <= 2 * significand_floor() * (2 * significand_floor())) by (nonlinear_arith)
            requires ratio_m <= 2 * significand_floor();
        assert(q_s < 2 * significand_floor() * ratio_m);
        assert(2 * significand_floor() * (2 * significand_floor()) == 81129638414606681695789005144064) by (nonlinear_arith)
            requires significand_floor() == 4_503_599_627_370_496;
        assert(q_s < 81129638414606681695789005144064);
    }
    (2 * q_m + q_s) / (2 * q_s)
}

/// `m` times the double `ratio_m / ratio_s`, whose denominator is a power of two, a product
/// of at most `bound`, rounded to the nearest double, then to the nearest integer with halves
/// up.
pub fn product_side(m: u128, ratio_m: u128, ratio_s: u128, Ghost(e): Ghost<nat>, bound: u128) -> (r: u128)
    requires
        1 <= m <= 0xffff_ffff,
        significand_floor() <= ratio_m <= 2 * significand_floor(),
        1 <= ratio_s <= 2 * significand_floor() * 0xffff_ffff,
        ratio_s == two_to(e),
        bound <= 0xff_ffff_ffff,
        m * ratio_m <= bound * ratio_s,
    ensures
        ({
            let p = nearest_double((m * ratio_m) as nat, ratio_s as nat);
            r == round_div(p.0 as int, p.1 as int)
        }),
        r <= bound,
{
    proof {
        assert(m * ratio_m <= 0xffff_ffff * (2 * significand_floor())) by (nonlinear_arith)
            requires m <= 0xffff_ffff, ratio_m <= 2 * significand_floor();
        assert(m * ratio_m >= significand_floor()) by (nonlinear_arith)
            requires m >= 1, ratio_m >= significand_floor();
        assert(0xffff_ffff * (2 * significand_floor()) <= 0x4000_0000_0000_0000_0000_0000_0000) by (nonlinear_arith)
            requires significand_floor() == 4_503_599_627_370_496;
        assert(2 * significand_floor() * 0xffff_ffff <= 0x400_0000_0000_0000_0000_0000_0000_0000) by (nonlinear_arith)
            requires significand_floor() == 4_503_599_627_370_496;
    }
    double_side(m * ratio_m, ratio_s, Ghost(e), bound)
}

/// The double nearest to `n / ratio_s`, whose denominator is a power of two, for quotients
/// below `2^52`: its significand, in `[2^52, 2^53]`, over its scale, a power of two.
pub fn double_fraction(n: u128, ratio_s: u128, Ghost(e): Ghost<nat>) -> (r: (u128, u128))
    requires
        significand_floor() <= n <= 0x4000_0000_0000_0000_0000_0000_0000,
        1 <= ratio_s <= 0x2000_0000_0000_0000_0000_0000_0000_0000,
        ratio_s == two_to(e),
        n < significand_floor() * ratio_s,
    ensures
        (r.0 as nat, r.1 as nat) == nearest_double(n as nat, ratio_s as nat),
        r.1 == two_to(shift_up(n as nat, ratio_s as nat)),
        1 <= r.1 <= ratio_s,
        significand_floor() <= r.0 <= 2 * significand_floor(),
{
    proof {
        assert(n < 2 * significand_floor() * ratio_s) by (nonlinear_arith)
            requires n < significand_floor() * ratio_s, ratio_s > 0;
    }
    let mut low: u128 = ratio_s;
    let mut scale: u128 = 1;
    let ghost mut k: nat = 0;
    let ghost mut j: nat = e;
    while n / 4_503_599_627_370_496 < low
        invariant
            ratio_s == low * scale,
            low == two_to(j),
            scale == two_to(k),
            1 <= scale <= ratio_s,
            significand_floor() <= n < significand_floor() * ratio_s,
            n < 2 * significand_floor() * low,
            ratio_s <= 0x2000_0000_0000_0000_0000_0000_0000_0000,
            shift_up(n as nat, ratio_s as nat) == k + shift_up((n * scale) as nat, ratio_s as nat),
        decreases j,
    {
        proof {
            if j == 0 {
                assert((n as nat) / significand_floor() >= 1) by (nonlinear_arith)
                    requires n >= significand_floor();
            }
            assert(n * scale < significand_floor() * ratio_s) by (nonlinear_arith)
                requires (n as nat) / significand_floor() < low, ratio_s == low * scale, scale >= 1;
            assert(n < significand_floor() * low) by (nonlinear_arith)
                requires (n as nat) / significand_floor() < low;
            assert(n * scale > 0) by (nonlinear_arith)
                requires n >= 1, scale >= 1;
            assert(shift_up((n * scale) as nat, ratio_s as nat) == 1 + shift_up((2 * (n * scale)) as nat, ratio_s as nat));
            assert(2 * (n * scale) == n * (2 * scale)) by (nonlinear_arith);
            assert(low == 2 * two_to((j - 1) as nat));
            assert(ratio_s == (low / 2) * (2 * scale)) by (nonlinear_arith)
                requires ratio_s == low * scale, low == 2 * two_to((j - 1) as nat);
            lemma_two_to_positive((j - 1) as nat);
            assert(2 * scale <= ratio_s) by (nonlinear_arith)
                requires ratio_s == (low / 2) * (2 * scale), low / 2 >= 1;
            assert(n < 2 * significand_floor() * (low / 2)) by (nonlinear_arith)
                requires n < significand_floor() * low, low == 2 * two_to((j - 1) as nat);
        }
        low = low / 2;
        scale = 2 * scale;
        proof {
            k = k + 1;
            j = (j - 1) as nat;
        }
    }
    proof {
        assert(n >= significand_floor() * low) by (nonlinear_arith)
            requires (n as nat) / significand_floor() >= low;
        assert(n * scale >= significand_floor() * ratio_s) by (nonlinear_arith)
            requires n >= significand_floor() * low, ratio_s == low * scale, scale >= 1;
        assert(shift_up((n * scale) as nat, ratio_s as nat) == 0);
        lemma_two_to_positive(j);
        lemma_round_half_even_scaled(n as nat, low as nat, scale as nat);
        lemma_round_half_even_monotonic(n as nat, (2 * significand_floor() * low) as nat, low as nat);
        lemma_round_half_even_exact(2 * significand_floor(), low as nat);
        assert(2 * significand_floor() * low == (2 * significand_floor()) * low);
        lemma_round_half_even_monotonic((significand_floor() * low) as nat, n as nat, low as nat);
        lemma_round_half_even_exact(significand_floor(), low as nat);
    }
    let p_m = round_half_even_u128(n, low);
    (p_m, scale)
}

/// The double nearest to `n / ratio_s`, whose denominator is a power of two, a quotient of at
/// most `bound`, rounded to the nearest integer with halves up.
pub fn double_side(n: u128, ratio_s: u128, Ghost(e): Ghost<nat>, bound: u128) -> (r: u128)
    requires
        significand_floor() <= n <= 0x4000_0000_0000_0000_0000_0000_0000,
        1 <= ratio_s <= 0x2000_0000_0000_0000_0000_0000_0000_0000,
        ratio_s == two_to(e),
        bound <= 0xff_ffff_ffff,
        n <= bound * ratio_s,
    ensures
        ({
            let p = nearest_double(n as nat, ratio_s as nat);
            r == round_div(p.0 as int, p.1 as int)
        }),
        r <= bound,
{
    proof {
        assert(bound * ratio_s < significand_floor() * ratio_s) by (nonlinear_arith)
            requires bound <= 0xff_ffff_ffff, ratio_s > 0;
    }
    let (p_m, scale) = double_fraction(n, ratio_s, Ghost(e));
    proof {
        assert(n * scale <= bound * scale * ratio_s) by (nonlinear_arith)
            requires n <= bound * ratio_s, scale >= 1;
        assert(bound * scale * ratio_s == (bound * scale) * ratio_s);
        lemma_round_half_even_monotonic((n * scale) as nat, (bound * scale * ratio_s) as nat, ratio_s as nat);
        lemma_round_half_even_exact((bound * scale) as nat, ratio_s as nat);
        lemma_round_div_bound(p_m as int, scale as int, bound as int);
    }
    (2 * p_m + scale) / (2 * scale)
}

/// Powers of two multiply by adding their exponents.
pub proof fn lemma_two_to_adds(a: nat, b: nat)
    ensures
        two_to(a + b) == two_to(a) * two_to(b),
    decreases b,
{
    if b == 0 {
        assert(a + b == a);
        assert(two_to(0) == 1);
    } else {
        lemma_two_to_adds(a, (b - 1) as nat);
        assert((a + b - 1) as nat == a + (b - 1) as nat);
        assert(two_to(a + b) == 2 * two_to((a + b - 1) as nat));
        assert(two_to(a) * (2 * two_to((b - 1) as nat)) == 2 * (two_to(a) * two_to((b - 1) as nat))) by (nonlinear_arith);
    }
}

/// A smaller power of two divides a larger one.
pub proof fn lemma_two_to_divides(big: nat, small: nat)
    requires
        two_to(small) <= two_to(big),
    ensures
        two_to(big) == two_to(small) * (two_to(big) / two_to(small)),
{
    if big < small {
        lemma_two_to_grows(big, small);
    } else {
        lemma_two_to_adds(small, (big - small) as nat);
        lemma_two_to_positive(small);
        vstd::arithmetic::div_mod::lemma_div_multiples_vanish(two_to((big - small) as nat) as int, two_to(small) as int);
    }
}

/// Powers of two grow with the exponent.
pub proof fn lemma_two_to_grows(a: nat, b: nat)
    requires
        a < b,
    ensures
        two_to(a) < two_to(b),
    decreases b,
{
    lemma_two_to_positive((b - 1) as nat);
    if a < b - 1 {
        lemma_two_to_grows(a, (b - 1) as nat);
    }
}

/// Whether the double `am / a_s` is at most the double `bm / b_s`, their significands at most
/// `2^53` and their denominators powers of two.
pub fn double_at_most(am: u128, a_s: u128, Ghost(ea): Ghost<nat>, bm: u128, b_s: u128, Ghost(eb): Ghost<nat>) -> (r: bool)
    requires
        1 <= am <= 2 * significand_floor(),
        1 <= bm <= 2 * significand_floor(),
        a_s == two_to(ea),
        b_s == two_to(eb),
    ensures
        r == (am * b_s <= bm * a_s),
{
    proof {
        lemma_two_to_positive(ea);
        lemma_two_to_positive(eb);
    }
    if a_s >= b_s {
        proof {
            lemma_two_to_divides(ea, eb);
        }
        let q = a_s / b_s;
        proof {
            assert(a_s == b_s * q);
            assert((am * b_s <= bm * a_s) == (am <= bm * q)) by (nonlinear_arith)
                requires a_s == b_s * q, b_s >= 1;
        }
        if q > 9_007_199_254_740_992 {
            assert(bm * q >= q) by (nonlinear_arith)
                requires bm >= 1, q >= 0;
            return true;
        }
        assert(bm * q <= 9_007_199_254_740_992 * 9_007_199_254_740_992) by (nonlinear_arith)
            requires bm <= 9_007_199_254_740_992, q <= 9_007_199_254_740_992;
        am <= bm * q
    } else {
        proof {
            lemma_two_to_divides(eb, ea);
        }
        let q = b_s / a_s;
        proof {
            assert(b_s == a_s * q);
            assert((am * b_s <= bm * a_s) == (am * q <= bm)) by (nonlinear_arith)
                requires b_s == a_s * q, a_s >= 1;
        }
        if q > 9_007_199_254_740_992 {
            assert(am * q >= q) by (nonlinear_arith)
                requires am >= 1, q >= 0;
            return false;
        }
        assert(am * q <= 9_007_199_254_740_992 * 9_007_199_254_740_992) by (nonlinear_arith)
            requires am <= 9_007_199_254_740_992, q <= 9_007_199_254_740_992;
        am * q <= bm
    }
}

} // verus!
