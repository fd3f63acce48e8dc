//! Facts about machine arithmetic that the fixed-point code relies on.
use vstd::prelude::*;

verus! {

/// Division that truncates toward zero, the meaning of `/` on signed machine
/// integers.
pub open spec fn trunc_div(a: int, b: int) -> int {
    if a >= 0 {
        a / b
    } else {
        -((-a) / b)
    }
}

/// Absolute value of an integer.
pub open spec fn abs(a: int) -> int {
    if a < 0 {
        -a
    } else {
        a
    }
}

/// An arithmetic right shift of a 64-bit value by one more place shifts once more.
proof fn lemma_i64_shr_step(x: i64, n: u64, m: u64)
    requires
        n < 62,
        m == n + 1,
    ensures
        x >> m == (x >> n) >> 1u64,
        (x >> n) >> 1u64 == (x >> n) as int / 2,
{
    let y: i64 = x >> n;
    assert(x >> m == (x >> n) >> 1u64) by (bit_vector)
        requires
            m == n + 1,
            n < 62,
    ;
    assert(y >> 1u64 == y / 2) by (bit_vector);
}

/// Halving a floor quotient doubles the divisor.
proof fn lemma_floor_div_twice(x: int, p: int)
    requires
        p > 0,
    ensures
        (x / p) / 2 == x / (2 * p),
{
    let q = x / p;
    let r = x % p;
    let h = q / 2;
    let b = q % 2;
    vstd::arithmetic::div_mod::lemma_fundamental_div_mod(x, p);
    vstd::arithmetic::div_mod::lemma_mod_bound(x, p);
    assert(x == h * (2 * p) + (p * b + r)) by (nonlinear_arith)
        requires
            x == p * q + r,
            q == 2 * h + b,
    ;
    assert(0 <= p * b + r < 2 * p) by (nonlinear_arith)
        requires
            0 <= r < p,
            0 <= b <= 1,
    ;
    vstd::arithmetic::div_mod::lemma_fundamental_div_mod_converse_div(x, 2 * p, h, p * b + r);
}

/// `x >> n` on a signed 64-bit value is floor division by `2^n`.
pub proof fn lemma_i64_shr(x: i64, n: u64)
    requires
        n <= 62,
    ensures
        x >> n == x as int / vstd::arithmetic::power2::pow2(n as nat) as int,
    decreases n,
{
    if n == 0 {
        assert(x >> 0u64 == x) by (bit_vector);
        vstd::arithmetic::power2::lemma2_to64();
        assert(x as int / 1 == x);
    } else {
        let k: u64 = (n - 1) as u64;
        lemma_i64_shr(x, k);
        lemma_i64_shr_step(x, k, n);
        let p = vstd::arithmetic::power2::pow2(k as nat) as int;
        vstd::arithmetic::power2::lemma_pow2_unfold(n as nat);
        vstd::arithmetic::power2::lemma_pow2_pos(k as nat);
        lemma_floor_div_twice(x as int, p);
        assert((n as nat - 1) as nat == k as nat);
        assert(vstd::arithmetic::power2::pow2(n as nat) == 2 * p);
        assert((x >> k) as int == x as int / p);
        assert((x >> n) as int == (x >> k) as int / 2);
    }
}

/// The shifts by a fixed amount that occur in the image pipeline.
pub proof fn lemma_i64_shr_fixed(x: i64)
    ensures
        x >> 1u64 == x as int / 2,
        x >> 2u64 == x as int / 4,
        x >> 4u64 == x as int / 16,
        x >> 8u64 == x as int / 256,
        x >> 9u64 == x as int / 512,
        x >> 12u64 == x as int / 4096,
        x >> 14u64 == x as int / 16384,
        x >> 16u64 == x as int / 65536,
{
    vstd::arithmetic::power2::lemma2_to64();
    lemma_i64_shr(x, 1);
    lemma_i64_shr(x, 2);
    lemma_i64_shr(x, 4);
    lemma_i64_shr(x, 8);
    lemma_i64_shr(x, 9);
    lemma_i64_shr(x, 12);
    lemma_i64_shr(x, 14);
    lemma_i64_shr(x, 16);
}

/// A product of two bounded factors is bounded by the product of the bounds.
pub proof fn lemma_mul_bound(a: int, b: int, x: int, y: int)
    requires
        -x <= a <= x,
        -y <= b <= y,
    ensures
        -(x * y) <= a * b <= x * y,
{
    assert(-(x * y) <= a * b <= x * y) by (nonlinear_arith)
        requires
            -x <= a <= x,
            -y <= b <= y,
    ;
}

/// A quotient is no larger in magnitude than its dividend.
pub proof fn lemma_trunc_div_bound(a: int, b: int)
    requires
        b != 0,
    ensures
        -abs(a) <= trunc_div(a, b) <= abs(a),
{
    let m = abs(a);
    assert(-m <= m / b <= m) by (nonlinear_arith)
        requires
            m >= 0,
            b != 0,
    ;
}

} // verus!
