//! Alignment and power-of-two arithmetic shared by the size-class table, the
//! slab page model and the large-object path.

use vstd::prelude::*;

verus! {

use vstd::arithmetic::div_mod::{
    lemma_fundamental_div_mod, lemma_fundamental_div_mod_converse_mod,
    lemma_mod_division_less_than_divisor, lemma_mod_multiples_basic,
};
use vstd::arithmetic::power2::is_pow2;
use crate::MULTIPLE;

/// The largest multiple of `a` that is at most `x`.
pub open spec fn align_down_spec(x: int, a: int) -> int {
    (x / a) * a
}

/// The closest multiple of 16 greater than or equal to `n`.
pub open spec fn round_up16_spec(n: int) -> int {
    align_down_spec(n + 15, 16)
}

/// The smallest power of two greater than or equal to `n` (and at least 1).
pub open spec fn spec_next_pow2(n: int) -> int
    decreases n,
{
    if n <= 1 {
        1
    } else {
        2 * spec_next_pow2((n + 1) / 2)
    }
}

/// Basic facts about rounding an address down to a multiple of `a`.
pub proof fn lemma_align_down(x: int, a: int)
    requires
        x >= 0,
        a >= 1,
    ensures
        align_down_spec(x, a) % a == 0,
        align_down_spec(x, a) <= x,
        x - align_down_spec(x, a) < a,
        align_down_spec(x, a) >= 0,
        x % a == x - align_down_spec(x, a),
{
    lemma_fundamental_div_mod(x, a);
    lemma_mod_division_less_than_divisor(x, a);
    lemma_mod_multiples_basic(x / a, a);
    assert(x / a * a == a * (x / a)) by (nonlinear_arith);
    assert(x / a >= 0 ==> x / a * a >= 0) by (nonlinear_arith)
        requires
            a >= 1,
    ;
    assert(x / a >= 0) by (nonlinear_arith)
        requires
            x >= 0,
            a >= 1,
    ;
}

/// An offset strictly inside an aligned region rounds down to the region base.
pub proof fn lemma_align_down_exact(pb: int, off: int, a: int)
    requires
        a >= 1,
        pb >= 0,
        pb % a == 0,
        0 <= off < a,
    ensures
        align_down_spec(pb + off, a) == pb,
        (pb + off) % a == off,
{
    lemma_fundamental_div_mod(pb, a);
    let q = pb / a;
    assert(pb == q * a) by (nonlinear_arith)
        requires
            pb == a * q + pb % a,
            pb % a == 0,
    ;
    assert(pb + off == q * a + off);
    lemma_fundamental_div_mod_converse_mod(pb + off, a, q, off);
    // (pb + off) / a == q as well, by uniqueness of the decomposition.
    lemma_fundamental_div_mod(pb + off, a);
    let q2 = (pb + off) / a;
    assert(q2 * a == q * a) by (nonlinear_arith)
        requires
            pb + off == a * q2 + (pb + off) % a,
            (pb + off) % a == off,
            pb + off == q * a + off,
    ;
}

/// Divisibility is transitive: a multiple of `a` is a multiple of any `b`
/// dividing `a`.
pub proof fn lemma_mod_trans(x: int, a: int, b: int)
    requires
        a >= 1,
        b >= 1,
        x >= 0,
        x % a == 0,
        a % b == 0,
    ensures
        x % b == 0,
{
    lemma_fundamental_div_mod(x, a);
    lemma_fundamental_div_mod(a, b);
    let k = x / a;
    let j = a / b;
    assert(x == (j * k) * b) by (nonlinear_arith)
        requires
            x == a * k + x % a,
            x % a == 0,
            a == b * j + a % b,
            a % b == 0,
    ;
    lemma_mod_multiples_basic(j * k, b);
}

/// One power of two at most another divides it, and when strictly smaller its
/// double still fits.
pub proof fn lemma_pow2_divides(a: int, b: int)
    requires
        is_pow2(a),
        is_pow2(b),
        a <= b,
    ensures
        b % a == 0,
        a < b ==> 2 * a <= b,
    decreases b,
{
    reveal(is_pow2);
    if a == b {
        lemma_mod_multiples_basic(1, a);
    } else {
        // b > a >= 1, so b >= 2 and b/2 is a power of two with a <= b/2.
        assert(b % 2 == 0 && is_pow2(b / 2));
        assert(a <= b / 2) by {
            if a > b / 2 {
                // a and b/2 are powers of two with b/2 < a < b = 2*(b/2).
                lemma_pow2_divides(b / 2, a);
                assert(2 * (b / 2) <= a);
            }
        }
        lemma_pow2_divides(a, b / 2);
        lemma_fundamental_div_mod(b / 2, a);
        let k = b / 2 / a;
        assert(b == (2 * k) * a) by (nonlinear_arith)
            requires
                b % 2 == 0,
                b / 2 == a * k + (b / 2) % a,
                (b / 2) % a == 0,
        ;
        lemma_mod_multiples_basic(2 * k, a);
        assert(2 * a <= b) by (nonlinear_arith)
            requires
                a <= b / 2,
                b % 2 == 0,
        ;
    }
}

/// Doubling preserves being a power of two.
pub proof fn lemma_pow2_double(r: int)
    requires
        is_pow2(r),
    ensures
        is_pow2(2 * r),
{
    reveal(is_pow2);
    assert(r >= 1);
    assert((2 * r) % 2 == 0);
    assert((2 * r) / 2 == r);
}

/// `spec_next_pow2(n)` is a power of two, at least `n`, and at most `2 * n`.
pub proof fn lemma_next_pow2_props(n: int)
    ensures
        is_pow2(spec_next_pow2(n)),
        spec_next_pow2(n) >= n,
        spec_next_pow2(n) >= 1,
        n >= 2 ==> spec_next_pow2(n) <= 2 * (n - 1),
        n >= 1 ==> spec_next_pow2(n) <= 2 * n,
    decreases n,
{
    reveal(is_pow2);
    if n <= 1 {
    } else {
        let m = (n + 1) / 2;
        assert(1 <= m < n);
        lemma_next_pow2_props(m);
        lemma_pow2_double(spec_next_pow2(m));
        assert(2 * spec_next_pow2(m) >= n) by {
            assert(2 * m >= n);
        }
    }
}

/// Minimality: no power of two at least `n` is below `spec_next_pow2(n)`.
pub proof fn lemma_next_pow2_min(n: int, m: int)
    requires
        is_pow2(m),
        m >= n,
    ensures
        spec_next_pow2(n) <= m,
    decreases n,
{
    reveal(is_pow2);
    if n <= 1 {
        assert(m >= 1);
    } else {
        let h = (n + 1) / 2;
        assert(m >= n >= 2);
        assert(m % 2 == 0 && is_pow2(m / 2));
        assert(m / 2 >= h);
        lemma_next_pow2_min(h, m / 2);
        assert(2 * spec_next_pow2(h) <= 2 * (m / 2));
        assert(2 * (m / 2) == m);
    }
}

/// A power of two is its own rounding.
pub proof fn lemma_next_pow2_exact(n: int)
    requires
        is_pow2(n),
    ensures
        spec_next_pow2(n) == n,
{
    reveal(is_pow2);
    lemma_next_pow2_min(n, n);
    lemma_next_pow2_props(n);
}

/// A multiple of 16 is its own rounding.
pub proof fn lemma_round16_fixed(x: int)
    requires
        x >= 0,
        x % 16 == 0,
    ensures
        round_up16_spec(x) == x,
{
    lemma_fundamental_div_mod(x, 16);
    let q = x / 16;
    assert(x == 16 * q);
    assert(x + 15 == 16 * q + 15);
    lemma_fundamental_div_mod_converse_mod(x + 15, 16, q, 15);
    lemma_fundamental_div_mod(x + 15, 16);
    let q2 = (x + 15) / 16;
    assert(q2 * 16 == q * 16) by (nonlinear_arith)
        requires
            x + 15 == 16 * q2 + (x + 15) % 16,
            (x + 15) % 16 == 15,
            x == 16 * q,
    ;
}

/// Rounding to a multiple of 16 is monotone.
pub proof fn lemma_round16_mono(a: int, b: int)
    requires
        0 <= a <= b,
    ensures
        round_up16_spec(a) <= round_up16_spec(b),
{
    vstd::arithmetic::div_mod::lemma_div_is_ordered(a + 15, b + 15, 16);
    assert((a + 15) / 16 * 16 <= (b + 15) / 16 * 16) by (nonlinear_arith)
        requires
            (a + 15) / 16 <= (b + 15) / 16,
    ;
}

/// The powers of two the allocator's geometry is built from, up to the 2 MiB
/// page size.
pub proof fn lemma_pow2_constants()
    ensures
        is_pow2(1int),
        is_pow2(2int),
        is_pow2(4int),
        is_pow2(8int),
        is_pow2(16int),
        is_pow2(32int),
        is_pow2(64int),
        is_pow2(128int),
        is_pow2(256int),
        is_pow2(512int),
        is_pow2(1024int),
        is_pow2(2048int),
        is_pow2(4096int),
        is_pow2(8192int),
        is_pow2(16384int),
        is_pow2(32768int),
        is_pow2(65536int),
        is_pow2(131072int),
        is_pow2(262144int),
        is_pow2(524288int),
        is_pow2(1048576int),
        is_pow2(2097152int),
{
    reveal(is_pow2);
    assert(is_pow2(1int));
    lemma_pow2_double(1);
    lemma_pow2_double(2);
    lemma_pow2_double(4);
    lemma_pow2_double(8);
    lemma_pow2_double(16);
    lemma_pow2_double(32);
    lemma_pow2_double(64);
    lemma_pow2_double(128);
    lemma_pow2_double(256);
    lemma_pow2_double(512);
    lemma_pow2_double(1024);
    lemma_pow2_double(2048);
    lemma_pow2_double(4096);
    lemma_pow2_double(8192);
    lemma_pow2_double(16384);
    lemma_pow2_double(32768);
    lemma_pow2_double(65536);
    lemma_pow2_double(131072);
    lemma_pow2_double(262144);
    lemma_pow2_double(524288);
    lemma_pow2_double(1048576);
}

/// Round `n` up to the closest multiple of 16 greater than or equal to `n`.
pub fn round_up(n: usize) -> (r: usize)
    requires
        n + 15 <= usize::MAX,
    ensures
        r == round_up16_spec(n as int),
        n <= r < n + MULTIPLE,
        r % 16 == 0,
{
    let s: usize = n + 15;
    proof {
        lemma_align_down(s as int, 16);
    }
    (s / 16) * 16
}

/// The largest multiple of `a` at most `x`.
pub fn align_down(x: usize, a: usize) -> (r: usize)
    requires
        a >= 1,
    ensures
        r == align_down_spec(x as int, a as int),
        r <= x,
        x - r < a,
        r % a == 0,
{
    proof {
        lemma_align_down(x as int, a as int);
    }
    (x / a) * a
}

/// The smallest multiple of `a` at least `x`.
pub fn align_up(x: usize, a: usize) -> (r: usize)
    requires
        a >= 1,
        x + a <= usize::MAX,
    ensures
        r == align_down_spec(x + a - 1, a as int),
        x <= r,
        r < x + a,
        r % a == 0,
{
    let s: usize = x + a - 1;
    proof {
        lemma_align_down(s as int, a as int);
    }
    (s / a) * a
}

/// The smallest power of two greater than or equal to `n` (and at least 1).
pub fn next_power_of_two(n: usize) -> (r: usize)
    requires
        n <= usize::MAX / 2,
    ensures
        r == spec_next_pow2(n as int),
        is_pow2(r as int),
        r >= n,
        r >= 1,
{
    proof {
        lemma_next_pow2_props(n as int);
        vstd::arithmetic::power2::is_pow2_equiv(1int);
        reveal(is_pow2);
    }
    let mut r: usize = 1;
    while r < n
        invariant
            1 <= r,
            n <= usize::MAX / 2,
            is_pow2(r as int),
            r <= spec_next_pow2(n as int),
            spec_next_pow2(n as int) >= n,
            is_pow2(spec_next_pow2(n as int)),
        decreases 2 * n - r,
    {
        proof {
            lemma_pow2_double(r as int);
            lemma_pow2_divides(r as int, spec_next_pow2(n as int));
        }
        r = r * 2;
    }
    proof {
        lemma_next_pow2_min(n as int, r as int);
    }
    r
}

/// Whether `n` is a power of two.
pub fn is_power_of_two(n: usize) -> (r: bool)
    ensures
        r == is_pow2(n as int),
{
    proof {
        reveal(is_pow2);
    }
    if n == 0 {
        return false;
    }
    let mut m: usize = n;
    while m % 2 == 0
        invariant
            1 <= m,
            is_pow2(n as int) == is_pow2(m as int),
        decreases m,
    {
        proof {
            reveal(is_pow2);
            assert(m >= 2);
        }
        m = m / 2;
    }
    proof {
        reveal(is_pow2);
    }
    m == 1
}

} // verus!
