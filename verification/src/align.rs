//! Address alignment arithmetic shared by the allocation strategies.

use vstd::prelude::*;

verus! {

/// The smallest multiple of `align` that is at least `addr`.
pub open spec fn spec_align_up(addr: int, align: int) -> int
    recommends
        align >= 1,
        addr >= 0,
{
    if addr % align == 0 {
        addr
    } else {
        addr + (align - addr % align)
    }
}

/// `n` is a power of two.
pub open spec fn spec_is_pow2(n: int) -> bool
    decreases n,
{
    if n <= 0 {
        false
    } else if n == 1 {
        true
    } else {
        n % 2 == 0 && spec_is_pow2(n / 2)
    }
}

/// Basic facts about `spec_align_up`: the result is a multiple of
/// `align`, not below `addr`, and less than `addr + align`.
pub proof fn lemma_align_up(addr: int, align: int)
    requires
        align >= 1,
        addr >= 0,
    ensures
        spec_align_up(addr, align) % align == 0,
        addr <= spec_align_up(addr, align) < addr + align,
{
    let r = addr % align;
    vstd::arithmetic::div_mod::lemma_mod_division_less_than_divisor(addr, align);
    if r != 0 {
        vstd::arithmetic::div_mod::lemma_fundamental_div_mod(addr, align);
        let q = addr / align;
        assert(addr + (align - r) == (q + 1) * align) by (nonlinear_arith)
            requires
                addr == align * q + r,
        ;
        vstd::arithmetic::div_mod::lemma_mod_multiples_basic(q + 1, align);
    }
}

/// A larger power of two is a multiple of a smaller one.
pub proof fn lemma_pow2_divides(a: int, b: int)
    requires
        spec_is_pow2(a),
        spec_is_pow2(b),
        a <= b,
    ensures
        b % a == 0,
    decreases b,
{
    if b == 1 {
        assert(a == 1);
        assert(b % a == 0);
    } else if a == b {
        vstd::arithmetic::div_mod::lemma_mod_self_0(a);
    } else {
        lemma_pow2_half(a, b);
        lemma_pow2_divides(a, b / 2);
        vstd::arithmetic::div_mod::lemma_fundamental_div_mod(b / 2, a);
        vstd::arithmetic::div_mod::lemma_fundamental_div_mod(b, 2);
        let k = (b / 2) / a;
        assert(b == (2 * k) * a) by (nonlinear_arith)
            requires
                b / 2 == a * k + (b / 2) % a,
                (b / 2) % a == 0,
                b == 2 * (b / 2) + b % 2,
                b % 2 == 0,
        ;
        vstd::arithmetic::div_mod::lemma_mod_multiples_basic(2 * k, a);
    }
}

/// A power of two strictly below another is at most its half.
proof fn lemma_pow2_half(a: int, b: int)
    requires
        spec_is_pow2(a),
        spec_is_pow2(b),
        a < b,
    ensures
        a <= b / 2,
    decreases b,
{
    assert(b >= 2);
    assert(b % 2 == 0 && spec_is_pow2(b / 2));
    vstd::arithmetic::div_mod::lemma_fundamental_div_mod(b, 2);
    if a == 1 {
        assert(b / 2 >= 1);
    } else {
        assert(a % 2 == 0 && spec_is_pow2(a / 2));
        vstd::arithmetic::div_mod::lemma_fundamental_div_mod(a, 2);
        assert(a / 2 < b / 2);
        if b / 2 == 1 {
            // then b == 2 and a < 2, so a == 1, handled above
            assert(false);
        } else {
            lemma_pow2_half(a / 2, b / 2);
            assert((b / 2) % 2 == 0);
            vstd::arithmetic::div_mod::lemma_fundamental_div_mod(b / 2, 2);
        }
    }
}

/// Divisibility is transitive: a multiple of `b` is a multiple of `c`
/// whenever `b` itself is a multiple of `c`.
pub proof fn lemma_mod_divides_trans(a: int, b: int, c: int)
    requires
        b >= 1,
        c >= 1,
        a % b == 0,
        b % c == 0,
    ensures
        a % c == 0,
{
    vstd::arithmetic::div_mod::lemma_fundamental_div_mod(a, b);
    vstd::arithmetic::div_mod::lemma_fundamental_div_mod(b, c);
    let k = a / b;
    let m = b / c;
    assert(a == (k * m) * c) by (nonlinear_arith)
        requires
            a == b * k + a % b,
            a % b == 0,
            b == c * m + b % c,
            b % c == 0,
    ;
    vstd::arithmetic::div_mod::lemma_mod_multiples_basic(k * m, c);
}

/// Computes `spec_align_up(addr, align)`, reporting `None` when the
/// result does not fit in an address word.
pub fn align_up_checked(addr: u64, align: u64) -> (r: Option<u64>)
    requires
        align >= 1,
    ensures
        match r {
            Some(v) => v == spec_align_up(addr as int, align as int),
            None => spec_align_up(addr as int, align as int) > u64::MAX,
        },
{
    let rem = addr % align;
    if rem == 0 {
        Some(addr)
    } else {
        proof {
            lemma_align_up(addr as int, align as int);
        }
        let pad = align - rem;
        if addr <= u64::MAX - pad {
            Some(addr + pad)
        } else {
            None
        }
    }
}

/// Reports whether `n` is a power of two.
pub fn is_power_of_two(n: u64) -> (b: bool)
    ensures
        b == spec_is_pow2(n as int),
{
    if n == 0 {
        return false;
    }
    let mut m: u64 = n;
    while m > 1
        invariant
            1 <= m <= n,
            spec_is_pow2(n as int) == spec_is_pow2(m as int),
        decreases m,
    {
        if m % 2 != 0 {
            return false;
        }
        m = m / 2;
    }
    true
}

} // verus!
