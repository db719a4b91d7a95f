use vstd::arithmetic::div_mod::*;
use vstd::arithmetic::power2::*;
use vstd::prelude::*;

verus! {

/// 2^64 as a mathematical integer.
pub open spec fn base64() -> int {
    0x1_0000_0000_0000_0000
}

/// 2^128 as a mathematical integer.
pub open spec fn base128() -> int {
    base64() * base64()
}

/// The value of a 256-bit number held as a high and a low 128-bit word.
pub open spec fn wide_value(hi: u128, lo: u128) -> int {
    hi * base128() + lo
}

/// `floor(amount * numerator / denominator)` over the integers.
pub open spec fn fraction(amount: int, numerator: int, denominator: int) -> int {
    amount * numerator / denominator
}

proof fn lemma_split_product(a0: int, a1: int, b0: int, b1: int)
    ensures
        (a1 * base64() + a0) * (b1 * base64() + b0) == a1 * b1 * base128() + (a0 * b1 + a1
            * b0) * base64() + a0 * b0,
{
    assert(base128() == base64() * base64());
    assert((a1 * base64() + a0) * (b1 * base64() + b0) == a1 * b1 * (base64() * base64()) + (a0
        * b1 + a1 * b0) * base64() + a0 * b0) by (nonlinear_arith);
}

/// Full 128 x 128 -> 256-bit product, as (high word, low word).
pub fn mul_wide(a: u128, b: u128) -> (r: (u128, u128))
    ensures
        wide_value(r.0, r.1) == (a as int) * (b as int),
{
    let m: u128 = 0x1_0000_0000_0000_0000;
    let a0 = a % m;
    let a1 = a / m;
    let b0 = b % m;
    let b1 = b / m;
    assert(a0 * b0 < base128()) by (nonlinear_arith)
        requires a0 < base64(), b0 < base64();
    assert(a0 * b1 < base128()) by (nonlinear_arith)
        requires a0 < base64(), b1 < base64();
    assert(a1 * b0 < base128()) by (nonlinear_arith)
        requires a1 < base64(), b0 < base64();
    assert(a1 * b1 < base128()) by (nonlinear_arith)
        requires a1 < base64(), b1 < base64();
    let p00 = a0 * b0;
    let p01 = a0 * b1;
    let p10 = a1 * b0;
    let p11 = a1 * b1;
    let mid = p00 / m + p01 % m + p10 % m;
    let lo_mid = mid % m;
    assert(lo_mid * base64() <= (base64() - 1) * base64()) by (nonlinear_arith)
        requires lo_mid < base64();
    let lo = p00 % m + lo_mid * m;
    proof {
        lemma_split_product(a0 as int, a1 as int, b0 as int, b1 as int);
        lemma_fundamental_div_mod(a as int, base64());
        lemma_fundamental_div_mod(b as int, base64());
        lemma_fundamental_div_mod(p00 as int, base64());
        lemma_fundamental_div_mod(p01 as int, base64());
        lemma_fundamental_div_mod(p10 as int, base64());
        lemma_fundamental_div_mod(mid as int, base64());
        let h: int = p11 + p01 / m + p10 / m + mid / m;
        assert((a as int) * (b as int) == h * base128() + lo) by (nonlinear_arith)
            requires
                a == base64() * a1 + a0,
                b == base64() * b1 + b0,
                base128() == base64() * base64(),
                (a as int) * (b as int) == (a1 * base64() + a0) * (b1 * base64() + b0),
                (a1 * base64() + a0) * (b1 * base64() + b0) == a1 * b1 * base128() + (a0 * b1
                    + a1 * b0) * base64() + a0 * b0,
                p00 == a0 * b0,
                p01 == a0 * b1,
                p10 == a1 * b0,
                p11 == a1 * b1,
                p00 == base64() * (p00 / m) + p00 % m,
                p01 == base64() * (p01 / m) + p01 % m,
                p10 == base64() * (p10 / m) + p10 % m,
                mid == p00 / m + p01 % m + p10 % m,
                mid == base64() * (mid / m) + lo_mid,
                lo == p00 % m + lo_mid * base64(),
                h == p11 + p01 / m + p10 / m + mid / m,
                m == base64(),
        ;
        assert((a as int) * (b as int) < base128() * base128()) by (nonlinear_arith)
            requires a < base128(), b < base128();
        assert(h < base128()) by (nonlinear_arith)
            requires
                (a as int) * (b as int) == h * base128() + lo,
                (a as int) * (b as int) < base128() * base128(),
                lo >= 0,
        ;
    }
    let hi = p11 + p01 / m + p10 / m + mid / m;
    (hi, lo)
}


proof fn lemma_pow2_128()
    ensures
        pow2(128) == base128(),
        pow2(127) * 2 == base128(),
{
    lemma2_to64();
    lemma_pow2_adds(64, 64);
    lemma_pow2_unfold(128);
}

proof fn lemma_halve_quotient(x: int, p: int)
    requires
        x >= 0,
        p > 0,
    ensures
        x / p == 2 * (x / (p * 2)) + (x / p) % 2,
        (x / p) % 2 == 0 || (x / p) % 2 == 1,
{
    lemma_div_denominator(x, p, 2);
    lemma_fundamental_div_mod(x / p, 2);
}

/// Quotient of the 256-bit number `hi * 2^128 + lo` by `d`, by binary long division.
/// The quotient fits in 128 bits because `hi < d`.
pub fn div_wide(hi: u128, lo: u128, d: u128) -> (q: u128)
    requires
        d > 0,
        hi < d,
    ensures
        q == wide_value(hi, lo) / (d as int),
{
    let mut q: u128 = 0;
    let mut r: u128 = hi;
    let mut pw: u128 = 0x8000_0000_0000_0000_0000_0000_0000_0000;
    let mut i: u32 = 128;
    proof {
        lemma_pow2_128();
        lemma_pow2_unfold(128);
        lemma_div_basics(lo as int);
        lemma_pow2_pos(0);
        assert(pow2(0) == 1) by { lemma2_to64(); }
    }
    while i > 0
        invariant
            i <= 128,
            d > 0,
            i > 0 ==> pw as int == pow2((i - 1) as nat),
            r < d,
            q < pow2((128 - i) as nat),
            (hi as int) * pow2((128 - i) as nat) + (lo as int) / (pow2(i as nat) as int) == (q as int) * (d as int) + r,
        decreases i,
    {
        proof {
            lemma_pow2_pos((i - 1) as nat);
        }
        let bit = (lo / pw) % 2;
        let ghost q0 = q as int;
        let ghost r0 = r as int;
        proof {
            lemma_pow2_unfold(i as nat);
            lemma_pow2_unfold((128 - i + 1) as nat);
            lemma_halve_quotient(lo as int, pw as int);
            lemma_pow2_128();
            if i > 1 {
                lemma_pow2_strictly_increases((128 - i) as nat, 127);
            }
            assert((hi as int) * pow2((128 - i + 1) as nat) + (lo as int) / (pw as int) == 2 * ((q as int) * (d as int) + r) + bit)
                by (nonlinear_arith)
                requires
                    pow2((128 - i + 1) as nat) == 2 * pow2((128 - i) as nat),
                    (lo as int) / (pw as int) == 2 * ((lo as int) / (pw * 2)) + bit,
                    pow2(i as nat) == 2 * pw,
                    (hi as int) * pow2((128 - i) as nat) + (lo as int) / (pow2(i as nat) as int) == (q as int) * (d as int) + r,
            ;
        }
        assert(q < 0x8000_0000_0000_0000_0000_0000_0000_0000u128);
        if r >= d - r {
            r = (r - (d - r)) + bit;
            q = 2 * q + 1;
        } else {
            let t = 2 * r + bit;
            if t >= d {
                r = t - d;
                q = 2 * q + 1;
            } else {
                r = t;
                q = 2 * q;
            }
        }
        assert((q as int) * (d as int) + r == 2 * (q0 * (d as int) + r0) + bit) by (nonlinear_arith)
            requires
                (q == 2 * q0 + 1 && r == 2 * r0 + bit - d) || (q == 2 * q0 && r == 2 * r0 + bit),
        ;
        pw = pw / 2;
        i = i - 1;
        proof {
            if i > 0 {
                lemma_pow2_unfold(i as nat);
            }
        }
    }
    proof {
        lemma_pow2_128();
        assert(pow2(0) == 1) by { lemma2_to64(); }
        lemma_fundamental_div_mod_converse(wide_value(hi, lo), d as int, q as int, r as int);
    }
    q
}

/// `floor(amount * numerator / denominator)` computed through a 256-bit intermediate,
/// so the product never overflows. The quotient itself must fit in 128 bits.
pub fn fraction_of(amount: u128, numerator: u128, denominator: u128) -> (r: u128)
    requires
        denominator > 0,
        fraction(amount as int, numerator as int, denominator as int) <= u128::MAX,
    ensures
        r == fraction(amount as int, numerator as int, denominator as int),
        numerator <= denominator ==> r <= amount,
{
    let (hi, lo) = mul_wide(amount, numerator);
    proof {
        if numerator <= denominator {
            lemma_fraction_le_amount(amount as int, numerator as int, denominator as int);
        }
        lemma_high_word_bounds_quotient(hi, lo, denominator);
    }
    div_wide(hi, lo, denominator)
}

proof fn lemma_high_word_bounds_quotient(hi: u128, lo: u128, d: u128)
    requires
        d > 0,
    ensures
        hi >= d ==> wide_value(hi, lo) / (d as int) > u128::MAX,
{
    if hi >= d {
        let x = wide_value(hi, lo);
        assert(x >= (d as int) * base128()) by (nonlinear_arith)
            requires x == hi * base128() + lo, hi >= d, lo >= 0;
        lemma_div_is_ordered((d as int) * base128(), x, d as int);
        lemma_div_multiples_vanish(base128(), d as int);
    }
}

/// `floor(amount * numerator / denominator)`, or `None` when it does not fit in 128 bits.
pub fn checked_fraction_of(amount: u128, numerator: u128, denominator: u128) -> (r: Option<u128>)
    requires
        denominator > 0,
    ensures
        r is Some <==> fraction(amount as int, numerator as int, denominator as int) <= u128::MAX,
        r matches Some(v) ==> v == fraction(amount as int, numerator as int, denominator as int),
{
    let (hi, lo) = mul_wide(amount, numerator);
    proof {
        lemma_high_word_bounds_quotient(hi, lo, denominator);
    }
    if hi >= denominator {
        None
    } else {
        Some(div_wide(hi, lo, denominator))
    }
}

/// Whether the 256-bit number `a` is below `b`.
pub fn wide_lt(a: (u128, u128), b: (u128, u128)) -> (r: bool)
    ensures
        r == (wide_value(a.0, a.1) < wide_value(b.0, b.1)),
{
    proof {
        assert(a.0 < b.0 ==> wide_value(a.0, a.1) < wide_value(b.0, b.1)) by (nonlinear_arith)
            requires a.1 < base128(), b.1 >= 0, base128() > 0;
        assert(b.0 < a.0 ==> wide_value(b.0, b.1) < wide_value(a.0, a.1)) by (nonlinear_arith)
            requires b.1 < base128(), a.1 >= 0, base128() > 0;
    }
    a.0 < b.0 || (a.0 == b.0 && a.1 < b.1)
}

/// Sum of two 256-bit numbers whose high words are small enough not to overflow.
pub fn wide_add(a: (u128, u128), b: (u128, u128)) -> (r: (u128, u128))
    requires
        a.0 < 0x1_0000_0000,
        b.0 < 0x1_0000_0000,
    ensures
        wide_value(r.0, r.1) == wide_value(a.0, a.1) + wide_value(b.0, b.1),
        r.0 <= a.0 + b.0 + 1,
{
    if a.1 > u128::MAX - b.1 {
        let lo = a.1 - (u128::MAX - b.1) - 1;
        let hi = a.0 + b.0 + 1;
        assert(wide_value(hi, lo) == wide_value(a.0, a.1) + wide_value(b.0, b.1)) by (nonlinear_arith)
            requires hi == a.0 + b.0 + 1, lo == a.1 + b.1 - base128(), u128::MAX == base128() - 1;
        (hi, lo)
    } else {
        let hi = a.0 + b.0;
        let lo = a.1 + b.1;
        assert(wide_value(hi, lo) == wide_value(a.0, a.1) + wide_value(b.0, b.1)) by (nonlinear_arith)
            requires hi == a.0 + b.0, lo == a.1 + b.1;
        (hi, lo)
    }
}

/// Taking a fraction no larger than one never yields more than the amount.
pub proof fn lemma_fraction_le_amount(amount: int, numerator: int, denominator: int)
    requires
        amount >= 0,
        0 <= numerator <= denominator,
        denominator > 0,
    ensures
        0 <= fraction(amount, numerator, denominator) <= amount,
{
    assert(amount * numerator <= amount * denominator) by (nonlinear_arith)
        requires amount >= 0, numerator <= denominator;
    assert(amount * numerator >= 0) by (nonlinear_arith)
        requires amount >= 0, numerator >= 0;
    lemma_div_pos_is_pos(amount * numerator, denominator);
    lemma_div_is_ordered(amount * numerator, amount * denominator, denominator);
    lemma_div_multiples_vanish(amount, denominator);
    assert(amount * denominator == denominator * amount) by (nonlinear_arith);
}

} // verus!
