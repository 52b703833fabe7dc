//! `floor(a * b / c)` over 128-bit integers without a 256-bit intermediate.
use vstd::prelude::*;
use vstd::arithmetic::div_mod::{
    lemma_basic_div, lemma_div_denominator, lemma_div_multiples_vanish_fancy, lemma_fundamental_div_mod,
    lemma_hoist_over_denominator,
};
use vstd::arithmetic::power2::{lemma2_to64, lemma2_to64_rest, lemma_pow2_adds, lemma_pow2_pos, lemma_pow2_unfold, pow2};

verus! {

proof fn lemma_quotient_bound(q: int, c: int, rem: int, r0: int, x: int)
    requires
        q >= 0,
        rem >= 0,
        0 <= r0 < c,
        x >= 0,
        q * c + rem == r0 * x,
    ensures
        q <= x,
        x > 0 ==> q < x,
{
    assert(q * c <= r0 * x) by (nonlinear_arith)
        requires
            q * c + rem == r0 * x,
            rem >= 0,
    ;
    assert(r0 * x <= c * x) by (nonlinear_arith)
        requires
            0 <= r0 < c,
            x >= 0,
    ;
    if x > 0 {
        assert(r0 * x < c * x) by (nonlinear_arith)
            requires
                0 <= r0 < c,
                x > 0,
        ;
        assert(q < x) by (nonlinear_arith)
            requires
                q * c < c * x,
                c > 0,
        ;
    } else {
        assert(q <= x) by (nonlinear_arith)
            requires
                q * c <= c * x,
                c > 0,
        ;
    }
}

/// `floor(a * b / c)`, or `None` where it does not fit in 128 bits.
pub fn mul_div(a: u128, b: u128, c: u128) -> (r: Option<u128>)
    requires
        c > 0,
    ensures
        r == (if (a as int) * (b as int) / (c as int) <= u128::MAX {
            Some(((a as int) * (b as int) / (c as int)) as u128)
        } else {
            None::<u128>
        }),
{
    let q0 = a / c;
    let r0 = a % c;
    let mut q: u128 = 0;
    let mut rem: u128 = 0;
    let mut p: u128 = 0x8000_0000_0000_0000_0000_0000_0000_0000;
    let ghost mut j: nat = 127;
    proof {
        lemma2_to64();
        lemma2_to64_rest();
        lemma_pow2_adds(63, 64);
        lemma_basic_div(b as int, 2 * p as int);
    }
    // Long multiplication of `r0` by the bits of `b`, from the highest down,
    // keeping the running product as `q * c + rem` with `rem < c`.
    loop
        invariant_except_break
            q as int * c as int + rem as int == r0 as int * (b as int / (2 * p as int)),
        invariant
            c > 0,
            r0 < c,
            p as int == pow2(j),
            j <= 127,
            rem < c,
        ensures
            q as int * c as int + rem as int == r0 as int * (b as int / p as int),
            p == 1,
            rem < c,
        decreases j,
    {
        let ghost x: int = b as int / (2 * p as int);
        let ghost y: int = b as int / p as int;
        proof {
            lemma_pow2_pos(j);
            lemma2_to64();
            lemma_fundamental_div_mod(b as int, 2 * p as int);
            assert(x * 2 <= b) by (nonlinear_arith)
                requires
                    b as int == (2 * p as int) * x + b as int % (2 * p as int),
                    b as int % (2 * p as int) >= 0,
                    p >= 1,
                    x >= 0,
            ;
            lemma_quotient_bound(q as int, c as int, rem as int, r0 as int, x);
            lemma_div_denominator(b as int, p as int, 2);
            lemma_fundamental_div_mod(y, 2);
            assert(y == 2 * x + y % 2);
        }
        if rem >= c - rem {
            proof {
                assert((2 * q as int + 1) * c as int + (2 * rem as int - c as int) == 2 * (
                q as int * c as int + rem as int)) by (nonlinear_arith);
            }
            rem = rem - (c - rem);
            q = q * 2 + 1;
        } else {
            proof {
                assert((2 * q as int) * c as int + 2 * rem as int == 2 * (q as int * c as int
                    + rem as int)) by (nonlinear_arith);
            }
            rem = rem + rem;
            q = q * 2;
        }
        assert(q as int * c as int + rem as int == r0 as int * (2 * x)) by (nonlinear_arith)
            requires
                q as int * c as int + rem as int == 2 * (r0 as int * x),
        ;
        if (b / p) % 2 == 1 {
            proof {
                assert(r0 as int * y == r0 as int * (2 * x) + r0 as int) by (nonlinear_arith)
                    requires
                        y == 2 * x + 1,
                ;
                lemma_fundamental_div_mod(b as int, p as int);
                assert(y <= b) by (nonlinear_arith)
                    requires
                        b as int == p as int * y + b as int % p as int,
                        b as int % p as int >= 0,
                        p >= 1,
                        y >= 0,
                ;
            }
            if rem >= c - r0 {
                proof {
                    assert((q as int + 1) * c as int + (rem as int + r0 as int - c as int)
                        == q as int * c as int + rem as int + r0 as int) by (nonlinear_arith);
                    lemma_quotient_bound(
                        q as int + 1,
                        c as int,
                        rem as int + r0 as int - c as int,
                        r0 as int,
                        y,
                    );
                }
                rem = rem - (c - r0);
                q = q + 1;
            } else {
                rem = rem + r0;
            }
        } else {
            assert(y == 2 * x);
        }
        assert(q as int * c as int + rem as int == r0 as int * y);
        if p == 1 {
            break ;
        }
        proof {
            lemma_pow2_unfold(j);
        }
        p = p / 2;
        proof {
            j = (j - 1) as nat;
        }
    }
    proof {
        assert(b as int / 1 == b);
        lemma_div_multiples_vanish_fancy(q as int, rem as int, c as int);
        assert(q as int * c as int + rem as int == c as int * q as int + rem as int) by (nonlinear_arith);
        assert(q as int == (r0 as int * b as int) / c as int);
        lemma_fundamental_div_mod(a as int, c as int);
        assert(a as int * b as int == r0 as int * b as int + (q0 as int * b as int) * c as int)
            by (nonlinear_arith)
            requires
                a as int == c as int * q0 as int + r0 as int,
        ;
        lemma_hoist_over_denominator(r0 as int * b as int, q0 as int * b as int, c as nat);
    }
    match q0.checked_mul(b) {
        Some(hi) => hi.checked_add(q),
        None => None,
    }
}

} // verus!
