use vstd::arithmetic::div_mod::{lemma_fundamental_div_mod, lemma_fundamental_div_mod_converse};
use vstd::prelude::*;

verus! {

/// The least integer `q` with `q * b >= a`, for `a >= 0` and `b > 0`.
pub open spec fn ceil_div(a: int, b: int) -> int
    recommends
        b > 0,
{
    (a + b - 1) / b
}

/// Ceiling division of unsigned integers, exact for every `a` and every positive `b`.
pub fn div_ceil(a: usize, b: usize) -> (r: usize)
    requires
        b > 0,
    ensures
        r as int == ceil_div(a as int, b as int),
        r as int * b as int >= a as int,
        (r as int - 1) * (b as int) < a as int,
        r <= a,
{
    let q = a / b;
    let m = a % b;
    proof {
        lemma_fundamental_div_mod(a as int, b as int);
    }
    if m != 0 {
        proof {
            assert(a as int == b as int * q as int + m as int);
            assert(2 * q as int <= a as int) by (nonlinear_arith)
                requires
                    b as int * q as int <= a as int,
                    q >= 0,
                    b >= 2,
            ;
            assert((q as int + 1) * b as int == b as int * q as int + b as int) by (nonlinear_arith);
            assert((q as int + 1 - 1) * b as int == b as int * q as int) by (nonlinear_arith);
            lemma_fundamental_div_mod_converse(
                a as int + b as int - 1,
                b as int,
                q as int + 1,
                m as int - 1,
            );
        }
        q + 1
    } else {
        proof {
            assert(a as int == b as int * q as int + m as int);
            assert(q as int * b as int == b as int * q as int) by (nonlinear_arith);
            assert(q as int <= b as int * q as int) by (nonlinear_arith)
                requires
                    b >= 1,
                    q >= 0,
            ;
            assert((q as int - 1) * b as int == b as int * q as int - b as int) by (nonlinear_arith);
            lemma_fundamental_div_mod_converse(a as int + b as int - 1, b as int, q as int, b as int - 1);
        }
        q
    }
}

} // verus!
