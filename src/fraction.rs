use vstd::prelude::*;

verus! {

/// `a / b < c / d` for positive denominators, written without division.
pub open spec fn frac_lt_spec(a: int, b: int, c: int, d: int) -> bool {
    a * d < c * b
}

proof fn lemma_quotients_differ(a: int, b: int, c: int, d: int, q1: int, r1: int, q2: int, r2: int)
    requires
        b > 0,
        d > 0,
        a == q1 * b + r1,
        0 <= r1 < b,
        c == q2 * d + r2,
        0 <= r2 < d,
        q1 < q2,
    ensures
        a * d < c * b,
{
    assert(a < (q1 + 1) * b) by (nonlinear_arith)
        requires a == q1 * b + r1, r1 < b;
    assert(c >= (q1 + 1) * d) by (nonlinear_arith)
        requires c == q2 * d + r2, r2 >= 0, q1 + 1 <= q2, d > 0;
    assert(a * d < (q1 + 1) * b * d) by (nonlinear_arith)
        requires a < (q1 + 1) * b, d > 0;
    assert((q1 + 1) * d * b <= c * b) by (nonlinear_arith)
        requires c >= (q1 + 1) * d, b > 0;
    assert((q1 + 1) * b * d == (q1 + 1) * d * b) by (nonlinear_arith);
}

proof fn lemma_equal_quotients(a: int, b: int, c: int, d: int, q: int, r1: int, r2: int)
    requires
        a == q * b + r1,
        c == q * d + r2,
    ensures
        a * d - c * b == r1 * d - r2 * b,
{
    assert(a * d - c * b == r1 * d - r2 * b) by (nonlinear_arith)
        requires a == q * b + r1, c == q * d + r2;
}

/// Decides `a / b < c / d` exactly, by comparing integer parts and then the
/// reciprocals of the remainders, so that no product is ever formed.
pub fn frac_lt(a: u128, b: u128, c: u128, d: u128) -> (r: bool)
    requires
        b > 0,
        d > 0,
    ensures
        r == frac_lt_spec(a as int, b as int, c as int, d as int),
    decreases b + d,
{
    let q1 = a / b;
    let q2 = c / d;
    let r1 = a % b;
    let r2 = c % d;
    proof {
        vstd::arithmetic::div_mod::lemma_fundamental_div_mod(a as int, b as int);
        vstd::arithmetic::div_mod::lemma_fundamental_div_mod(c as int, d as int);
        assert(a as int == b as int * q1 as int + r1 as int);
        assert(c as int == d as int * q2 as int + r2 as int);
        assert(b as int * q1 as int == q1 as int * b as int) by (nonlinear_arith);
        assert(d as int * q2 as int == q2 as int * d as int) by (nonlinear_arith);
    }
    if q1 < q2 {
        proof {
            lemma_quotients_differ(a as int, b as int, c as int, d as int, q1 as int, r1 as int, q2 as int, r2 as int);
        }
        return true;
    }
    if q2 < q1 {
        proof {
            lemma_quotients_differ(c as int, d as int, a as int, b as int, q2 as int, r2 as int, q1 as int, r1 as int);
            assert(c as int * b as int == b as int * c as int) by (nonlinear_arith);
            assert(a as int * d as int == d as int * a as int) by (nonlinear_arith);
        }
        return false;
    }
    proof {
        lemma_equal_quotients(a as int, b as int, c as int, d as int, q1 as int, r1 as int, r2 as int);
    }
    if r1 == 0 {
        proof {
            assert(r1 as int * d as int == 0) by (nonlinear_arith) requires r1 == 0;
            assert(r2 as int * b as int >= 0) by (nonlinear_arith) requires r2 >= 0, b > 0;
            assert(r2 > 0 ==> r2 as int * b as int > 0) by (nonlinear_arith) requires b > 0;
        }
        return r2 > 0;
    }
    if r2 == 0 {
        proof {
            assert(r2 as int * b as int == 0) by (nonlinear_arith) requires r2 == 0;
            assert(r1 as int * d as int > 0) by (nonlinear_arith) requires r1 > 0, d > 0;
        }
        return false;
    }
    let res = frac_lt(d, r2, b, r1);
    proof {
        assert(d as int * r1 as int == r1 as int * d as int) by (nonlinear_arith);
        assert(b as int * r2 as int == r2 as int * b as int) by (nonlinear_arith);
    }
    res
}

} // verus!
