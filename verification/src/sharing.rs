//! Why adding up shares works: the shares that a member adds up are the
//! values, at the member's point, of one polynomial, the sum of the
//! polynomials of the dealers that count.

use vstd::prelude::*;
use vstd::arithmetic::div_mod::{lemma_add_mod_noop, lemma_mul_mod_noop_right, lemma_small_mod};
use crate::offchain::{spec_counts, spec_share_sum};
use crate::scalar::{spec_modulus, spec_poly_eval};

verus! {

/// The polynomial with `degree_bound` coefficients that are all zero.
pub open spec fn spec_zero_poly(degree_bound: nat) -> Seq<nat> {
    Seq::new(degree_bound, |i: int| 0nat)
}

/// The sum of two polynomials with as many coefficients: each coefficient
/// is the sum in the field of the two at its place.
pub open spec fn spec_poly_sum(a: Seq<nat>, b: Seq<nat>) -> Seq<nat> {
    Seq::new(a.len(), |i: int| (a[i] + b[i]) % spec_modulus())
}

/// The sum of the polynomials of those among the first `n` dealers whose
/// share counts.
pub open spec fn spec_pooled_poly(
    polys: Seq<Seq<nat>>,
    qualified: Seq<bool>,
    shares: Seq<Option<nat>>,
    n: nat,
    degree_bound: nat,
) -> Seq<nat>
    decreases n,
{
    if n == 0 {
        spec_zero_poly(degree_bound)
    } else if spec_counts(qualified, shares, n - 1) {
        spec_poly_sum(
            spec_pooled_poly(polys, qualified, shares, (n - 1) as nat, degree_bound),
            polys[n - 1],
        )
    } else {
        spec_pooled_poly(polys, qualified, shares, (n - 1) as nat, degree_bound)
    }
}

/// The zero polynomial is zero everywhere.
pub proof fn lemma_zero_poly_eval(degree_bound: nat, x: nat)
    ensures
        spec_poly_eval(spec_zero_poly(degree_bound), x) == 0,
    decreases degree_bound,
{
    if degree_bound > 0 {
        lemma_zero_poly_eval((degree_bound - 1) as nat, x);
        assert(spec_zero_poly(degree_bound).skip(1) =~= spec_zero_poly((degree_bound - 1) as nat));
        assert(x * 0 == 0) by (nonlinear_arith);
        lemma_small_mod(0, spec_modulus());
    }
}

/// The value of a sum of two polynomials is the sum in the field of their
/// values.
pub proof fn lemma_poly_eval_adds(a: Seq<nat>, b: Seq<nat>, x: nat)
    requires
        a.len() == b.len(),
    ensures
        spec_poly_eval(spec_poly_sum(a, b), x) == (spec_poly_eval(a, x) + spec_poly_eval(b, x))
            % spec_modulus(),
    decreases a.len(),
{
    let m = spec_modulus() as int;
    if a.len() == 0 {
        lemma_small_mod(0, spec_modulus());
    } else {
        let sum = spec_poly_sum(a, b);
        let ea = spec_poly_eval(a.skip(1), x) as int;
        let eb = spec_poly_eval(b.skip(1), x) as int;
        lemma_poly_eval_adds(a.skip(1), b.skip(1), x);
        assert(sum.skip(1) =~= spec_poly_sum(a.skip(1), b.skip(1)));
        let es = spec_poly_eval(sum.skip(1), x) as int;
        assert(es == (ea + eb) % m);
        let a0 = a[0] as int;
        let b0 = b[0] as int;
        let xi = x as int;
        // the left side
        assert(spec_poly_eval(sum, x) == ((a0 + b0) % m + xi * es) % m);
        lemma_mul_mod_noop_right(xi, ea + eb, m);
        assert((xi * es) % m == (xi * (ea + eb)) % m);
        lemma_add_mod_noop((a0 + b0) % m, xi * es, m);
        lemma_add_mod_noop(a0 + b0, xi * (ea + eb), m);
        lemma_add_mod_noop((a0 + b0) % m, xi * (ea + eb), m);
        assert(((a0 + b0) % m) % m == (a0 + b0) % m) by {
            lemma_small_mod(((a0 + b0) % m) as nat, m as nat);
        }
        assert(spec_poly_eval(sum, x) == (a0 + b0 + xi * (ea + eb)) % m);
        // the right side
        assert(xi * (ea + eb) == xi * ea + xi * eb) by (nonlinear_arith);
        lemma_add_mod_noop(a0 + xi * ea, b0 + xi * eb, m);
    }
}

/// The value at zero of a polynomial is its constant coefficient, the
/// secret of its dealer, reduced to the field.
pub proof fn lemma_poly_eval_at_zero(coeffs: Seq<nat>)
    requires
        coeffs.len() > 0,
    ensures
        spec_poly_eval(coeffs, 0) == coeffs[0] % spec_modulus(),
{
    assert(0 * spec_poly_eval(coeffs.skip(1), 0) == 0) by (nonlinear_arith);
}

/// The sum of polynomials with `degree_bound` coefficients each has as
/// many.
pub proof fn lemma_pooled_poly_len(
    polys: Seq<Seq<nat>>,
    qualified: Seq<bool>,
    shares: Seq<Option<nat>>,
    n: nat,
    degree_bound: nat,
)
    ensures
        spec_pooled_poly(polys, qualified, shares, n, degree_bound).len() == degree_bound,
    decreases n,
{
    if n > 0 {
        lemma_pooled_poly_len(polys, qualified, shares, (n - 1) as nat, degree_bound);
    }
}

/// When each share that counts is the value at `x` of its dealer's
/// polynomial, what a member adds up is the value at `x` of the sum of
/// those polynomials: the members hold points of one polynomial.
pub proof fn lemma_share_sum_is_value_of_pooled_poly(
    polys: Seq<Seq<nat>>,
    qualified: Seq<bool>,
    shares: Seq<Option<nat>>,
    x: nat,
    n: nat,
    degree_bound: nat,
)
    requires
        n <= polys.len(),
        forall|d: int| 0 <= d < n ==> (#[trigger] polys[d]).len() == degree_bound,
        forall|d: int|
            0 <= d < n && spec_counts(qualified, shares, d) ==> #[trigger] shares[d] == Some(
                spec_poly_eval(polys[d], x),
            ),
    ensures
        spec_share_sum(qualified, shares, n) == spec_poly_eval(
            spec_pooled_poly(polys, qualified, shares, n, degree_bound),
            x,
        ),
    decreases n,
{
    if n == 0 {
        lemma_zero_poly_eval(degree_bound, x);
    } else {
        lemma_share_sum_is_value_of_pooled_poly(
            polys,
            qualified,
            shares,
            x,
            (n - 1) as nat,
            degree_bound,
        );
        if spec_counts(qualified, shares, n - 1) {
            let pooled = spec_pooled_poly(polys, qualified, shares, (n - 1) as nat, degree_bound);
            lemma_pooled_poly_len(polys, qualified, shares, (n - 1) as nat, degree_bound);
            assert(shares[n - 1] == Some(spec_poly_eval(polys[n - 1], x)));
            lemma_poly_eval_adds(pooled, polys[n - 1], x);
        }
    }
}

} // verus!
