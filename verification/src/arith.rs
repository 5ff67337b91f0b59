use vstd::prelude::*;

use vstd::arithmetic::div_mod::{
    lemma_fundamental_div_mod, lemma_mod_bound, lemma_mod_multiples_vanish,
    lemma_mul_mod_noop_right, lemma_small_mod,
};
use vstd::arithmetic::power2::{lemma2_to64, lemma_pow2_adds, lemma_pow2_pos, pow2};

verus! {

/// `n` is a prime number: at least 2, and divisible by no smaller
/// number other than 1.
pub open spec fn is_prime(n: nat) -> bool {
    n >= 2 && forall|d: nat| 2 <= d < n ==> #[trigger] (n % d) != 0
}

/// Every odd number is invertible modulo every power of two: an inverse
/// modulo `2^k` is lifted to one modulo `2^(k+1)` by a Newton step
/// (`x' = x * (2 - p * x)`), by induction on the exponent.
pub proof fn lemma_odd_invertible_pow2(p: int, k: nat)
    requires
        p % 2 == 1,
        1 <= k,
    ensures
        exists|x: int| 0 <= x < pow2(k) && #[trigger] ((p * x) % (pow2(k) as int)) == 1,
    decreases k,
{
    if k == 1 {
        lemma2_to64();
        assert(0 <= 1 < pow2(1) && (p * 1) % (pow2(1) as int) == 1);
    } else {
        let j = (k - 1) as nat;
        lemma_odd_invertible_pow2(p, j);
        let x = choose|x: int| 0 <= x < pow2(j) && #[trigger] ((p * x) % (pow2(j) as int)) == 1;
        let m = pow2(j) as int;
        let mk = pow2(k) as int;
        lemma_pow2_pos(j);
        lemma_pow2_pos(k);
        // Write p * x as m * t + 1.
        let t = (p * x) / m;
        lemma_fundamental_div_mod(p * x, m);
        assert(p * x == m * t + 1);
        // The Newton step: p * (x * (2 - p * x)) == 1 - (t * m)^2.
        let x2 = x * (2 - p * x);
        assert(p * x2 == 1 - (t * t) * (m * m)) by (nonlinear_arith)
            requires
                x2 == x * (2 - p * x),
                p * x == m * t + 1,
        ;
        // m * m is a multiple of pow2(k), since 2 * (k - 1) >= k.
        let c = pow2((k - 2) as nat) as int;
        lemma_pow2_adds(j, j);
        lemma_pow2_adds(k, (k - 2) as nat);
        assert(m * m == mk * c);
        assert(1 - (t * t) * (mk * c) == mk * (-(t * t) * c) + 1) by (nonlinear_arith);
        lemma_mod_multiples_vanish(-(t * t) * c, 1, mk);
        lemma_pow2_adds(1, (k - 1) as nat);
        lemma2_to64();
        assert(mk >= 2);
        lemma_small_mod(1, pow2(k));
        assert((p * x2) % mk == 1);
        // Normalize the witness into [0, pow2(k)).
        let x3 = x2 % mk;
        lemma_mod_bound(x2, mk);
        lemma_mul_mod_noop_right(p, x2, mk);
        assert(0 <= x3 < pow2(k) && (p * x3) % (pow2(k) as int) == 1);
    }
}

} // verus!

