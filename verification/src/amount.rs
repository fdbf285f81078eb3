use vstd::prelude::*;

verus! {

/// Rounds `n` to the nearest multiple of 10000, ties away from zero.
///
/// A value in hundred-millionths (1e-8) of a currency unit is canonical
/// when it is a whole number of ten-thousandths (1e-4), that is, a
/// multiple of 10000. This is the mathematical meaning of rounding a
/// monetary value to four decimal places.
pub open spec fn round4_spec(n: int) -> int {
    if n >= 0 {
        ((n + 5000) / 10000) * 10000
    } else {
        -((((-n) + 5000) / 10000) * 10000)
    }
}

/// Rounds a monetary value, given in hundred-millionths (1e-8) of a
/// currency unit, to four decimal places: the result is the nearest
/// multiple of 10000 hundred-millionths, ties away from zero.
pub fn round_to_four_decimals(n: i64) -> (r: i64)
    requires
        -(i64::MAX - 5000) <= n <= i64::MAX - 5000,
    ensures
        r == round4_spec(n as int),
{
    if n >= 0 {
        let q = (n + 5000) / 10000;
        proof {
            assert(q * 10000 <= n + 5000 && q >= 0) by (nonlinear_arith)
                requires q == (n + 5000) / 10000 && n >= 0;
        }
        q * 10000
    } else {
        let q = ((-n) + 5000) / 10000;
        proof {
            assert(q * 10000 <= (-n) + 5000 && q >= 0) by (nonlinear_arith)
                requires q == ((-n) + 5000) / 10000 && n < 0;
        }
        -(q * 10000)
    }
}

/// A value that is already a whole number of ten-thousandths is left
/// unchanged by rounding.
pub proof fn lemma_round4_fixed_point(n: int)
    requires
        n % 10000 == 0,
    ensures
        round4_spec(n) == n,
{
    if n >= 0 {
        let q = n / 10000;
        assert(q * 10000 == n && (n + 5000) / 10000 == q) by (nonlinear_arith)
            requires n >= 0 && n % 10000 == 0 && q == n / 10000;
    } else {
        let q = (-n) / 10000;
        assert(q * 10000 == -n && ((-n) + 5000) / 10000 == q) by (nonlinear_arith)
            requires n < 0 && n % 10000 == 0 && q == (-n) / 10000;
    }
}

/// Rounding to four decimal places is idempotent: rounding an
/// already-rounded value changes nothing.
pub proof fn lemma_round4_idempotent(n: int)
    ensures
        round4_spec(round4_spec(n)) == round4_spec(n),
{
    if n >= 0 {
        let q = (n + 5000) / 10000;
        assert(q >= 0 && (q * 10000) % 10000 == 0) by (nonlinear_arith)
            requires n >= 0 && q == (n + 5000) / 10000;
    } else {
        let q = ((-n) + 5000) / 10000;
        assert(q >= 0 && (q * 10000) % 10000 == 0) by (nonlinear_arith)
            requires n < 0 && q == ((-n) + 5000) / 10000;
        assert((-(q * 10000)) % 10000 == 0) by (nonlinear_arith)
            requires (q * 10000) % 10000 == 0;
    }
    lemma_round4_fixed_point(round4_spec(n));
}

} // verus!
