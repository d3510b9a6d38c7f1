use vstd::prelude::*;

verus! {

/// The fixed-point unit: sample and bar values are carried as multiples
/// of 1/VALUE_ONE, so that one full-scale sample is VALUE_ONE.
pub const VALUE_ONE: i64 = 1048576;

/// Division rounded to the nearest integer, with halves rounded away
/// from zero; this matches rounding the exact quotient n/d.
pub open spec fn round_div(n: int, d: int) -> int
    recommends
        d >= 1,
{
    if n >= 0 {
        (2 * n + d) / (2 * d)
    } else {
        -((2 * (-n) + d) / (2 * d))
    }
}

/// Rounded division over machine integers, for the wide intermediate
/// values the stages accumulate.
pub fn round_div_wide(n: i128, d: i128) -> (r: i128)
    requires
        -(0x1_0000_0000_0000_0000_0000_0000_0000_0000int / 8) <= n
            <= 0x1_0000_0000_0000_0000_0000_0000_0000_0000int / 8,
        1 <= d <= 0x1_0000_0000_0000_0000_0000_0000_0000_0000int / 8,
    ensures
        r == round_div(n as int, d as int),
{
    if n >= 0 {
        (2 * n + d) / (2 * d)
    } else {
        -((2 * (-n) + d) / (2 * d))
    }
}

/// A quotient lies between any pair of integer bounds that bracket the
/// exact fraction.
pub proof fn lemma_round_div_bounds(n: int, d: int, lo: int, hi: int)
    requires
        d >= 1,
        lo * d <= n <= hi * d,
    ensures
        lo <= round_div(n, d) <= hi,
{
    if n >= 0 {
        let q = (2 * n + d) / (2 * d);
        assert(lo * (2 * d) <= 2 * n + d) by (nonlinear_arith)
            requires
                lo * d <= n,
                d >= 1,
        ;
        assert(2 * n + d < (hi + 1) * (2 * d)) by (nonlinear_arith)
            requires
                n <= hi * d,
                d >= 1,
        ;
        lemma_div_in_range(2 * n + d, 2 * d, lo, hi);
    } else {
        let m = -n;
        let q = (2 * m + d) / (2 * d);
        assert((-hi) * (2 * d) <= 2 * m + d) by (nonlinear_arith)
            requires
                n <= hi * d,
                m == -n,
                d >= 1,
        ;
        assert(2 * m + d < ((-lo) + 1) * (2 * d)) by (nonlinear_arith)
            requires
                lo * d <= n,
                m == -n,
                d >= 1,
        ;
        lemma_div_in_range(2 * m + d, 2 * d, -hi, -lo);
    }
}

/// If lo*d <= x < (hi+1)*d then lo <= x/d <= hi.
proof fn lemma_div_in_range(x: int, d: int, lo: int, hi: int)
    requires
        d >= 1,
        lo * d <= x,
        x < (hi + 1) * d,
    ensures
        lo <= x / d <= hi,
{
    assert(lo <= x / d) by {
        vstd::arithmetic::div_mod::lemma_fundamental_div_mod(x, d);
        vstd::arithmetic::div_mod::lemma_mod_division_less_than_divisor(x, d);
        assert(x / d >= lo) by (nonlinear_arith)
            requires
                x == d * (x / d) + x % d,
                0 <= x % d < d,
                lo * d <= x,
                d >= 1,
        ;
    }
    assert(x / d <= hi) by {
        vstd::arithmetic::div_mod::lemma_fundamental_div_mod(x, d);
        vstd::arithmetic::div_mod::lemma_mod_division_less_than_divisor(x, d);
        assert(x / d <= hi) by (nonlinear_arith)
            requires
                x == d * (x / d) + x % d,
                0 <= x % d < d,
                x < (hi + 1) * d,
                d >= 1,
        ;
    }
}

} // verus!
