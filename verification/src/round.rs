//! Rounding.

use vstd::prelude::*;

verus! {

/// The least multiple of `unit` that is not below `value`.
pub open spec fn round_up(value: int, unit: int) -> int {
    (value + unit - 1) / unit * unit
}

/// Rounding up leads to a multiple, adds less than a unit, and leads to the
/// least such multiple.
pub proof fn law_round_up(value: int, unit: int)
    requires
        unit > 0,
    ensures
        round_up(value, unit) % unit == 0,
        value <= round_up(value, unit) < value + unit,
        forall|multiple: int|
            value <= multiple && #[trigger] (multiple % unit) == 0 ==> round_up(value, unit)
                <= multiple,
{
    let quotient = (value + unit - 1) / unit;
    vstd::arithmetic::div_mod::lemma_fundamental_div_mod(value + unit - 1, unit);
    vstd::arithmetic::div_mod::lemma_mod_bound(value + unit - 1, unit);
    vstd::arithmetic::div_mod::lemma_mod_multiples_basic(quotient, unit);
    vstd::arithmetic::mul::lemma_mul_is_commutative(quotient, unit);
    assert forall|multiple: int| value <= multiple && #[trigger] (multiple % unit)
        == 0 implies round_up(value, unit) <= multiple by {
        vstd::arithmetic::div_mod::lemma_fundamental_div_mod(multiple, unit);
        let other = multiple / unit;
        assert(quotient * unit < unit * other + unit);
        assert(quotient < other + 1) by (nonlinear_arith)
            requires
                quotient * unit < unit * other + unit,
                unit > 0,
        ;
        assert(quotient * unit <= unit * other) by (nonlinear_arith)
            requires
                quotient <= other,
                unit > 0,
        ;
    }
}

/// The only multiple of `unit` from `value` on and before `value + unit`.
proof fn lemma_round_up_is(value: int, unit: int, multiple: int)
    requires
        unit > 0,
        multiple % unit == 0,
        value <= multiple < value + unit,
    ensures
        multiple == round_up(value, unit),
{
    law_round_up(value, unit);
    let rounded = round_up(value, unit);
    if rounded < multiple {
        vstd::arithmetic::div_mod::lemma_fundamental_div_mod(multiple, unit);
        vstd::arithmetic::div_mod::lemma_fundamental_div_mod(rounded, unit);
        let first = rounded / unit;
        let second = multiple / unit;
        assert(false) by (nonlinear_arith)
            requires
                unit > 0,
                unit * first < unit * second,
                unit * second < unit * first + unit,
        ;
    }
}

/// Rounds a value up to a multiple of a unit.
pub fn next_multiple_of(value: u64, unit: u64) -> (rounded: u64)
    requires
        unit > 0,
        round_up(value as int, unit as int) <= u64::MAX,
    ensures
        rounded == round_up(value as int, unit as int),
{
    proof {
        law_round_up(value as int, unit as int);
    }
    let rest: u64 = value % unit;
    if rest == 0 {
        proof {
            lemma_round_up_is(value as int, unit as int, value as int);
        }
        value
    } else {
        let ghost rounded = value + unit - rest;
        proof {
            vstd::arithmetic::div_mod::lemma_fundamental_div_mod(value as int, unit as int);
            let quotient = value as int / unit as int;
            vstd::arithmetic::mul::lemma_mul_is_distributive_add(unit as int, quotient, 1);
            vstd::arithmetic::mul::lemma_mul_is_commutative(unit as int, quotient + 1);
            assert(rounded == (quotient + 1) * unit);
            vstd::arithmetic::div_mod::lemma_mod_multiples_basic(quotient + 1, unit as int);
            lemma_round_up_is(value as int, unit as int, rounded as int);
        }
        value + (unit - rest)
    }
}

} // verus!
