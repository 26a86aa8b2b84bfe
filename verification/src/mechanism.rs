//! The amounts of the lending auction and of the secondary market.
//!
//! Every amount is a field element. Sums, differences and products are taken
//! in the field; a quotient is taken of the two values as whole numbers and
//! rounded down.

use vstd::prelude::*;
use crate::error::Error;
use crate::scalar::{modulus, Scalar};
use crate::state_tx::Tx;
use crate::tx;

verus! {

/// Sum in the field.
pub open spec fn fadd(a: nat, b: nat) -> nat {
    (a + b) % modulus()
}

/// Difference in the field.
pub open spec fn fsub(a: nat, b: nat) -> nat {
    ((a - b) % (modulus() as int)) as nat
}

/// Product in the field.
pub open spec fn fmul(a: nat, b: nat) -> nat {
    (a * b) % modulus()
}

/// One in fixed point: eight decimal places.
pub const ONE_FIXED: u64 = 100000000;

/// Seconds in a day.
pub const DAY: u64 = 86400;

/// One in fixed point.
pub fn _1fixed() -> (r: Scalar)
    ensures
        r@ == ONE_FIXED,
{
    Scalar::from_u64(ONE_FIXED)
}

/// The days of a year.
pub fn _365f() -> (r: Scalar)
    ensures
        r@ == 365,
{
    Scalar::from_u64(365)
}

/// One.
pub fn _1f() -> (r: Scalar)
    ensures
        r@ == 1,
{
    Scalar::one()
}

/// The days from `start_time` to `end_time`, a started day counting whole.
pub open spec fn spec_calc_days(start_time: nat, end_time: nat) -> nat {
    ((end_time + DAY - 1 - start_time) / (DAY as int)) as nat
}

/// The days from `start_time` to `end_time`, a started day counting whole.
/// The start may lie behind the end by less than a day.
pub fn calc_days(start_time: Scalar, end_time: Scalar) -> (r: Scalar)
    requires
        start_time@ <= end_time@ + DAY - 1,
    ensures
        r@ == spec_calc_days(start_time@, end_time@),
{
    start_time.check_reduced();
    end_time.check_reduced();
    if end_time.lt(&start_time) {
        return Scalar::zero();
    }
    let span: Scalar = end_time.sub(&start_time);
    let day: Scalar = Scalar::from_u64(DAY);
    let whole: Scalar = span.div(&day);
    let covered: Scalar = whole.mul(&day);
    proof {
        let d = (end_time@ - start_time@) as int;
        assert(span@ == d) by {
            vstd::arithmetic::div_mod::lemma_small_mod(d as nat, modulus());
        }
        vstd::arithmetic::div_mod::lemma_fundamental_div_mod(d, DAY as int);
        assert(whole@ * DAY <= d) by (nonlinear_arith)
            requires
                d == DAY * (d / (DAY as int)) + d % (DAY as int),
                0 <= d % (DAY as int),
                whole@ == d / (DAY as int),
        ;
        vstd::arithmetic::div_mod::lemma_small_mod((whole@ * DAY) as nat, modulus());
        assert(covered@ == whole@ * DAY);
        if covered@ == d {
            assert((d + DAY - 1) / (DAY as int) == whole@) by {
                vstd::arithmetic::div_mod::lemma_fundamental_div_mod_converse(
                    d + DAY - 1,
                    DAY as int,
                    whole@ as int,
                    DAY - 1,
                );
            }
        } else {
            let rest = d % (DAY as int);
            assert(rest > 0);
            assert((d + DAY - 1) / (DAY as int) == whole@ + 1) by {
                vstd::arithmetic::div_mod::lemma_fundamental_div_mod_converse(
                    d + DAY - 1,
                    DAY as int,
                    whole@ as int + 1,
                    rest - 1,
                );
            }
        }
    }
    if covered == span {
        whole
    } else {
        proof {
            let d = (end_time@ - start_time@) as int;
            if covered@ == d {
                Scalar::lemma_view_injective(covered, span);
            }
            vstd::arithmetic::div_mod::lemma_small_mod((whole@ + 1) as nat, modulus());
        }
        whole.add(&Scalar::one())
    }
}

} // verus!
