//! Fixed-point fee splitting: divide an amount into a kept part and a fee
//! part according to a tagged percentage, with floor rounding and no
//! overflow anywhere in the valid input domain.

use vstd::prelude::*;
use vstd::arithmetic::div_mod::{
    lemma_div_by_multiple, lemma_div_is_ordered, lemma_fundamental_div_mod,
    lemma_hoist_over_denominator,
};

verus! {

/// A fee percentage in one of three granularities.
#[derive(Clone, Copy, Debug, PartialEq, Eq, Structural)]
pub enum FeePercent {
    /// No fee at all.
    Disabled,
    /// Whole percent: 90 = 90%.
    Simple(u8),
    /// Hundredths of a percent: 9050 = 90.50%.
    Decimal(u16),
}

/// Rejected inputs of the validating percentage constructors.
#[derive(Clone, Copy, Debug, PartialEq, Eq, Structural)]
pub enum PercentError {
    /// The value denotes more than 100%.
    OutOfRange,
}

impl FeePercent {
    /// The percentage normalized to hundredths of a percent.
    pub open spec fn normalized(self) -> int {
        match self {
            FeePercent::Disabled => 0,
            FeePercent::Simple(v) => v * 100,
            FeePercent::Decimal(v) => v as int,
        }
    }

    /// A percentage is valid when it does not exceed 100%.
    pub open spec fn valid(self) -> bool {
        self.normalized() <= 10000
    }

    /// Builds a whole-percent percentage, rejecting values over 100.
    pub fn simple(value: u8) -> (r: Result<Self, PercentError>)
        ensures
            value <= 100 ==> r == Result::<Self, PercentError>::Ok(FeePercent::Simple(value)),
            value > 100 ==> r == Result::<Self, PercentError>::Err(PercentError::OutOfRange),
    {
        if value <= 100 {
            Ok(FeePercent::Simple(value))
        } else {
            Err(PercentError::OutOfRange)
        }
    }

    /// Builds a hundredths-of-a-percent percentage, rejecting values over 10000.
    pub fn decimal(value: u16) -> (r: Result<Self, PercentError>)
        ensures
            value <= 10000 ==> r == Result::<Self, PercentError>::Ok(FeePercent::Decimal(value)),
            value > 10000 ==> r == Result::<Self, PercentError>::Err(PercentError::OutOfRange),
    {
        if value <= 10000 {
            Ok(FeePercent::Decimal(value))
        } else {
            Err(PercentError::OutOfRange)
        }
    }

    /// True for percentages that denote a zero fee.
    pub fn is_zero(&self) -> (r: bool)
        ensures
            r <==> self.normalized() == 0,
    {
        match self {
            FeePercent::Simple(value) => *value == 0,
            FeePercent::Decimal(value) => *value == 0,
            FeePercent::Disabled => true,
        }
    }

    /// True for percentages that denote the full 100%.
    pub fn is_full(&self) -> (r: bool)
        ensures
            r <==> ((self matches FeePercent::Simple(v) && v == 100)
                || (self matches FeePercent::Decimal(v) && v == 10000)),
    {
        match self {
            FeePercent::Disabled => false,
            FeePercent::Simple(value) => *value == 100,
            FeePercent::Decimal(value) => *value == 10000,
        }
    }

    /// The normalized value as a machine integer.
    pub fn normalized_value(&self) -> (r: u16)
        ensures
            r as int == self.normalized(),
    {
        match self {
            FeePercent::Disabled => 0,
            FeePercent::Simple(value) => (*value as u16) * 100,
            FeePercent::Decimal(value) => *value,
        }
    }
}

impl Default for FeePercent {
    /// The default percentage charges no fee.
    fn default() -> (r: Self)
        ensures
            r == FeePercent::Disabled,
    {
        FeePercent::Disabled
    }
}

impl From<u8> for FeePercent {
    /// A bare small integer reads as a whole percent.
    fn from(value: u8) -> (r: Self) {
        FeePercent::Simple(value)
    }
}

impl vstd::std_specs::convert::FromSpecImpl<u8> for FeePercent {
    open spec fn obeys_from_spec() -> bool {
        true
    }

    open spec fn from_spec(value: u8) -> Self {
        FeePercent::Simple(value)
    }
}

impl From<u16> for FeePercent {
    /// A bare wide integer reads as hundredths of a percent.
    fn from(value: u16) -> (r: Self) {
        FeePercent::Decimal(value)
    }
}

impl vstd::std_specs::convert::FromSpecImpl<u16> for FeePercent {
    open spec fn obeys_from_spec() -> bool {
        true
    }

    open spec fn from_spec(value: u16) -> Self {
        FeePercent::Decimal(value)
    }
}

impl From<Option<u8>> for FeePercent {
    /// An absent value disables the fee.
    fn from(value: Option<u8>) -> (r: Self) {
        match value {
            None => FeePercent::Disabled,
            Some(value) => FeePercent::Simple(value),
        }
    }
}

impl vstd::std_specs::convert::FromSpecImpl<Option<u8>> for FeePercent {
    open spec fn obeys_from_spec() -> bool {
        true
    }

    open spec fn from_spec(value: Option<u8>) -> Self {
        match value {
            None => FeePercent::Disabled,
            Some(v) => FeePercent::Simple(v),
        }
    }
}

impl From<Option<u16>> for FeePercent {
    /// An absent value disables the fee.
    fn from(value: Option<u16>) -> (r: Self) {
        match value {
            None => FeePercent::Disabled,
            Some(value) => FeePercent::Decimal(value),
        }
    }
}

impl vstd::std_specs::convert::FromSpecImpl<Option<u16>> for FeePercent {
    open spec fn obeys_from_spec() -> bool {
        true
    }

    open spec fn from_spec(value: Option<u16>) -> Self {
        match value {
            None => FeePercent::Disabled,
            Some(v) => FeePercent::Decimal(v),
        }
    }
}

/// The fee owed on `amount` at percentage `p`, rounded down:
/// `floor(amount * normalized(p) / 10000)`.
pub open spec fn split_fee(amount: u128, p: FeePercent) -> int {
    (amount * p.normalized()) / 10000
}

/// The outcome of taking a fee out of an amount.
#[derive(Clone, Copy, Debug, PartialEq, Eq, Structural)]
pub struct FeeSplit {
    /// The amount that remains after the fee is taken.
    pub result: u128,
    /// The fee taken.
    pub fee: u128,
}

impl Default for FeeSplit {
    /// The default split carries no money at all.
    fn default() -> (r: Self)
        ensures
            r.result == 0 && r.fee == 0,
    {
        FeeSplit { result: 0, fee: 0 }
    }
}

impl FeeSplit {
    /// Splits `amount` at percentage `fee`: the fee portion is
    /// `floor(amount * normalized / 10000)` and the rest is kept, so the
    /// two always add back up to the amount.
    pub fn new(amount: u128, fee: FeePercent) -> (r: Self)
        requires
            fee.valid(),
        ensures
            r.fee == split_fee(amount, fee),
            r.result + r.fee == amount,
    {
        if fee.is_zero() {
            proof {
                assert(amount * fee.normalized() == 0) by (nonlinear_arith)
                    requires fee.normalized() == 0,
                ;
            }
            return Self::only_seller(amount);
        }

        if fee.is_full() {
            proof {
                lemma_split_full(amount, fee);
            }
            return Self::only_fee(amount);
        }

        let p = fee.normalized_value();
        let quotient: u128 = amount / 10000;
        let remainder: u128 = amount % 10000;

        proof {
            lemma_general_split(amount, fee);
            assert((remainder as int) * (p as int) < 10000 * 65536) by (nonlinear_arith)
                requires remainder < 10000, p < 65536,
            ;
            lemma_div_is_ordered(0, (remainder as int) * (p as int), 10000);
        }
        let fee_amount: u128 = quotient * (p as u128) + (remainder * (p as u128)) / 10000;

        Self {
            result: amount - fee_amount,
            fee: fee_amount,
        }
    }

    /// A split in which the whole amount stays with the seller.
    pub fn only_seller(amount: u128) -> (r: Self)
        ensures
            r.result == amount,
            r.fee == 0,
    {
        Self { result: amount, fee: 0 }
    }

    /// A split in which the whole amount goes to the fee.
    pub fn only_fee(amount: u128) -> (r: Self)
        ensures
            r.result == 0,
            r.fee == amount,
    {
        Self { result: 0, fee: amount }
    }
}

/// A disabled percentage never charges a fee, whatever the amount.
pub proof fn lemma_split_disabled(amount: u128)
    ensures
        split_fee(amount, FeePercent::Disabled) == 0,
{
}

/// A full percentage takes exactly the whole amount, even the largest
/// representable one: the scaling arithmetic cannot overflow it away.
pub proof fn lemma_split_full(amount: u128, p: FeePercent)
    requires
        p.normalized() == 10000,
    ensures
        split_fee(amount, p) == amount,
{
    lemma_div_by_multiple(amount as int, 10000);
}

/// Conservation: over the whole valid percentage range the fee never
/// exceeds the amount, so the kept part `amount - fee` is well defined
/// and the two portions add back up to the amount.
pub proof fn lemma_split_conservation(amount: u128, p: FeePercent)
    requires
        p.valid(),
    ensures
        0 <= split_fee(amount, p) <= amount,
{
    let n = p.normalized();
    assert(amount * n >= 0) by (nonlinear_arith)
        requires n >= 0,
    ;
    assert(amount * n <= amount * 10000) by (nonlinear_arith)
        requires n <= 10000,
    ;
    lemma_div_is_ordered(0, amount * n, 10000);
    lemma_div_is_ordered(amount * n, amount * 10000, 10000);
    lemma_div_by_multiple(amount as int, 10000);
}

/// The widen-multiply-descale path computes exactly the floored fee: with
/// `amount = 10000 * quotient + remainder`, the sum
/// `quotient * p + (remainder * p) / 10000` equals
/// `(amount * p) / 10000`, and that fee fits under the amount.
proof fn lemma_general_split(amount: u128, p: FeePercent)
    requires
        p.valid(),
        0 < p.normalized() < 10000,
    ensures
        split_fee(amount, p)
            == (amount / 10000) * p.normalized() + ((amount % 10000) * p.normalized()) / 10000,
        (amount / 10000) * p.normalized() <= amount,
        0 <= split_fee(amount, p) <= amount,
{
    let n = p.normalized();
    let q = amount as int / 10000;
    let r = amount as int % 10000;
    lemma_fundamental_div_mod(amount as int, 10000);
    assert(amount == 10000 * q + r);
    assert(amount * n == r * n + (q * n) * 10000) by (nonlinear_arith)
        requires amount == 10000 * q + r,
    ;
    lemma_hoist_over_denominator(r * n, q * n, 10000nat);
    assert((r * n) / 10000 + q * n == (amount * n) / 10000);
    assert(q * n <= q * 10000) by (nonlinear_arith)
        requires 0 <= q, n <= 10000,
    ;
    lemma_split_conservation(amount, p);
    assert(r * n >= 0) by (nonlinear_arith)
        requires r >= 0, n >= 0,
    ;
    lemma_div_is_ordered(0, r * n, 10000);
}

} // verus!
