//! Holding what was spent against what the account is worth now.

use vstd::prelude::*;
use crate::decimal::SCALE;

verus! {

/// How the value of the account stands to what was spent on it.
#[derive(Debug, PartialEq, Eq, Structural, Clone, Copy)]
pub enum Reconciliation {
    /// The account is worth exactly what was spent.
    Matches,
    /// The account is worth more than was spent, by this much.
    Increased(u128),
    /// The account is worth less than was spent, by this much.
    Decreased(u128),
}

/// How a value of `portfolio` stands to a spend of `spend`, both in the same
/// unit.
pub open spec fn reconciliation(spend: int, portfolio: int) -> Reconciliation {
    if portfolio == spend {
        Reconciliation::Matches
    } else if portfolio > spend {
        Reconciliation::Increased((portfolio - spend) as u128)
    } else {
        Reconciliation::Decreased((spend - portfolio) as u128)
    }
}

/// `spend` units of the currency, in units of value.
pub open spec fn value_of_spend(spend: nat) -> nat {
    spend * SCALE as nat
}

/// `high - low`.
fn distance(high: i128, low: i128) -> (d: u128)
    requires
        low <= high,
    ensures
        d == high - low,
{
    if low >= 0 || high < 0 {
        (high - low) as u128
    } else {
        let below: u128 = (-(low + 1)) as u128 + 1;
        high as u128 + below
    }
}

/// Holds the value of the account against what was spent, both in units of
/// value. The comparison is exact: the two match only where they are equal.
pub fn reconcile(spend: i128, portfolio: i128) -> (r: Reconciliation)
    ensures
        r == reconciliation(spend as int, portfolio as int),
{
    if portfolio == spend {
        Reconciliation::Matches
    } else if portfolio > spend {
        Reconciliation::Increased(distance(portfolio, spend))
    } else {
        Reconciliation::Decreased(distance(spend, portfolio))
    }
}

/// A total of amounts, which is in units of the currency, in units of value.
/// There is none where it is more than `i128::MAX` units of value.
pub fn spend_as_value(spend: u128) -> (r: Option<i128>)
    ensures
        match r {
            Some(value) => value == value_of_spend(spend as nat),
            None => value_of_spend(spend as nat) > i128::MAX,
        },
{
    match spend.checked_mul(SCALE as u128) {
        Some(value) => if value <= 0x7fff_ffff_ffff_ffff_ffff_ffff_ffff_ffff {
            Some(value as i128)
        } else {
            None
        },
        None => None,
    }
}

/// Holds the value of the account, in units of value, against the total of
/// what was spent, in units of the currency. There is no result where the
/// total is more than `i128::MAX` units of value.
pub fn reconcile_totals(spend: u128, portfolio: i128) -> (r: Option<Reconciliation>)
    ensures
        match r {
            Some(outcome) => {
                &&& value_of_spend(spend as nat) <= i128::MAX
                &&& outcome == reconciliation(value_of_spend(spend as nat) as int, portfolio as int)
            },
            None => value_of_spend(spend as nat) > i128::MAX,
        },
{
    match spend_as_value(spend) {
        Some(value) => Some(reconcile(value, portfolio)),
        None => None,
    }
}

/// The three outcomes exclude each other, and a difference is never nothing.
pub proof fn lemma_reconciliation_cases(spend: int, portfolio: int)
    requires
        i128::MIN <= spend <= i128::MAX,
        i128::MIN <= portfolio <= i128::MAX,
    ensures
        reconciliation(spend, portfolio) == Reconciliation::Matches <==> portfolio == spend,
        reconciliation(spend, portfolio) matches Reconciliation::Increased(by) ==> by > 0
            && portfolio == spend + by,
        reconciliation(spend, portfolio) matches Reconciliation::Decreased(by) ==> by > 0
            && portfolio == spend - by,
{
}

} // verus!
