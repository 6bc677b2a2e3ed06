use data_analysis::reconcile::{reconcile, reconcile_totals, spend_as_value, Reconciliation};

const ONE: i128 = 10_000_000_000_000_000;

#[test]
fn a_larger_value_has_increased() {
    assert_eq!(reconcile(100 * ONE, 150 * ONE), Reconciliation::Increased(50 * ONE as u128));
    assert_eq!(reconcile(0, 1), Reconciliation::Increased(1));
}

#[test]
fn an_equal_value_matches() {
    assert_eq!(reconcile(100 * ONE, 100 * ONE), Reconciliation::Matches);
    assert_eq!(reconcile(0, 0), Reconciliation::Matches);
    assert_eq!(reconcile(i128::MIN, i128::MIN), Reconciliation::Matches);
    assert_eq!(reconcile(i128::MAX, i128::MAX), Reconciliation::Matches);
}

#[test]
fn a_smaller_value_has_decreased() {
    assert_eq!(reconcile(100 * ONE, 80 * ONE), Reconciliation::Decreased(20 * ONE as u128));
    assert_eq!(reconcile(1, 0), Reconciliation::Decreased(1));
}

#[test]
fn the_smallest_difference_is_seen() {
    assert_eq!(reconcile(100 * ONE, 100 * ONE + 1), Reconciliation::Increased(1));
    assert_eq!(reconcile(100 * ONE, 100 * ONE - 1), Reconciliation::Decreased(1));
}

#[test]
fn the_widest_differences_are_held() {
    assert_eq!(reconcile(i128::MIN, i128::MAX), Reconciliation::Increased(u128::MAX));
    assert_eq!(reconcile(i128::MAX, i128::MIN), Reconciliation::Decreased(u128::MAX));
    assert_eq!(reconcile(-1, i128::MAX), Reconciliation::Increased(1u128 << 127));
    assert_eq!(reconcile(i128::MIN, 0), Reconciliation::Increased(1u128 << 127));
    assert_eq!(reconcile(0, i128::MIN), Reconciliation::Decreased(1u128 << 127));
    assert_eq!(reconcile(-5, -2), Reconciliation::Increased(3));
    assert_eq!(reconcile(-2, -5), Reconciliation::Decreased(3));
    assert_eq!(reconcile(-2, 5), Reconciliation::Increased(7));
}

#[test]
fn a_spend_is_brought_to_units_of_value() {
    assert_eq!(spend_as_value(0), Some(0));
    assert_eq!(spend_as_value(10_000_000_000), Some(100 * ONE));
    assert_eq!(spend_as_value(1), Some(100_000_000));
    let most = (i128::MAX / 100_000_000) as u128;
    assert_eq!(spend_as_value(most), Some(i128::MAX - i128::MAX % 100_000_000));
    assert_eq!(spend_as_value(most + 1), None);
    assert_eq!(spend_as_value(u128::MAX), None);
}

#[test]
fn totals_in_their_own_units_are_reconciled() {
    assert_eq!(
        reconcile_totals(10_000_000_000, 150 * ONE),
        Some(Reconciliation::Increased(50 * ONE as u128))
    );
    assert_eq!(reconcile_totals(10_000_000_000, 100 * ONE), Some(Reconciliation::Matches));
    assert_eq!(
        reconcile_totals(10_000_000_000, 80 * ONE),
        Some(Reconciliation::Decreased(20 * ONE as u128))
    );
    assert_eq!(reconcile_totals(0, 0), Some(Reconciliation::Matches));
    assert_eq!(reconcile_totals(u128::MAX, 0), None);
}
