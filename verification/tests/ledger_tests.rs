use data_analysis::ledger::{
    is_payment_to, month_of, monthly_totals, names_month, payments_to, size_of_amount,
    total_spend, MonthTotal,
};
use data_analysis::models::Transaction;

fn entry(date: &str, description: &str, amount: &str) -> Transaction {
    Transaction::from_row(
        "CARD_PAYMENT".to_string(),
        "Current".to_string(),
        date.to_string(),
        date.to_string(),
        description.to_string(),
        amount,
        "0.00",
        "EUR".to_string(),
        "COMPLETED".to_string(),
        "1000.00",
    )
    .unwrap()
}

fn months(entries: &Vec<MonthTotal>) -> Vec<(String, u128)> {
    entries.iter().map(|e| (e.month.clone(), e.total)).collect()
}

#[test]
fn filtering_ignores_case() {
    assert!(is_payment_to(&entry("2025-01-03 10:00:00", "BINANCE", "-1"), "binance"));
    assert!(is_payment_to(&entry("2025-01-03 10:00:00", "Binance", "-1"), "binance"));
    assert!(is_payment_to(&entry("2025-01-03 10:00:00", "binance", "-1"), "binance"));
    assert!(is_payment_to(&entry("2025-01-03 10:00:00", "To bInAnCe.com", "-1"), "binance"));
    assert!(is_payment_to(&entry("2025-01-03 10:00:00", "binance", "-1"), "BINANCE"));
}

#[test]
fn filtering_needs_the_whole_name() {
    assert!(!is_payment_to(&entry("2025-01-03 10:00:00", "Binanc", "-1"), "binance"));
    assert!(!is_payment_to(&entry("2025-01-03 10:00:00", "Bin ance", "-1"), "binance"));
    assert!(!is_payment_to(&entry("2025-01-03 10:00:00", "", "-1"), "binance"));
    assert!(!is_payment_to(&entry("2025-01-03 10:00:00", "Supermarket", "-1"), "binance"));
    assert!(is_payment_to(&entry("2025-01-03 10:00:00", "Supermarket", "-1"), ""));
}

#[test]
fn payments_keep_their_order() {
    let records = vec![
        entry("2025-01-03 10:00:00", "Binance", "-10.00"),
        entry("2025-01-04 10:00:00", "Supermarket", "-20.00"),
        entry("2025-02-01 10:00:00", "To BINANCE", "-30.00"),
        entry("2025-02-02 10:00:00", "Rent", "-500.00"),
        entry("2025-01-20 10:00:00", "binance.com", "5.00"),
    ];
    let payments = payments_to(&records, "binance");
    let seen: Vec<(&str, i64)> =
        payments.iter().map(|t| (t.descripcion.as_str(), t.importe)).collect();
    assert_eq!(
        seen,
        vec![("Binance", -1_000_000_000), ("To BINANCE", -3_000_000_000), ("binance.com", 500_000_000)]
    );
    assert_eq!(payments_to(&Vec::new(), "binance").len(), 0);
}

#[test]
fn a_copy_of_an_entry_keeps_every_column() {
    let records = vec![Transaction::from_row(
        "TRANSFER".to_string(),
        "Savings".to_string(),
        "2025-03-01 08:00:00".to_string(),
        "2025-03-02 09:30:00".to_string(),
        "To Binance".to_string(),
        "-12.34",
        "0.56",
        "USD".to_string(),
        "PENDING".to_string(),
        "78.90",
    )
    .unwrap()];
    let payments = payments_to(&records, "binance");
    assert_eq!(payments.len(), 1);
    let t = &payments[0];
    assert_eq!(t.tipo, "TRANSFER");
    assert_eq!(t.producto, "Savings");
    assert_eq!(t.fecha_inicio, "2025-03-01 08:00:00");
    assert_eq!(t.fecha_fin, "2025-03-02 09:30:00");
    assert_eq!(t.descripcion, "To Binance");
    assert_eq!(t.importe, -1_234_000_000);
    assert_eq!(t.comision, 56_000_000);
    assert_eq!(t.divisa, "USD");
    assert_eq!(t.state, "PENDING");
    assert_eq!(t.saldo, 7_890_000_000);
}

#[test]
fn a_row_with_an_unreadable_amount_gives_no_entry() {
    let row = |importe: &str, comision: &str, saldo: &str| {
        Transaction::from_row(
            "CARD_PAYMENT".to_string(),
            "Current".to_string(),
            "2025-01-03 10:00:00".to_string(),
            "2025-01-04 10:00:00".to_string(),
            "Binance".to_string(),
            importe,
            comision,
            "EUR".to_string(),
            "COMPLETED".to_string(),
            saldo,
        )
    };
    assert!(row("-45.30", "0.00", "10.00").is_some());
    assert!(row("n/a", "0.00", "10.00").is_none());
    assert!(row("-45.30", "", "10.00").is_none());
    assert!(row("-45.30", "0.00", "ten").is_none());
}

#[test]
fn an_amount_counts_by_its_size() {
    assert_eq!(size_of_amount(-4_530_000_000), 4_530_000_000);
    assert_eq!(size_of_amount(4_530_000_000), 4_530_000_000);
    assert_eq!(size_of_amount(0), 0);
    assert_eq!(size_of_amount(i64::MIN), 1u64 << 63);
    assert_eq!(size_of_amount(i64::MAX), (1u64 << 63) - 1);

    let spent = vec![entry("2025-01-03 10:00:00", "Binance", "-45.30")];
    assert_eq!(total_spend(&spent), 4_530_000_000);
    assert_eq!(months(&monthly_totals(&spent)), vec![("2025-01".to_string(), 4_530_000_000)]);

    let refunded = vec![entry("2025-01-03 10:00:00", "Binance", "45.30")];
    assert_eq!(total_spend(&refunded), 4_530_000_000);
    assert_eq!(months(&monthly_totals(&refunded)), vec![("2025-01".to_string(), 4_530_000_000)]);
}

#[test]
fn totals_add_up() {
    let records = vec![
        entry("2025-03-03 10:00:00", "Binance", "-10.00"),
        entry("2025-01-04 10:00:00", "Binance", "-20.50"),
        entry("2025-03-01 10:00:00", "Binance", "30.25"),
        entry("2025-02-02 10:00:00", "Binance", "-0.01"),
        entry("2025-01-20 10:00:00", "Binance", "-5.00"),
    ];
    assert_eq!(total_spend(&records), 6_576_000_000);
    assert_eq!(total_spend(&Vec::new()), 0);
}

#[test]
fn months_come_in_ascending_order() {
    let records = vec![
        entry("2025-03-03 10:00:00", "Binance", "-10.00"),
        entry("2025-01-04 10:00:00", "Binance", "-20.50"),
        entry("2025-03-01 10:00:00", "Binance", "30.25"),
        entry("2025-02-02 10:00:00", "Binance", "-0.01"),
        entry("2024-12-31 23:59:59", "Binance", "-1.00"),
        entry("2025-01-20 10:00:00", "Binance", "-5.00"),
    ];
    assert_eq!(
        months(&monthly_totals(&records)),
        vec![
            ("2024-12".to_string(), 100_000_000),
            ("2025-01".to_string(), 2_550_000_000),
            ("2025-02".to_string(), 1_000_000),
            ("2025-03".to_string(), 4_025_000_000),
        ]
    );
    assert_eq!(monthly_totals(&Vec::new()).len(), 0);
}

#[test]
fn months_add_up_to_the_total() {
    let records = vec![
        entry("2025-03-03 10:00:00", "Binance", "-10.00"),
        entry("2025-01-04 10:00:00", "Binance", "-20.50"),
        entry("2025-03-01 10:00:00", "Binance", "30.25"),
        entry("2025-02-02 10:00:00", "Binance", "-0.01"),
        entry("2024-12-31 23:59:59", "Binance", "-92233720368.54775807"),
        entry("2025-01-20 10:00:00", "Binance", "92233720368.54775807"),
    ];
    let by_month: u128 = monthly_totals(&records).iter().map(|e| e.total).sum();
    assert_eq!(by_month, total_spend(&records));
    assert_eq!(by_month, 2 * (i64::MAX as u128) + 6_076_000_000);
}

#[test]
fn a_month_is_the_first_seven_characters() {
    let t = entry("2025-10-28 09:15:00", "Binance", "-1");
    assert!(names_month(&t));
    assert_eq!(month_of(&t), "2025-10");
    let exact = entry("2025-10", "Binance", "-1");
    assert!(names_month(&exact));
    assert_eq!(month_of(&exact), "2025-10");
    assert!(!names_month(&entry("2025-1", "Binance", "-1")));
    assert!(!names_month(&entry("", "Binance", "-1")));
    let wide = entry("ñandú-2025", "Binance", "-1");
    assert!(names_month(&wide));
    assert_eq!(month_of(&wide), "ñandú-2");
}
