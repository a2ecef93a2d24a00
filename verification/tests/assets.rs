use fedimint_observer::assets::{
    assets_from_text, assets_of_sessions, total_of_rows, total_of_sessions, total_of_transactions,
    AssetsError,
};
use fedimint_observer::decoder::{DecodedTransaction, IoRow, Side};
use fedimint_observer::session::{SessionRecord, TransactionRecord};
use fedimint_observer::telemetry::{ProgressLog, Report, REPORT_INTERVAL_SECS};
use fedimint_observer::text::{bytes_equal, clone_bytes, str_equals};

fn row(kind: &str, amount_msat: Option<u64>) -> IoRow {
    IoRow { position: 0, kind: kind.to_owned(), subtype: None, amount_msat }
}

fn record(inputs: Vec<IoRow>, outputs: Vec<IoRow>) -> TransactionRecord {
    TransactionRecord {
        item_index: 0,
        transaction: DecodedTransaction { txid: vec![], raw: vec![], inputs, outputs },
    }
}

fn session(session_index: u64, transactions: Vec<TransactionRecord>) -> SessionRecord {
    SessionRecord { session_index, raw_outcome: vec![], transactions }
}

#[test]
fn only_wallet_rows_with_an_amount_count() {
    let rows = vec![
        row("wallet", Some(1000)),
        row("mint", Some(7)),
        row("wallet", None),
        row("ln", Some(9)),
        row("Wallet", Some(5)),
        row("wallet", Some(2000)),
    ];
    assert_eq!(total_of_rows(&rows), Some(3000));
    assert_eq!(total_of_rows(&vec![]), Some(0));
}

#[test]
fn totals_that_do_not_fit_are_none() {
    let rows = vec![row("wallet", Some(u64::MAX)), row("wallet", Some(1))];
    assert_eq!(total_of_rows(&rows), None);
    let exact = vec![row("wallet", Some(u64::MAX - 1)), row("wallet", Some(1))];
    assert_eq!(total_of_rows(&exact), Some(u64::MAX));
    let records = vec![
        record(vec![row("wallet", Some(u64::MAX))], vec![]),
        record(vec![row("wallet", Some(1))], vec![row("wallet", Some(4))]),
    ];
    assert_eq!(total_of_transactions(&records, Side::Input), None);
    assert_eq!(total_of_transactions(&records, Side::Output), Some(4));
    let sessions = vec![session(0, records)];
    assert_eq!(total_of_sessions(&sessions, Side::Input), None);
    assert_eq!(assets_of_sessions(&sessions), Err(AssetsError::Overflow));
}

#[test]
fn wallet_inputs_less_wallet_outputs() {
    let sessions = vec![
        session(
            0,
            vec![
                record(vec![row("wallet", Some(3000)), row("mint", Some(50))], vec![]),
                record(vec![], vec![row("wallet", Some(1000)), row("mint", Some(3000))]),
            ],
        ),
        session(1, vec![]),
        session(
            2,
            vec![record(vec![row("wallet", Some(2000))], vec![row("wallet", Some(2000))])],
        ),
    ];
    assert_eq!(total_of_sessions(&sessions, Side::Input), Some(5000));
    assert_eq!(total_of_sessions(&sessions, Side::Output), Some(3000));
    assert_eq!(assets_of_sessions(&sessions), Ok(2000));
    assert_eq!(assets_of_sessions(&vec![]), Ok(0));
}

#[test]
fn more_paid_out_than_brought_in_is_negative() {
    let sessions = vec![session(
        0,
        vec![record(vec![row("wallet", Some(1))], vec![row("wallet", Some(2))])],
    )];
    assert_eq!(assets_of_sessions(&sessions), Err(AssetsError::Negative));
}

#[test]
fn assets_are_read_from_decimal_text() {
    assert_eq!(assets_from_text("2000"), Ok(2000));
    assert_eq!(assets_from_text("0"), Ok(0));
    assert_eq!(assets_from_text("+17"), Ok(17));
    assert_eq!(assets_from_text("007"), Ok(7));
    assert_eq!(assets_from_text("18446744073709551615"), Ok(u64::MAX));
    assert_eq!(assets_from_text("18446744073709551616"), Err(AssetsError::Overflow));
    assert_eq!(assets_from_text("99999999999999999999999"), Err(AssetsError::Overflow));
    assert_eq!(assets_from_text("-2000"), Err(AssetsError::Negative));
    assert_eq!(assets_from_text("-0"), Err(AssetsError::Negative));
    assert_eq!(assets_from_text("-99999999999999999999999"), Err(AssetsError::Negative));
}

#[test]
fn text_that_is_no_number_is_malformed() {
    for text in ["", "+", "-", " 5", "5 ", "12a", "1_000", "--1", "+-1", "1.0", "٣", "99999999999999999999x", "-1x"] {
        assert_eq!(assets_from_text(text), Err(AssetsError::Malformed), "{:?}", text);
    }
}

#[test]
fn text_reader_agrees_with_the_standard_parser() {
    for text in ["0", "1", "+1", "42", "000", "18446744073709551615", "1234567890123"] {
        assert_eq!(assets_from_text(text).ok(), text.parse::<u64>().ok());
    }
    for text in ["", "+", "-1", "18446744073709551616", "a", "1 "] {
        assert!(assets_from_text(text).is_err());
        assert!(text.parse::<u64>().is_err());
    }
}

#[test]
fn report_is_due_after_five_seconds() {
    assert_eq!(REPORT_INTERVAL_SECS, 5);
    let mut log = ProgressLog::new(100);
    assert_eq!(log.observe(110, 4), None);
    assert_eq!(log.observe(120, 5), Some(Report { index: 120, synced: 20, elapsed_secs: 5 }));
    assert_eq!(log.observe(121, 0), None);
    assert_eq!(log.observe(150, 60), Some(Report { index: 150, synced: 30, elapsed_secs: 60 }));
    assert_eq!(log.observe(150, 5), Some(Report { index: 150, synced: 0, elapsed_secs: 5 }));
    assert_eq!(log.observe(149, 5), None);
    assert_eq!(log.observe(151, 5), Some(Report { index: 151, synced: 1, elapsed_secs: 5 }));
}

#[test]
fn text_helpers_compare_and_copy() {
    assert!(str_equals("wallet", "wallet"));
    assert!(!str_equals("wallet", "wallet "));
    assert!(str_equals("", ""));
    assert!(bytes_equal(&vec![1, 2, 3], &vec![1, 2, 3]));
    assert!(!bytes_equal(&vec![1, 2, 3], &vec![1, 2]));
    assert!(!bytes_equal(&vec![1, 2, 3], &vec![1, 2, 4]));
    assert!(bytes_equal(&vec![], &vec![]));
    assert_eq!(clone_bytes(&vec![7, 8]), vec![7, 8]);
}
