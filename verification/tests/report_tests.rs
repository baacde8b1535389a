//! Rendering: exact four-decimal formatting, row layout, ordering.
use payment_engine::models::OutputRecord;
use payment_engine::report::{
    amount_string, decimal_string, render_report, render_row, sort_by_client,
};

fn output(client_id: u16, available: i64, held: i64, locked: bool) -> OutputRecord {
    OutputRecord { client_id, available, held, total: available + held, locked }
}

#[test]
fn test_decimal_string() {
    assert_eq!(decimal_string(0), "0");
    assert_eq!(decimal_string(7), "7");
    assert_eq!(decimal_string(10), "10");
    assert_eq!(decimal_string(65535), "65535");
    assert_eq!(decimal_string(1000000), "1000000");
}

#[test]
fn test_amount_formatting() {
    assert_eq!(amount_string(0), "0.0000");
    assert_eq!(amount_string(1), "0.0001");
    assert_eq!(amount_string(1_5000), "1.5000");
    assert_eq!(amount_string(80_0000), "80.0000");
    assert_eq!(amount_string(3_1234), "3.1234");
    assert_eq!(amount_string(12345_6789), "12345.6789");
}

#[test]
fn test_render_row() {
    let row = render_row(&output(1, 1_5000, 0, false));
    assert_eq!(row, "1,1.5000,0.0000,1.5000,false\n");

    let locked_row = render_row(&output(42, 0, 3_0001, true));
    assert_eq!(locked_row, "42,0.0000,3.0001,3.0001,true\n");
}

#[test]
fn test_render_report() {
    let records = vec![output(1, 1_5000, 0, false), output(2, 2_0000, 0, false)];
    let report = render_report(&records);
    assert_eq!(
        report,
        "client,available,held,total,locked\n\
         1,1.5000,0.0000,1.5000,false\n\
         2,2.0000,0.0000,2.0000,false\n"
    );
}

#[test]
fn test_render_report_empty() {
    let records: Vec<OutputRecord> = Vec::new();
    assert_eq!(render_report(&records), "client,available,held,total,locked\n");
}

#[test]
fn test_sort_by_client() {
    let mut records = vec![
        output(5, 1, 0, false),
        output(2, 2, 0, true),
        output(9, 3, 0, false),
        output(1, 4, 0, false),
        output(3, 5, 0, false),
    ];
    sort_by_client(&mut records);
    let ids: Vec<u16> = records.iter().map(|r| r.client_id).collect();
    assert_eq!(ids, vec![1, 2, 3, 5, 9]);
    // the records themselves are kept intact
    assert_eq!(records[0], output(1, 4, 0, false));
    assert_eq!(records[1], output(2, 2, 0, true));
}

#[test]
fn test_sort_by_client_empty_and_single() {
    let mut empty: Vec<OutputRecord> = Vec::new();
    sort_by_client(&mut empty);
    assert!(empty.is_empty());

    let mut single = vec![output(4, 0, 0, false)];
    sort_by_client(&mut single);
    assert_eq!(single.len(), 1);
    assert_eq!(single[0].client_id, 4);
}
