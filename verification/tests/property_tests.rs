use client_accounting::account::AccountFactory;
use client_accounting::amount::{format_amount, parse_amount};
use client_accounting::batch::Batcher;
use client_accounting::importer::MovementImporter;
use client_accounting::scan::find_last;
use client_accounting::transaction::TransactionFactory;

// Amounts are integers in 10^-4 currency units.

#[test]
fn amount_parse_exact_values() {
    assert_eq!(parse_amount(b"1.1"), Some(11000));
    assert_eq!(parse_amount(b"0.5"), Some(5000));
    assert_eq!(parse_amount(b"0"), Some(0));
    assert_eq!(parse_amount(b"2"), Some(20000));
    assert_eq!(parse_amount(b"1.2345"), Some(12345));
    assert_eq!(parse_amount(b"-0.5"), Some(-5000));
    assert_eq!(parse_amount(b".5"), Some(5000));
    assert_eq!(parse_amount(b"3."), Some(30000));
    assert_eq!(parse_amount(b"0.0001"), Some(1));
}

#[test]
fn amount_parse_rounds_half_away_from_zero() {
    assert_eq!(parse_amount(b"0.00005"), Some(1));
    assert_eq!(parse_amount(b"0.00004"), Some(0));
    assert_eq!(parse_amount(b"0.000049999"), Some(0));
    assert_eq!(parse_amount(b"1.23455"), Some(12346));
    assert_eq!(parse_amount(b"-0.00005"), Some(-1));
    assert_eq!(parse_amount(b"-1.23455"), Some(-12346));
}

#[test]
fn amount_parse_rejects_malformed_text() {
    assert_eq!(parse_amount(b""), None);
    assert_eq!(parse_amount(b"-"), None);
    assert_eq!(parse_amount(b"."), None);
    assert_eq!(parse_amount(b"abc"), None);
    assert_eq!(parse_amount(b"1.2.3"), None);
    assert_eq!(parse_amount(b"1e3"), None);
    assert_eq!(parse_amount(b"1 2"), None);
    assert_eq!(parse_amount(b"99999999999999999999999"), None);
}

#[test]
fn amount_format_canonical_text() {
    assert_eq!(format_amount(11000), b"1.1".to_vec());
    assert_eq!(format_amount(0), b"0.0".to_vec());
    assert_eq!(format_amount(-5000), b"-0.5".to_vec());
    assert_eq!(format_amount(12345), b"1.2345".to_vec());
    assert_eq!(format_amount(10000), b"1.0".to_vec());
    assert_eq!(format_amount(12300), b"1.23".to_vec());
}

#[test]
fn amount_round_trip_is_exact() {
    let samples: Vec<i64> = vec![0, 1, -1, 11000, -5000, 12345, 9999, 10001, i64::MAX, i64::MIN];
    for a in samples {
        assert_eq!(parse_amount(&format_amount(a)), Some(a));
    }
}

#[test]
fn find_last_locates_final_occurrence() {
    assert_eq!(find_last(b"a\nb\nc", &10), Some(3));
    assert_eq!(find_last(b"abc", &10), None);
    assert_eq!(find_last(b"", &10), None);
    assert_eq!(find_last(b"\n", &10), Some(0));
}

#[test]
fn batcher_flushes_on_newline_and_keeps_tail() {
    let mut b = Batcher::new();
    assert!(b.push_chunk(b"type, client, tx, a").is_none());
    let flushed = b.push_chunk(b"mount\ndeposit,11,9,1.1\ndepo");
    let (batch, headers) = flushed.expect("a newline must flush a batch");
    assert!(headers);
    assert_eq!(batch, b"type, client, tx, amount\ndeposit,11,9,1.1\n".to_vec());
    let tail = b.finish();
    let (last, headers2) = tail.expect("leftover bytes must flush at end of stream");
    assert!(!headers2);
    assert_eq!(last, b"depo".to_vec());
    assert!(b.finish().is_none());
}

#[test]
fn batched_input_matches_single_pass() {
    let text = "type, client, tx, amount\ndeposit,11,5,1.1\nwithdrawal,11,7,0.5\ndispute,11,7,\n";

    let mut single = MovementImporter::new();
    assert_eq!(single.import_movements_str(text, true), 0);

    let mut chunked = MovementImporter::new();
    let mut batcher = Batcher::new();
    for chunk in text.as_bytes().chunks(7) {
        if let Some((batch, headers)) = batcher.push_chunk(chunk) {
            assert_eq!(chunked.import_movements_bytes(&batch, headers), 0);
        }
    }
    if let Some((batch, headers)) = batcher.finish() {
        assert_eq!(chunked.import_movements_bytes(&batch, headers), 0);
    }

    assert_eq!(single.export_accounts_str(), chunked.export_accounts_str());
    assert_eq!(
        single.export_transactions_str(),
        chunked.export_transactions_str()
    );
}

#[test]
fn malformed_rows_reported_by_line_number() {
    let mut fact = TransactionFactory::new();
    let r = fact.import_csv_str(
        "type, client, tx, amount\ndeposit,xx,9,1.1\ndeposit,11,9,1.1\ndeposit,11,9\n",
        true,
        false,
        false,
    );
    let e = r.expect_err("bad rows must be reported");
    assert_eq!(e.ok_count, 1);
    assert_eq!(e.lines, vec![2, 4]);
    assert_eq!(e.code, 1);
}

#[test]
fn client_out_of_range_is_a_row_error() {
    let mut fact = TransactionFactory::new();
    let r = fact.import_csv_str("deposit,70000,1,1.0\n", false, false, false);
    let e = r.expect_err("a client id above 65535 must fail the row");
    assert_eq!(e.lines, vec![1]);
    assert_eq!(e.ok_count, 0);

    let mut fact2 = TransactionFactory::new();
    let r2 = fact2.import_csv_str("deposit,65535,1,1.0\n", false, false, false);
    assert_eq!(r2.ok(), Some(1));
}

#[test]
fn blank_amount_on_deposit_is_dropped_silently() {
    let mut fact = TransactionFactory::new();
    let r = fact.import_csv_str("deposit,1,1,\ndeposit,2,2,-3.0\n", false, false, false);
    // Both rows parse structurally and count, but neither queues a
    // movement or stores a transaction.
    assert_eq!(r.ok(), Some(2));
    assert_eq!(fact.vmovements.len(), 0);
    assert!(fact.lsttransactions.get(&1).is_none());
    assert!(fact.lsttransactions.get(&2).is_none());
}

#[test]
fn unknown_kind_creates_account_but_moves_nothing() {
    let mut imp = MovementImporter::new();
    assert_eq!(imp.import_movements_str("transfer,1,1,\n", false), 0);
    assert_eq!(
        imp.export_accounts_str().as_str(),
        "client,available,held,total,locked\n1,0.0,0.0,0.0,false\n"
    );
    assert_eq!(
        imp.export_transactions_str().as_str(),
        "type,client,tx,amount,status\n"
    );
}

#[test]
fn resolve_without_dispute_is_rejected() {
    let mut imp = MovementImporter::new();
    assert_eq!(
        imp.import_movements_str("deposit,1,1,2.0\nresolve,1,1,\n", false),
        0
    );
    assert_eq!(
        imp.export_accounts_str().as_str(),
        "client,available,held,total,locked\n1,2.0,0.0,2.0,false\n"
    );
    assert_eq!(
        imp.export_transactions_str().as_str(),
        "type,client,tx,amount,status\ndeposit,1,1,2.0,1\n"
    );
}

#[test]
fn chargeback_on_withdrawal_kind_is_rejected() {
    let mut imp = MovementImporter::new();
    assert_eq!(
        imp.import_movements_str(
            "deposit,1,1,2.0\nwithdrawal,1,2,1.0\ndispute,1,2,\nchargeback,1,2,\n",
            false
        ),
        0
    );
    // The disputed withdrawal keeps its held funds and stays disputed.
    assert_eq!(
        imp.export_accounts_str().as_str(),
        "client,available,held,total,locked\n1,1.0,1.0,2.0,false\n"
    );
    let s = imp.export_transactions_str();
    let txfact = TransactionFactory::from_str(s.as_str(), true, false, false);
    assert_eq!(txfact.lsttransactions.get(&2).unwrap().status, -2);
}

#[test]
fn locked_account_rejects_every_later_movement() {
    let mut imp = MovementImporter::new();
    assert_eq!(
        imp.import_movements_str(
            "type, client, tx, amount\ndeposit,11,5,1.1\ndispute,11,5,\nchargeback,11,5,\n",
            true
        ),
        0
    );
    assert_eq!(
        imp.export_accounts_str().as_str(),
        "client,available,held,total,locked\n11,0.0,0.0,0.0,true\n"
    );
    // Further movements for the locked client change nothing.
    assert_eq!(imp.import_movements_str("deposit,11,6,3.0\ndispute,11,5,\n", false), 0);
    assert_eq!(
        imp.export_accounts_str().as_str(),
        "client,available,held,total,locked\n11,0.0,0.0,0.0,true\n"
    );
    // The rejected deposit's transaction stays pending (`0`).
    let s = imp.export_transactions_str();
    let txfact = TransactionFactory::from_str(s.as_str(), true, false, false);
    assert_eq!(txfact.lsttransactions.get(&5).unwrap().status, -1);
    assert_eq!(txfact.lsttransactions.get(&6).unwrap().status, 0);
}

#[test]
fn account_export_reimports_identically() {
    let mut imp = MovementImporter::new();
    assert_eq!(
        imp.import_movements_str(
            "deposit,1,1,1.5\ndeposit,2,2,0.25\nwithdrawal,1,3,0.5\ndispute,2,2,\n",
            false
        ),
        0
    );
    let exported = imp.export_accounts_str();
    let fact = AccountFactory::from_str(exported.as_str(), true, false, false);
    let reexported = fact.export_csv(false, false);
    assert_eq!(exported, reexported);

    let a1 = fact.lstaccounts.get(&1).unwrap();
    assert_eq!(a1.available, 10000);
    assert_eq!(a1.held, 0);
    assert_eq!(a1.total, 10000);
    assert!(!a1.locked);
}

#[test]
fn transaction_export_reimports_identically() {
    let mut imp = MovementImporter::new();
    assert_eq!(
        imp.import_movements_str(
            "deposit,1,1,1.5\nwithdrawal,1,2,0.5\ndispute,1,2,\n",
            false
        ),
        0
    );
    let exported = imp.export_transactions_str();
    let fact = TransactionFactory::from_str(exported.as_str(), true, false, false);
    let reexported = fact.export_transactions_csv(false, false);
    assert_eq!(exported, reexported);

    let t2 = fact.lsttransactions.get(&2).unwrap();
    assert_eq!(t2.amount, 5000);
    assert_eq!(t2.status, -2);
    assert_eq!(t2.client, 1);
}

#[test]
fn account_csv_loader_reads_every_field() {
    let fact = AccountFactory::from_str(
        "client,available,held,total,locked\n7,1.5,0.25,1.75,true\n",
        true,
        false,
        false,
    );
    let a = fact.lstaccounts.get(&7).unwrap();
    assert_eq!(a.client, 7);
    assert_eq!(a.available, 15000);
    assert_eq!(a.held, 2500);
    assert_eq!(a.total, 17500);
    assert!(a.locked);
}

#[test]
fn transaction_csv_loader_reads_every_field() {
    let fact = TransactionFactory::from_str(
        "type,client,tx,amount,status\ndeposit,1,5,2.5,-2\nwithdrawal,2,6,0.1,1\n",
        true,
        false,
        false,
    );
    let t5 = fact.lsttransactions.get(&5).unwrap();
    assert_eq!(t5.client, 1);
    assert_eq!(t5.amount, 25000);
    assert_eq!(t5.status, -2);
    let t6 = fact.lsttransactions.get(&6).unwrap();
    assert_eq!(t6.client, 2);
    assert_eq!(t6.amount, 1000);
    assert_eq!(t6.status, 1);
}

#[test]
fn fields_are_trimmed_of_whitespace() {
    let mut imp = MovementImporter::new();
    assert_eq!(
        imp.import_movements_str(" deposit , 11 ,\t9 , 1.1 \r\n", false),
        0
    );
    assert_eq!(
        imp.export_accounts_str().as_str(),
        "client,available,held,total,locked\n11,1.1,0.0,1.1,false\n"
    );
}

#[test]
fn transaction_loader_reports_bad_rows() {
    let mut fact = TransactionFactory::new();
    let r = fact.import_transactions_str(
        "type,client,tx,amount,status\ndeposit,1,5,2.5,1\ntransfer,2,6,1.0,1\ndeposit,3,7,2.5,xx\n",
        true,
        false,
        false,
    );
    let e = r.expect_err("rows with unknown kinds or bad statuses must be reported");
    assert_eq!(e.ok_count, 1);
    assert_eq!(e.lines, vec![3, 4]);
    assert_eq!(e.code, 1);
    assert!(fact.lsttransactions.get(&5).is_some());
    assert!(fact.lsttransactions.get(&6).is_none());
}

#[test]
fn account_loader_counts_and_skips() {
    let mut fact = AccountFactory::new();
    let n = fact.import_csv(
        "client,available,held,total,locked\n1,1.0,0.0,1.0,false\nbad row\n2,0.5,0.0,0.5,true\n",
        true,
        false,
        false,
    );
    assert_eq!(n, 2);
    assert!(fact.lstaccounts.get(&1).is_some());
    assert!(fact.lstaccounts.get(&2).is_some());
    assert_eq!(fact.lstaccounts.get(&2).unwrap().locked, true);
}

#[test]
fn duplicate_transaction_id_overwrites() {
    let mut imp = MovementImporter::new();
    assert_eq!(
        imp.import_movements_str("deposit,1,5,1.0\ndeposit,1,5,2.0\n", false),
        0
    );
    // Both queued deposits apply the stored (latest) amount.
    assert_eq!(
        imp.export_accounts_str().as_str(),
        "client,available,held,total,locked\n1,4.0,0.0,4.0,false\n"
    );
    assert_eq!(
        imp.export_transactions_str().as_str(),
        "type,client,tx,amount,status\ndeposit,1,5,2.0,1\n"
    );
}
