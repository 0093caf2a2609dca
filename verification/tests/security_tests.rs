use client_accounting::account::AccountFactory;
use client_accounting::importer::MovementImporter;
use client_accounting::transaction::TransactionFactory;

// Balance fields are integers in 10^-4 currency units, so 1.1 currency
// units read back as 11000.

/// A dispute that names a transaction owned by another client is
/// rejected: both accounts keep their balances and both transactions
/// keep their statuses.
#[test]
fn dispute_on_foreign_deposit() {
    let mut imp = MovementImporter::new();

    imp.set_debug(true);

    assert_eq!(
        imp.import_movements_str(
            &"type, client, tx, amount\ndeposit,11,9,1.1\nwithdrawal,5,3,0.5\ndispute,5,9,\n",
            true
        ),
        0
    );

    let saccounts = imp.export_accounts_str();
    let stransactions = imp.export_transactions_str();

    println!("{}", saccounts.as_str());
    println!("{}", stransactions.as_str());

    let accfact = AccountFactory::from_str(saccounts.as_str(), true, true, false);
    let oaccrec11 = accfact.lstaccounts.get(&11);
    let oaccrec5 = accfact.lstaccounts.get(&5);

    assert!(oaccrec11.is_some());
    assert!(oaccrec5.is_some());
    assert_eq!(oaccrec11.unwrap().available, 11000);
    assert_eq!(oaccrec5.unwrap().available, 0);

    let txfact = TransactionFactory::from_str(stransactions.as_str(), true, true, false);
    let otxrec3 = txfact.lsttransactions.get(&3);
    let otxrec9 = txfact.lsttransactions.get(&9);

    assert!(otxrec3.is_some());
    assert!(otxrec9.is_some());
    assert_eq!(otxrec3.unwrap().status, -1);
    assert_eq!(otxrec9.unwrap().status, 1);
}

/// A dispute that names a failed (invalid) transaction is rejected:
/// the balances and the statuses stay as they were.
#[test]
fn dispute_on_failed_transaction() {
    let mut imp = MovementImporter::new();

    imp.set_debug(true);

    assert_eq!(
        imp.import_movements_str(
            &"type, client, tx, amount\ndeposit,11,9,1.1\nwithdrawal,11,3,2.2\ndispute,11,3,\n",
            true
        ),
        0
    );

    let saccounts = imp.export_accounts_str();
    let stransactions = imp.export_transactions_str();

    println!("{}", saccounts.as_str());
    println!("{}", stransactions.as_str());

    let accfact = AccountFactory::from_str(saccounts.as_str(), true, true, false);
    let oaccrec11 = accfact.lstaccounts.get(&11);

    assert!(oaccrec11.is_some());
    assert_eq!(oaccrec11.unwrap().available, 11000);

    let txfact = TransactionFactory::from_str(stransactions.as_str(), true, true, false);
    let otxrec3 = txfact.lsttransactions.get(&3);
    let otxrec9 = txfact.lsttransactions.get(&9);

    assert!(otxrec3.is_some());
    assert!(otxrec9.is_some());
    assert_eq!(otxrec3.unwrap().status, -1);
    assert_eq!(otxrec9.unwrap().status, 1);
}

/// A chargeback that names a transaction that is not disputed is
/// rejected: the disputed deposit stays disputed (`-2`) and the
/// processed withdrawal stays processed (`1`).
#[test]
fn chargeback_non_disputed_transaction() {
    let mut imp = MovementImporter::new();

    imp.set_debug(true);

    assert_eq!(
        imp.import_movements_str(
            &"type, client, tx, amount\ndeposit,11,9,1.1\nwithdrawal,11,3,0.5\ndispute,11,9,\nchargeback,11,3,\n",
            true
        ),
        0
    );

    let saccounts = imp.export_accounts_str();
    let stransactions = imp.export_transactions_str();

    println!("{}", saccounts.as_str());
    println!("{}", stransactions.as_str());

    let accfact = AccountFactory::from_str(saccounts.as_str(), true, true, false);
    let oaccrec11 = accfact.lstaccounts.get(&11);

    assert!(oaccrec11.is_some());
    assert_eq!(oaccrec11.unwrap().available, -5000);

    let txfact = TransactionFactory::from_str(stransactions.as_str(), true, true, false);
    let otxrec3 = txfact.lsttransactions.get(&3);
    let otxrec9 = txfact.lsttransactions.get(&9);

    assert!(otxrec3.is_some());
    assert!(otxrec9.is_some());
    assert_eq!(otxrec3.unwrap().status, 1);
    assert_eq!(otxrec9.unwrap().status, -2);
}

/// A chargeback whose amount exceeds the account's total is rejected
/// for insufficient funds: the transaction stays disputed (`-2`).
#[test]
fn chargeback_insufficient_funds() {
    let mut imp = MovementImporter::new();

    imp.set_debug(true);

    assert_eq!(
        imp.import_movements_str(
            &"type, client, tx, amount\ndeposit,11,9,1.1\nwithdrawal,11,3,0.5\ndispute,11,9,\nchargeback,11,9,\n",
            true
        ),
        0
    );

    let saccounts = imp.export_accounts_str();
    let stransactions = imp.export_transactions_str();

    println!("{}", saccounts.as_str());
    println!("{}", stransactions.as_str());

    let accfact = AccountFactory::from_str(saccounts.as_str(), true, true, false);
    let oaccrec11 = accfact.lstaccounts.get(&11);

    assert!(oaccrec11.is_some());
    assert_eq!(oaccrec11.unwrap().available, -5000);

    let txfact = TransactionFactory::from_str(stransactions.as_str(), true, true, false);
    let otxrec3 = txfact.lsttransactions.get(&3);
    let otxrec9 = txfact.lsttransactions.get(&9);

    assert!(otxrec3.is_some());
    assert!(otxrec9.is_some());
    assert_eq!(otxrec3.unwrap().status, 1);
    assert_eq!(otxrec9.unwrap().status, -2);
}
