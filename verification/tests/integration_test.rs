use client_accounting::importer::MovementImporter;
use client_accounting::transaction::TransactionFactory;

/// Creates an Account from a "deposit" movement: one account and one
/// transaction exist, and the transaction is marked processed (`1`).
#[test]
fn create_account_from_deposit() {
    let mut imp = MovementImporter::new();

    imp.set_debug(true);

    assert_eq!(
        imp.import_movements_str(&"type, client, tx, amount\ndeposit,11,9,1.1\n", true),
        0
    );

    let saccounts = imp.export_accounts_str();
    let stransactions = imp.export_transactions_str();

    println!("{}", saccounts.as_str());
    println!("{}", stransactions.as_str());

    assert_eq!(
        saccounts.as_str(),
        "client,available,held,total,locked\n11,1.1,0.0,1.1,false\n"
    );
    assert_eq!(
        stransactions.as_str(),
        "type,client,tx,amount,status\ndeposit,11,9,1.1,1\n"
    );
}

/// Creates an Account from a "withdrawal" movement on a fresh client:
/// the funds are insufficient, so the transaction is marked invalid
/// (`-1`) and the balances stay zero.
#[test]
fn create_account_from_withdrawal() {
    let mut imp = MovementImporter::new();

    imp.set_debug(true);

    assert_eq!(
        imp.import_movements_str(&"type, client, tx, amount\nwithdrawal,5,3,0.5\n", true),
        0
    );

    let saccounts = imp.export_accounts_str();
    let stransactions = imp.export_transactions_str();

    println!("{}", saccounts.as_str());
    println!("{}", stransactions.as_str());

    assert_eq!(
        saccounts.as_str(),
        "client,available,held,total,locked\n5,0.0,0.0,0.0,false\n"
    );
    assert_eq!(
        stransactions.as_str(),
        "type,client,tx,amount,status\nwithdrawal,5,3,0.5,-1\n"
    );
}

/// A dispute on a deposit moves the funds to held and marks the
/// transaction disputed (`-2`).
#[test]
fn create_dispute_on_deposit() {
    let mut imp = MovementImporter::new();

    imp.set_debug(true);

    assert_eq!(
        imp.import_movements_str(
            &"type, client, tx, amount\ndeposit,11,9,1.1\ndispute,11,9,\n",
            true
        ),
        0
    );

    let saccounts = imp.export_accounts_str();
    let stransactions = imp.export_transactions_str();

    println!("{}", saccounts.as_str());
    println!("{}", stransactions.as_str());

    assert_eq!(
        saccounts.as_str(),
        "client,available,held,total,locked\n11,0.0,1.1,1.1,false\n"
    );
    assert_eq!(
        stransactions.as_str(),
        "type,client,tx,amount,status\ndeposit,11,9,1.1,-2\n"
    );
}

/// A dispute on a withdrawal adds the contested amount to held and
/// total; the deposit stays processed (`1`), the withdrawal becomes
/// disputed (`-2`).
#[test]
fn create_dispute_on_withdrawal() {
    let mut imp = MovementImporter::new();

    imp.set_debug(true);

    assert_eq!(
        imp.import_movements_str(
            &"type, client, tx, amount\ndeposit,11,5,1.1\nwithdrawal,11,7,0.5\ndispute,11,7,\n",
            true
        ),
        0
    );

    let saccounts = imp.export_accounts_str();
    let stransactions = imp.export_transactions_str();

    println!("{}", saccounts.as_str());
    println!("{}", stransactions.as_str());

    assert_eq!(
        saccounts.as_str(),
        "client,available,held,total,locked\n11,0.6,0.5,1.1,false\n"
    );

    let txfact = TransactionFactory::from_str(stransactions.as_str(), true, true, false);
    let otxrec5 = txfact.lsttransactions.get(&5);
    let otxrec7 = txfact.lsttransactions.get(&7);

    assert!(otxrec5.is_some());
    assert!(otxrec7.is_some());
    assert_eq!(otxrec5.unwrap().status, 1);
    assert_eq!(otxrec7.unwrap().status, -2);
}

/// Resolving a disputed deposit returns the funds to available and the
/// transaction to processed (`1`).
#[test]
fn resolve_dispute_on_deposit() {
    let mut imp = MovementImporter::new();

    imp.set_debug(true);

    assert_eq!(
        imp.import_movements_str(
            &"type, client, tx, amount\ndeposit,11,5,1.1\ndispute,11,5,\nresolve,11,5,\n",
            true
        ),
        0
    );

    let saccounts = imp.export_accounts_str();
    let stransactions = imp.export_transactions_str();

    println!("{}", saccounts.as_str());
    println!("{}", stransactions.as_str());

    assert_eq!(
        saccounts.as_str(),
        "client,available,held,total,locked\n11,1.1,0.0,1.1,false\n"
    );

    let txfact = TransactionFactory::from_str(stransactions.as_str(), true, true, false);
    let otxrec5 = txfact.lsttransactions.get(&5);

    assert!(otxrec5.is_some());
    assert_eq!(otxrec5.unwrap().status, 1);
}

/// Resolving a disputed withdrawal removes the contested amount from
/// held and total; both transactions end processed (`1`).
#[test]
fn resolve_dispute_on_withdrawal() {
    let mut imp = MovementImporter::new();

    imp.set_debug(true);

    assert_eq!(
        imp.import_movements_str(
            &"type, client, tx, amount\ndeposit,11,5,1.1\nwithdrawal,11,7,0.5\ndispute,11,7,\nresolve,11,7,\n",
            true
        ),
        0
    );

    let saccounts = imp.export_accounts_str();
    let stransactions = imp.export_transactions_str();

    println!("{}", saccounts.as_str());
    println!("{}", stransactions.as_str());

    assert_eq!(
        saccounts.as_str(),
        "client,available,held,total,locked\n11,0.6,0.0,0.6,false\n"
    );

    let txfact = TransactionFactory::from_str(stransactions.as_str(), true, true, false);
    let otxrec5 = txfact.lsttransactions.get(&5);
    let otxrec7 = txfact.lsttransactions.get(&7);

    assert!(otxrec5.is_some());
    assert!(otxrec7.is_some());
    assert_eq!(otxrec5.unwrap().status, 1);
    assert_eq!(otxrec7.unwrap().status, 1);
}

/// A chargeback on a disputed deposit removes the funds from held and
/// total, locks the account, and marks the transaction invalid (`-1`).
#[test]
fn chargeback_on_deposit() {
    let mut imp = MovementImporter::new();

    imp.set_debug(true);

    assert_eq!(
        imp.import_movements_str(
            &"type, client, tx, amount\ndeposit,11,5,1.1\ndispute,11,5,\nchargeback,11,5,\n",
            true
        ),
        0
    );

    let saccounts = imp.export_accounts_str();
    let stransactions = imp.export_transactions_str();

    println!("{}", saccounts.as_str());
    println!("{}", stransactions.as_str());

    assert_eq!(
        saccounts.as_str(),
        "client,available,held,total,locked\n11,0.0,0.0,0.0,true\n"
    );

    let txfact = TransactionFactory::from_str(stransactions.as_str(), true, true, false);
    let otxrec5 = txfact.lsttransactions.get(&5);

    assert!(otxrec5.is_some());
    assert_eq!(otxrec5.unwrap().status, -1);
}
