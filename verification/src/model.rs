//! The data model: movements as decoded from input rows, stored
//! transactions with their dispute-lifecycle status, and per-client
//! accounts. All monetary fields are integers in 10^-4 currency units.

use vstd::prelude::*;

verus! {

/// The kind of operation an input row requests.
#[derive(Clone, Copy, PartialEq, Eq, Structural, Debug)]
pub enum MovementKind {
    Deposit,
    Withdrawal,
    Dispute,
    Resolve,
    Chargeback,
    /// A structurally valid row whose type word is not recognised; it is
    /// rejected when processed, not when decoded.
    Unknown,
}

/// One decoded input row, before its ledger effects are applied.
#[derive(Clone, Copy, PartialEq, Eq, Structural, Debug)]
pub struct Movement {
    pub kind: MovementKind,
    pub client: u16,
    pub tx: u32,
    /// In 10^-4 units; present only on deposits and withdrawals.
    pub amount: Option<i64>,
}

/// The kind of a stored transaction: only funds movements are stored.
#[derive(Clone, Copy, PartialEq, Eq, Structural, Debug)]
pub enum TxKind {
    Deposit,
    Withdrawal,
}

/// A stored deposit or withdrawal and its dispute-lifecycle status:
/// 0 pending, 1 processed, -1 invalid, -2 disputed.
#[derive(Clone, Copy, PartialEq, Eq, Structural, Debug)]
pub struct Transaction {
    pub kind: TxKind,
    pub client: u16,
    pub tx: u32,
    /// Strictly positive, in 10^-4 units, rounded at the fourth decimal.
    pub amount: i64,
    pub status: i8,
}

/// Per-client balance aggregate, in 10^-4 currency units.
#[derive(Clone, Copy, PartialEq, Eq, Structural, Debug)]
pub struct Account {
    pub client: u16,
    pub available: i64,
    pub held: i64,
    pub total: i64,
    pub locked: bool,
}

/// Funds conservation: the total is exactly the available plus the held
/// funds.
pub open spec fn balanced(a: Account) -> bool {
    a.total == a.available + a.held
}

/// A fresh zero-balance, unlocked account.
pub open spec fn fresh_account(client: u16) -> Account {
    Account { client, available: 0, held: 0, total: 0, locked: false }
}

impl Account {
    /// Creates the zero-balance unlocked account an unseen client starts
    /// with.
    pub fn new(client: u16) -> (a: Account)
        ensures
            a == fresh_account(client),
    {
        Account { client, available: 0, held: 0, total: 0, locked: false }
    }
}

/// The transaction a movement materialises: deposits and withdrawals
/// with a strictly positive amount, and nothing else.
pub open spec fn build_transaction_spec(m: Movement) -> Option<Transaction> {
    match m.kind {
        MovementKind::Deposit => match m.amount {
            Some(a) => if a > 0 {
                Some(Transaction { kind: TxKind::Deposit, client: m.client, tx: m.tx, amount: a, status: 0 })
            } else {
                None
            },
            None => None,
        },
        MovementKind::Withdrawal => match m.amount {
            Some(a) => if a > 0 {
                Some(Transaction { kind: TxKind::Withdrawal, client: m.client, tx: m.tx, amount: a, status: 0 })
            } else {
                None
            },
            None => None,
        },
        _ => None,
    }
}

impl Movement {
    /// Materialises the stored transaction this movement gives rise to,
    /// if any: only a deposit or withdrawal with a strictly positive
    /// amount makes one, with its dispute status still pending.
    pub fn build_transaction(&self) -> (r: Option<Transaction>)
        ensures
            r == build_transaction_spec(*self),
    {
        let kind = match self.kind {
            MovementKind::Deposit => TxKind::Deposit,
            MovementKind::Withdrawal => TxKind::Withdrawal,
            _ => {
                return None;
            }
        };
        match self.amount {
            Some(a) => {
                if a > 0 {
                    Some(
                        Transaction {
                            kind,
                            client: self.client,
                            tx: self.tx,
                            amount: a,
                            status: 0,
                        },
                    )
                } else {
                    None
                }
            }
            None => None,
        }
    }
}

} // verus!
