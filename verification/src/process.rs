//! The movement processor: the state machine that applies one movement
//! to its account and the transaction it references. The transition
//! rules are stated as spec functions and the executable processor is
//! proved to follow them exactly.

use vstd::prelude::*;
use crate::model::{Account, Movement, MovementKind, Transaction, TxKind, balanced};

verus! {

/// Whether a mathematical value fits in a 64-bit signed balance field.
pub open spec fn fits_i64(x: int) -> bool {
    i64::MIN <= x <= i64::MAX
}

/// A deposit movement credits the transaction's amount to the account
/// and marks the transaction processed. A credit that would overflow a
/// balance field is rejected unchanged.
pub open spec fn step_deposit(acc: Account, tx: Transaction) -> (Account, Option<Transaction>) {
    if fits_i64(acc.available + tx.amount) && fits_i64(acc.total + tx.amount) {
        (
            Account {
                available: (acc.available + tx.amount) as i64,
                total: (acc.total + tx.amount) as i64,
                ..acc
            },
            Some(Transaction { status: 1, ..tx }),
        )
    } else {
        (acc, Some(tx))
    }
}

/// A withdrawal movement debits the transaction's amount when the
/// available funds cover it, marking the transaction processed;
/// otherwise it marks the transaction invalid and leaves the balances
/// alone. A debit that would overflow a balance field is rejected
/// unchanged.
pub open spec fn step_withdrawal(acc: Account, tx: Transaction) -> (Account, Option<Transaction>) {
    if acc.available >= tx.amount {
        if fits_i64(acc.available - tx.amount) && fits_i64(acc.total - tx.amount) {
            (
                Account {
                    available: (acc.available - tx.amount) as i64,
                    total: (acc.total - tx.amount) as i64,
                    ..acc
                },
                Some(Transaction { status: 1, ..tx }),
            )
        } else {
            (acc, Some(tx))
        }
    } else {
        (acc, Some(Transaction { status: -1i8, ..tx }))
    }
}

/// A dispute holds the contested funds. It requires a processed
/// transaction; a disputed deposit moves its amount from available to
/// held, a disputed withdrawal adds its amount to held and total.
pub open spec fn step_dispute(acc: Account, tx: Transaction) -> (Account, Option<Transaction>) {
    if tx.status != 1 {
        (acc, Some(tx))
    } else {
        match tx.kind {
            TxKind::Deposit => {
                if fits_i64(acc.available - tx.amount) && fits_i64(acc.held + tx.amount) {
                    (
                        Account {
                            available: (acc.available - tx.amount) as i64,
                            held: (acc.held + tx.amount) as i64,
                            ..acc
                        },
                        Some(Transaction { status: -2i8, ..tx }),
                    )
                } else {
                    (acc, Some(tx))
                }
            }
            TxKind::Withdrawal => {
                if fits_i64(acc.held + tx.amount) && fits_i64(acc.total + tx.amount) {
                    (
                        Account {
                            held: (acc.held + tx.amount) as i64,
                            total: (acc.total + tx.amount) as i64,
                            ..acc
                        },
                        Some(Transaction { status: -2i8, ..tx }),
                    )
                } else {
                    (acc, Some(tx))
                }
            }
        }
    }
}

/// A resolve releases the contested funds. It requires a disputed
/// transaction; resolving a deposit moves its amount from held back to
/// available, resolving a withdrawal removes it from held and total.
pub open spec fn step_resolve(acc: Account, tx: Transaction) -> (Account, Option<Transaction>) {
    if tx.status != -2 {
        (acc, Some(tx))
    } else {
        match tx.kind {
            TxKind::Deposit => {
                if fits_i64(acc.held - tx.amount) && fits_i64(acc.available + tx.amount) {
                    (
                        Account {
                            held: (acc.held - tx.amount) as i64,
                            available: (acc.available + tx.amount) as i64,
                            ..acc
                        },
                        Some(Transaction { status: 1, ..tx }),
                    )
                } else {
                    (acc, Some(tx))
                }
            }
            TxKind::Withdrawal => {
                if fits_i64(acc.held - tx.amount) && fits_i64(acc.total - tx.amount) {
                    (
                        Account {
                            held: (acc.held - tx.amount) as i64,
                            total: (acc.total - tx.amount) as i64,
                            ..acc
                        },
                        Some(Transaction { status: 1, ..tx }),
                    )
                } else {
                    (acc, Some(tx))
                }
            }
        }
    }
}

/// A chargeback finalises a dispute: it requires a disputed deposit
/// whose amount the account's total covers, withdraws the held funds,
/// locks the account and marks the transaction invalid.
pub open spec fn step_chargeback(acc: Account, tx: Transaction) -> (Account, Option<Transaction>) {
    if tx.status != -2 {
        (acc, Some(tx))
    } else {
        match tx.kind {
            TxKind::Withdrawal => (acc, Some(tx)),
            TxKind::Deposit => {
                if tx.amount <= acc.total && fits_i64(acc.held - tx.amount) && fits_i64(
                    acc.total - tx.amount,
                ) {
                    (
                        Account {
                            held: (acc.held - tx.amount) as i64,
                            total: (acc.total - tx.amount) as i64,
                            locked: true,
                            ..acc
                        },
                        Some(Transaction { status: -1i8, ..tx }),
                    )
                } else {
                    (acc, Some(tx))
                }
            }
        }
    }
}

/// One step of the movement processor: a locked account rejects every
/// movement, a movement whose transaction is missing or belongs to
/// another client is rejected, and otherwise the movement's kind picks
/// the transition.
pub open spec fn step_spec(
    acc: Account,
    otx: Option<Transaction>,
    kind: MovementKind,
    client: u16,
) -> (Account, Option<Transaction>) {
    if acc.locked {
        (acc, otx)
    } else {
        match otx {
            None => (acc, otx),
            Some(tx) => {
                if tx.client != client {
                    (acc, otx)
                } else {
                    match kind {
                        MovementKind::Deposit => step_deposit(acc, tx),
                        MovementKind::Withdrawal => step_withdrawal(acc, tx),
                        MovementKind::Dispute => step_dispute(acc, tx),
                        MovementKind::Resolve => step_resolve(acc, tx),
                        MovementKind::Chargeback => step_chargeback(acc, tx),
                        MovementKind::Unknown => (acc, otx),
                    }
                }
            }
        }
    }
}

impl Account {
    /// Applies one movement to this account and to the entry the
    /// transaction ledger holds for the movement's transaction id,
    /// exactly as the transition rules dictate.
    pub fn process_movement(&mut self, m: &Movement, otx: &mut Option<Transaction>)
        ensures
            (*final(self), *final(otx)) == step_spec(*old(self), *old(otx), m.kind, m.client),
    {
        if self.locked {
            return ;
        }
        let tx = match otx {
            Some(t) => *t,
            None => {
                return ;
            }
        };
        if tx.client != m.client {
            return ;
        }
        match m.kind {
            MovementKind::Deposit => {
                let na = self.available as i128 + tx.amount as i128;
                let nt = self.total as i128 + tx.amount as i128;
                if i64::MIN as i128 <= na && na <= i64::MAX as i128 && i64::MIN as i128 <= nt
                    && nt <= i64::MAX as i128 {
                    self.available = na as i64;
                    self.total = nt as i64;
                    *otx = Some(Transaction { status: 1, ..tx });
                }
            }
            MovementKind::Withdrawal => {
                if self.available >= tx.amount {
                    let na = self.available as i128 - tx.amount as i128;
                    let nt = self.total as i128 - tx.amount as i128;
                    if i64::MIN as i128 <= na && na <= i64::MAX as i128 && i64::MIN as i128 <= nt
                        && nt <= i64::MAX as i128 {
                        self.available = na as i64;
                        self.total = nt as i64;
                        *otx = Some(Transaction { status: 1, ..tx });
                    }
                } else {
                    *otx = Some(Transaction { status: -1i8, ..tx });
                }
            }
            MovementKind::Dispute => {
                if tx.status == 1 {
                    match tx.kind {
                        TxKind::Deposit => {
                            let na = self.available as i128 - tx.amount as i128;
                            let nh = self.held as i128 + tx.amount as i128;
                            if i64::MIN as i128 <= na && na <= i64::MAX as i128 && i64::MIN as i128
                                <= nh && nh <= i64::MAX as i128 {
                                self.available = na as i64;
                                self.held = nh as i64;
                                *otx = Some(Transaction { status: -2i8, ..tx });
                            }
                        }
                        TxKind::Withdrawal => {
                            let nh = self.held as i128 + tx.amount as i128;
                            let nt = self.total as i128 + tx.amount as i128;
                            if i64::MIN as i128 <= nh && nh <= i64::MAX as i128 && i64::MIN as i128
                                <= nt && nt <= i64::MAX as i128 {
                                self.held = nh as i64;
                                self.total = nt as i64;
                                *otx = Some(Transaction { status: -2i8, ..tx });
                            }
                        }
                    }
                }
            }
            MovementKind::Resolve => {
                if tx.status == -2 {
                    match tx.kind {
                        TxKind::Deposit => {
                            let nh = self.held as i128 - tx.amount as i128;
                            let na = self.available as i128 + tx.amount as i128;
                            if i64::MIN as i128 <= nh && nh <= i64::MAX as i128 && i64::MIN as i128
                                <= na && na <= i64::MAX as i128 {
                                self.held = nh as i64;
                                self.available = na as i64;
                                *otx = Some(Transaction { status: 1, ..tx });
                            }
                        }
                        TxKind::Withdrawal => {
                            let nh = self.held as i128 - tx.amount as i128;
                            let nt = self.total as i128 - tx.amount as i128;
                            if i64::MIN as i128 <= nh && nh <= i64::MAX as i128 && i64::MIN as i128
                                <= nt && nt <= i64::MAX as i128 {
                                self.held = nh as i64;
                                self.total = nt as i64;
                                *otx = Some(Transaction { status: 1, ..tx });
                            }
                        }
                    }
                }
            }
            MovementKind::Chargeback => {
                if tx.status == -2 {
                    match tx.kind {
                        TxKind::Withdrawal => {}
                        TxKind::Deposit => {
                            if tx.amount <= self.total {
                                let nh = self.held as i128 - tx.amount as i128;
                                let nt = self.total as i128 - tx.amount as i128;
                                if i64::MIN as i128 <= nh && nh <= i64::MAX as i128
                                    && i64::MIN as i128 <= nt && nt <= i64::MAX as i128 {
                                    self.held = nh as i64;
                                    self.total = nt as i64;
                                    self.locked = true;
                                    *otx = Some(Transaction { status: -1i8, ..tx });
                                }
                            }
                        }
                    }
                }
            }
            MovementKind::Unknown => {}
        }
    }
}

/// Funds conservation: a balanced account stays balanced under every
/// movement.
pub proof fn lemma_step_preserves_balance(
    acc: Account,
    otx: Option<Transaction>,
    kind: MovementKind,
    client: u16,
)
    requires
        balanced(acc),
    ensures
        balanced(step_spec(acc, otx, kind, client).0),
{
}

/// A locked account is frozen: no movement changes it or any
/// transaction through it, and no movement ever unlocks an account.
pub proof fn lemma_locked_is_final(
    acc: Account,
    otx: Option<Transaction>,
    kind: MovementKind,
    client: u16,
)
    ensures
        acc.locked ==> step_spec(acc, otx, kind, client) == (acc, otx),
        step_spec(acc, otx, kind, client).0.locked || !acc.locked,
{
}

/// Status monotonicity along the dispute lifecycle: a dispute, resolve
/// or chargeback movement only moves a status along
/// processed -> disputed -> {processed, invalid}. An invalid or pending
/// transaction is left untouched by all three, a dispute is the only way
/// into the disputed status, and a chargeback is the only one of the
/// three that takes it to invalid. (A deposit or withdrawal movement is
/// outside this lifecycle: it records the initial outcome of the entry
/// its transaction id names.)
pub proof fn lemma_status_lifecycle(
    acc: Account,
    tx: Transaction,
    kind: MovementKind,
    client: u16,
)
    requires
        kind is Dispute || kind is Resolve || kind is Chargeback,
    ensures
        ({
            let (acc1, otx1) = step_spec(acc, Some(tx), kind, client);
            &&& otx1 is Some
            &&& {
                let t1 = otx1->0;
                &&& (tx.status == 1 ==> t1.status == 1 || (t1.status == -2 && kind is Dispute))
                &&& (tx.status == -2 ==> t1.status == -2 || (t1.status == 1 && kind is Resolve) || (
                t1.status == -1 && kind is Chargeback))
                &&& (tx.status == -1 ==> t1 == tx)
                &&& (tx.status == 0 ==> t1 == tx)
            }
        }),
{
}

} // verus!
