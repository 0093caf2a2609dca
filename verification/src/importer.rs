//! The movement importer: decodes movement CSV batches into the two
//! ledgers and drains the movement queue through the processor, one
//! movement fully applied before the next, in input order.

use vstd::prelude::*;
use crate::account::{AccountFactory, data_lines};
use crate::ledger::{
    acc_lookup_or_fresh, acc_create, acc_put, tx_lookup, tx_put, acc_idx, lemma_acc_idx_props,
    lemma_acc_idx_at,
};
use crate::model::{Account, Movement, Transaction, balanced};
use crate::process::{step_spec, lemma_step_preserves_balance};
use crate::text::{accounts_csv, txs_csv, ascii_chars};
use crate::transaction::{
    TransactionFactory, movements_fold, mv_txs_fold, mv_ok_count, mv_err_lines,
};
use vstd::string::StringSliceAdditionalSpecFns;

verus! {

/// One movement applied against the ledgers: the client's account is
/// looked up or created, the transaction the movement names is looked
/// up, the processor takes its step, and both results are stored back.
pub open spec fn apply_movement(
    accs: Seq<Account>,
    txs: Seq<Transaction>,
    m: Movement,
) -> (Seq<Account>, Seq<Transaction>) {
    let acc0 = acc_lookup_or_fresh(accs, m.client);
    let accs1 = acc_create(accs, m.client);
    let otx0 = tx_lookup(txs, m.tx);
    let st = step_spec(acc0, otx0, m.kind, m.client);
    let accs2 = acc_put(accs1, st.0);
    let txs2 = match st.1 {
        Some(t) => tx_put(txs, t),
        None => txs,
    };
    (accs2, txs2)
}

/// The ledgers after a queue of movements is applied in order.
pub open spec fn process_all(
    accs: Seq<Account>,
    txs: Seq<Transaction>,
    ms: Seq<Movement>,
) -> (Seq<Account>, Seq<Transaction>)
    decreases ms.len(),
{
    if ms.len() == 0 {
        (accs, txs)
    } else {
        let prev = process_all(accs, txs, ms.drop_last());
        apply_movement(prev.0, prev.1, ms.last())
    }
}

/// Funds conservation at one step: a movement applied to ledgers whose
/// accounts are all balanced leaves every account balanced.
pub proof fn lemma_apply_movement_balanced(accs: Seq<Account>, txs: Seq<Transaction>, m: Movement)
    requires
        forall|i: int| 0 <= i < accs.len() ==> balanced(#[trigger] accs[i]),
    ensures
        forall|i: int|
            0 <= i < apply_movement(accs, txs, m).0.len() ==> balanced(
                #[trigger] apply_movement(accs, txs, m).0[i],
            ),
{
    let acc0 = acc_lookup_or_fresh(accs, m.client);
    lemma_acc_idx_props(accs, m.client);
    assert(balanced(acc0));
    let otx0 = tx_lookup(txs, m.tx);
    lemma_step_preserves_balance(acc0, otx0, m.kind, m.client);
    let accs1 = acc_create(accs, m.client);
    assert forall|i: int| 0 <= i < accs1.len() implies balanced(#[trigger] accs1[i]) by {
        if i < accs.len() {
            assert(accs1[i] == accs[i]);
        }
    }
    let st = step_spec(acc0, otx0, m.kind, m.client);
    let accs2 = acc_put(accs1, st.0);
    lemma_acc_idx_props(accs1, st.0.client);
    assert forall|i: int| 0 <= i < accs2.len() implies balanced(#[trigger] accs2[i]) by {
        if i < accs1.len() && accs2[i] != st.0 {
            assert(accs2[i] == accs1[i]);
        }
    }
}

/// Funds conservation at every observation point: starting from
/// accounts whose totals equal available plus held, every account still
/// satisfies that after any queue of movements.
pub proof fn lemma_process_all_balanced(accs: Seq<Account>, txs: Seq<Transaction>, ms: Seq<Movement>)
    requires
        forall|i: int| 0 <= i < accs.len() ==> balanced(#[trigger] accs[i]),
    ensures
        forall|i: int|
            0 <= i < process_all(accs, txs, ms).0.len() ==> balanced(
                #[trigger] process_all(accs, txs, ms).0[i],
            ),
    decreases ms.len(),
{
    if ms.len() > 0 {
        lemma_process_all_balanced(accs, txs, ms.drop_last());
        let prev = process_all(accs, txs, ms.drop_last());
        lemma_apply_movement_balanced(prev.0, prev.1, ms.last());
    }
}

/// A locked account is frozen at one step: whatever the movement, the
/// ledger entry for that client stays exactly as it was.
pub proof fn lemma_apply_movement_locked(
    accs: Seq<Account>,
    txs: Seq<Transaction>,
    m: Movement,
    c: u16,
)
    requires
        acc_idx(accs, c) >= 0,
        accs[acc_idx(accs, c)].locked,
    ensures
        ({
            let r = apply_movement(accs, txs, m).0;
            acc_idx(r, c) == acc_idx(accs, c) && r[acc_idx(r, c)] == accs[acc_idx(accs, c)]
        }),
{
    let ic = acc_idx(accs, c);
    lemma_acc_idx_props(accs, c);
    let acc0 = acc_lookup_or_fresh(accs, m.client);
    let otx0 = tx_lookup(txs, m.tx);
    let st = step_spec(acc0, otx0, m.kind, m.client);
    let accs1 = acc_create(accs, m.client);
    let accs2 = acc_put(accs1, st.0);
    lemma_acc_idx_props(accs, m.client);
    assert(acc0.client == m.client);
    assert(st.0.client == m.client);
    if m.client == c {
        assert(acc0 == accs[ic]);
        assert(st == (acc0, otx0));
        assert(accs1 == accs);
        assert(acc_put(accs, acc0) =~= accs);
        assert(accs2 == accs);
    } else {
        // The entry for `c` sits untouched below any appended account,
        // and the store under `m.client` lands at a different position.
        lemma_acc_idx_at(accs1, c, ic);
        assert(accs1[ic] == accs[ic]);
        lemma_acc_idx_props(accs1, m.client);
        let im = acc_idx(accs1, m.client);
        if im >= 0 {
            assert(accs1[im].client == m.client);
            assert(im != ic);
            assert(accs2 == accs1.update(im, st.0));
            assert(accs2[ic] == accs[ic]);
            lemma_acc_idx_at(accs2, c, ic);
        } else {
            assert(accs2 == accs1.push(st.0));
            assert(accs2[ic] == accs[ic]);
            lemma_acc_idx_at(accs2, c, ic);
        }
    }
}

/// Once an account is locked, no later movement changes any of its
/// fields: its ledger entry survives the whole rest of the run
/// untouched, at the same position.
pub proof fn lemma_process_all_locked_frozen(
    accs: Seq<Account>,
    txs: Seq<Transaction>,
    ms: Seq<Movement>,
    c: u16,
)
    requires
        acc_idx(accs, c) >= 0,
        accs[acc_idx(accs, c)].locked,
    ensures
        ({
            let r = process_all(accs, txs, ms).0;
            acc_idx(r, c) == acc_idx(accs, c) && r[acc_idx(r, c)] == accs[acc_idx(accs, c)]
        }),
    decreases ms.len(),
{
    if ms.len() > 0 {
        lemma_process_all_locked_frozen(accs, txs, ms.drop_last(), c);
        let prev = process_all(accs, txs, ms.drop_last());
        lemma_apply_movement_locked(prev.0, prev.1, ms.last(), c);
    }
}

/// Decodes movement batches and drives the processor over the two
/// ledgers.
#[derive(Debug)]
pub struct MovementImporter {
    accfact: AccountFactory,
    txfact: TransactionFactory,
    bquiet: bool,
    bdebug: bool,
    ierr: i32,
}

impl MovementImporter {
    /// The account ledger, in insertion order.
    pub closed spec fn accounts(&self) -> Seq<Account> {
        self.accfact.lstaccounts@
    }

    /// The transaction ledger, in insertion order.
    pub closed spec fn transactions(&self) -> Seq<Transaction> {
        self.txfact.lsttransactions@
    }

    /// The decoded movements still waiting to be processed.
    pub closed spec fn queued(&self) -> Seq<Movement> {
        self.txfact.vmovements@
    }

    /// The sticky error code of the run so far.
    pub closed spec fn err_code(&self) -> int {
        self.ierr as int
    }

    pub fn new() -> (r: MovementImporter)
        ensures
            r.accounts() == Seq::<Account>::empty(),
            r.transactions() == Seq::<Transaction>::empty(),
            r.queued() == Seq::<Movement>::empty(),
            r.err_code() == 0,
            !r.is_quiet() && !r.is_debug(),
    {
        MovementImporter {
            accfact: AccountFactory::new(),
            txfact: TransactionFactory::new(),
            bquiet: false,
            bdebug: false,
            ierr: 0,
        }
    }

    pub fn set_quiet(&mut self, bquiet: bool)
        ensures
            final(self).is_quiet() == bquiet,
            final(self).is_debug() == old(self).is_debug(),
            final(self).accounts() == old(self).accounts(),
            final(self).transactions() == old(self).transactions(),
            final(self).queued() == old(self).queued(),
            final(self).err_code() == old(self).err_code(),
    {
        self.bquiet = bquiet;
    }

    pub fn set_debug(&mut self, bdebug: bool)
        ensures
            final(self).is_debug() == bdebug,
            final(self).is_quiet() == old(self).is_quiet(),
            final(self).accounts() == old(self).accounts(),
            final(self).transactions() == old(self).transactions(),
            final(self).queued() == old(self).queued(),
            final(self).err_code() == old(self).err_code(),
    {
        self.bdebug = bdebug;
    }

    /// Drains the queued movements through the processor, in order.
    fn process_movements(&mut self)
        ensures
            ({
                let r = process_all(
                    old(self).accounts(),
                    old(self).transactions(),
                    old(self).queued(),
                );
                final(self).accounts() == r.0 && final(self).transactions() == r.1
            }),
            final(self).queued() == Seq::<Movement>::empty(),
            final(self).err_code() == old(self).err_code(),
            final(self).is_quiet() == old(self).is_quiet(),
            final(self).is_debug() == old(self).is_debug(),
    {
        let ghost ms = self.txfact.vmovements@;
        let n = self.txfact.vmovements.len();
        let mut i: usize = 0;
        proof {
            assert(ms.take(0) =~= Seq::<Movement>::empty());
        }
        while i < n
            invariant
                0 <= i <= n == ms.len(),
                self.txfact.vmovements@ == ms,
                ms == old(self).txfact.vmovements@,
                self.bquiet == old(self).bquiet,
                self.bdebug == old(self).bdebug,
                self.ierr == old(self).ierr,
                (self.accfact.lstaccounts@, self.txfact.lsttransactions@) == process_all(
                    old(self).accfact.lstaccounts@,
                    old(self).txfact.lsttransactions@,
                    ms.take(i as int),
                ),
            decreases n - i,
        {
            let m = self.txfact.vmovements[i];
            let mut acc = self.accfact.lstaccounts.get_or_create(m.client);
            let mut otx = self.txfact.lsttransactions.get_copy(m.tx);
            acc.process_movement(&m, &mut otx);
            self.accfact.lstaccounts.put(acc);
            match otx {
                Some(t) => {
                    self.txfact.lsttransactions.put(t);
                }
                None => {},
            }
            proof {
                assert(ms.take(i + 1).drop_last() =~= ms.take(i as int));
                assert(ms.take(i + 1).last() == ms[i as int]);
            }
            i = i + 1;
        }
        proof {
            assert(ms.take(n as int) =~= ms);
        }
        self.txfact.vmovements.clear();
    }

    /// Ingests one batch of movement CSV rows and applies every decoded
    /// movement, provided any row parsed. Row errors set the sticky
    /// error code, and the code so far is returned.
    pub fn import_movements_bytes(&mut self, vmovements_bytes: &[u8], bheaders: bool) -> (r: i32)
        ensures
            ({
                let dl = data_lines(vmovements_bytes@, bheaders);
                let first: int = if bheaders {
                    2
                } else {
                    1
                };
                let q1 = movements_fold(old(self).queued(), dl);
                let t1 = mv_txs_fold(old(self).transactions(), dl);
                let cnt = mv_ok_count(dl) as u32;
                &&& (if cnt > 0 {
                    let pr = process_all(old(self).accounts(), t1, q1);
                    final(self).accounts() == pr.0 && final(self).transactions() == pr.1 && final(self).queued() == Seq::<Movement>::empty()
                } else {
                    final(self).accounts() == old(self).accounts() && final(self).transactions()
                        == t1 && final(self).queued() == q1
                })
                &&& final(self).err_code() == (if mv_err_lines(dl, first).len() > 0 {
                    1int
                } else {
                    old(self).err_code()
                })
                &&& r == final(self).err_code()
            }),
            final(self).is_quiet() == old(self).is_quiet(),
            final(self).is_debug() == old(self).is_debug(),
    {
        let itxcount: u32 = match self.txfact.import_csv_bytes(
            vmovements_bytes,
            bheaders,
            self.bdebug,
            self.bquiet,
        ) {
            Ok(icnt) => icnt,
            Err(e) => {
                self.ierr = e.code as i32;
                e.ok_count
            }
        };
        if itxcount > 0 {
            self.process_movements();
        }
        self.ierr
    }

    /// Ingests one batch of movement CSV rows given as text.
    pub fn import_movements_str(&mut self, smovements_str: &str, bheaders: bool) -> (r: i32)
        ensures
            ({
                let dl = data_lines(smovements_str.spec_bytes(), bheaders);
                let first: int = if bheaders {
                    2
                } else {
                    1
                };
                let q1 = movements_fold(old(self).queued(), dl);
                let t1 = mv_txs_fold(old(self).transactions(), dl);
                let cnt = mv_ok_count(dl) as u32;
                &&& (if cnt > 0 {
                    let pr = process_all(old(self).accounts(), t1, q1);
                    final(self).accounts() == pr.0 && final(self).transactions() == pr.1 && final(self).queued() == Seq::<Movement>::empty()
                } else {
                    final(self).accounts() == old(self).accounts() && final(self).transactions()
                        == t1 && final(self).queued() == q1
                })
                &&& final(self).err_code() == (if mv_err_lines(dl, first).len() > 0 {
                    1int
                } else {
                    old(self).err_code()
                })
                &&& r == final(self).err_code()
            }),
            final(self).is_quiet() == old(self).is_quiet(),
            final(self).is_debug() == old(self).is_debug(),
    {
        self.import_movements_bytes(smovements_str.as_bytes(), bheaders)
    }

    /// The account ledger as CSV text.
    pub fn export_accounts_str(&self) -> (s: String)
        ensures
            s@ == ascii_chars(accounts_csv(self.accounts())),
    {
        self.accfact.export_csv(self.bdebug, self.bquiet)
    }

    /// The transaction ledger as CSV text.
    pub fn export_transactions_str(&self) -> (s: String)
        ensures
            s@ == ascii_chars(txs_csv(self.transactions())),
    {
        self.txfact.export_transactions_csv(self.bdebug, self.bquiet)
    }

    pub closed spec fn is_quiet_spec(&self) -> bool {
        self.bquiet
    }

    pub closed spec fn is_debug_spec(&self) -> bool {
        self.bdebug
    }

    #[verifier::when_used_as_spec(is_quiet_spec)]
    pub fn is_quiet(&self) -> (r: bool)
        ensures
            r == self.is_quiet_spec(),
    {
        self.bquiet
    }

    #[verifier::when_used_as_spec(is_debug_spec)]
    pub fn is_debug(&self) -> (r: bool)
        ensures
            r == self.is_debug_spec(),
    {
        self.bdebug
    }

    pub fn get_error_code(&self) -> (r: i32)
        ensures
            r == self.err_code(),
    {
        self.ierr
    }
}

} // verus!
