//! The two ledgers: accounts keyed by client id and transactions keyed
//! by transaction id. Each is a sequence in insertion order whose keys
//! stay unique; storing under an existing key overwrites in place, and
//! no entry is ever deleted.

use vstd::prelude::*;
use crate::model::{Account, Transaction, fresh_account};

verus! {

/// First position of client `c` in `s`, or -1 if absent.
pub open spec fn acc_idx(s: Seq<Account>, c: u16) -> int
    decreases s.len(),
{
    if s.len() == 0 {
        -1
    } else if s[0].client == c {
        0
    } else if acc_idx(s.skip(1), c) < 0 {
        -1
    } else {
        acc_idx(s.skip(1), c) + 1
    }
}

pub proof fn lemma_acc_idx_at(s: Seq<Account>, c: u16, p: int)
    requires
        0 <= p < s.len(),
        s[p].client == c,
        forall|j: int| 0 <= j < p ==> s[j].client != c,
    ensures
        acc_idx(s, c) == p,
    decreases s.len(),
{
    if p > 0 {
        lemma_acc_idx_at(s.skip(1), c, p - 1);
    }
}

pub proof fn lemma_acc_idx_none(s: Seq<Account>, c: u16)
    requires
        forall|j: int| 0 <= j < s.len() ==> s[j].client != c,
    ensures
        acc_idx(s, c) == -1,
    decreases s.len(),
{
    if s.len() > 0 {
        lemma_acc_idx_none(s.skip(1), c);
    }
}

/// What `acc_idx` found: a first occurrence, or proof of absence.
pub proof fn lemma_acc_idx_props(s: Seq<Account>, c: u16)
    ensures
        acc_idx(s, c) >= 0 ==> acc_idx(s, c) < s.len() && s[acc_idx(s, c)].client == c && (
        forall|j: int| 0 <= j < acc_idx(s, c) ==> s[j].client != c),
        acc_idx(s, c) < 0 ==> acc_idx(s, c) == -1 && (forall|j: int|
            0 <= j < s.len() ==> s[j].client != c),
    decreases s.len(),
{
    if s.len() > 0 && s[0].client != c {
        lemma_acc_idx_props(s.skip(1), c);
        let r = acc_idx(s, c);
        if acc_idx(s.skip(1), c) >= 0 {
            assert(s[r] == s.skip(1)[r - 1]);
            assert forall|j: int| 0 <= j < r implies s[j].client != c by {
                if j > 0 {
                    assert(s[j] == s.skip(1)[j - 1]);
                }
            }
        } else {
            assert forall|j: int| 0 <= j < s.len() implies s[j].client != c by {
                if j > 0 {
                    assert(s[j] == s.skip(1)[j - 1]);
                }
            }
        }
    }
}

/// The account the ledger answers for client `c`: the stored one, or a
/// fresh zero-balance account.
pub open spec fn acc_lookup_or_fresh(s: Seq<Account>, c: u16) -> Account {
    if acc_idx(s, c) >= 0 {
        s[acc_idx(s, c)]
    } else {
        fresh_account(c)
    }
}

/// The ledger after making sure client `c` has an entry.
pub open spec fn acc_create(s: Seq<Account>, c: u16) -> Seq<Account> {
    if acc_idx(s, c) >= 0 {
        s
    } else {
        s.push(fresh_account(c))
    }
}

/// The ledger after storing `a`: overwritten in place, or appended.
pub open spec fn acc_put(s: Seq<Account>, a: Account) -> Seq<Account> {
    if acc_idx(s, a.client) >= 0 {
        s.update(acc_idx(s, a.client), a)
    } else {
        s.push(a)
    }
}

/// No two entries share a client id.
pub open spec fn unique_clients(s: Seq<Account>) -> bool {
    forall|i: int, j: int| 0 <= i < j < s.len() ==> s[i].client != s[j].client
}

/// The account ledger: per-client balance aggregates in insertion
/// order, one entry per client.
#[derive(Debug)]
pub struct AccountLedger {
    accounts: Vec<Account>,
}

impl View for AccountLedger {
    type V = Seq<Account>;

    closed spec fn view(&self) -> Seq<Account> {
        self.accounts@
    }
}

impl AccountLedger {
    #[verifier::type_invariant]
    spec fn inv(self) -> bool {
        unique_clients(self.accounts@)
    }

    /// Exposes the ledger invariant: client ids are unique.
    pub fn keys_are_unique(&self)
        ensures
            unique_clients(self@),
    {
        proof {
            use_type_invariant(self);
        }
    }

    pub fn new() -> (r: AccountLedger)
        ensures
            r@ == Seq::<Account>::empty(),
    {
        let v: Vec<Account> = Vec::new();
        proof {
            assert(v@ =~= Seq::<Account>::empty());
        }
        AccountLedger { accounts: v }
    }

    pub fn len(&self) -> (n: usize)
        ensures
            n == self@.len(),
    {
        self.accounts.len()
    }

    /// The entry at position `i`, in insertion order.
    pub fn at(&self, i: usize) -> (a: &Account)
        requires
            i < self@.len(),
        ensures
            *a == self@[i as int],
    {
        &self.accounts[i]
    }

    /// Looks a client's account up.
    pub fn get(&self, client: &u16) -> (r: Option<&Account>)
        ensures
            match r {
                Some(a) => acc_idx(self@, *client) >= 0 && *a == self@[acc_idx(self@, *client)],
                None => acc_idx(self@, *client) == -1,
            },
    {
        let n = self.accounts.len();
        let mut i: usize = 0;
        while i < n
            invariant
                0 <= i <= n == self@.len(),
                forall|j: int| 0 <= j < i ==> self@[j].client != *client,
            decreases n - i,
        {
            if self.accounts[i].client == *client {
                proof {
                    lemma_acc_idx_at(self@, *client, i as int);
                }
                return Some(&self.accounts[i]);
            }
            i = i + 1;
        }
        proof {
            lemma_acc_idx_none(self@, *client);
        }
        None
    }

    /// Returns the existing account for `client`, or inserts and returns
    /// a fresh zero-balance unlocked one.
    pub fn get_or_create(&mut self, client: u16) -> (a: Account)
        ensures
            a == acc_lookup_or_fresh(old(self)@, client),
            final(self)@ == acc_create(old(self)@, client),
    {
        proof {
            use_type_invariant(&*self);
        }
        let n = self.accounts.len();
        let mut i: usize = 0;
        while i < n
            invariant
                0 <= i <= n == self@.len(),
                forall|j: int| 0 <= j < i ==> self@[j].client != client,
            decreases n - i,
        {
            if self.accounts[i].client == client {
                proof {
                    lemma_acc_idx_at(self@, client, i as int);
                }
                return self.accounts[i];
            }
            i = i + 1;
        }
        proof {
            lemma_acc_idx_none(self@, client);
        }
        let a = Account::new(client);
        let ghost s0 = self.accounts@;
        let mut v: Vec<Account> = Vec::new();
        core::mem::swap(&mut v, &mut self.accounts);
        v.push(a);
        proof {
            assert forall|x: int, y: int| 0 <= x < y < v@.len() implies v@[x].client
                != v@[y].client by {
                if y < s0.len() {
                    assert(unique_clients(s0));
                }
            }
        }
        self.accounts = v;
        a
    }

    /// Stores `a` under its client id, overwriting in place or
    /// appending.
    pub fn put(&mut self, a: Account)
        ensures
            final(self)@ == acc_put(old(self)@, a),
    {
        proof {
            use_type_invariant(&*self);
        }
        let n = self.accounts.len();
        let mut i: usize = 0;
        while i < n
            invariant
                0 <= i <= n == self@.len(),
                self@ == old(self)@,
                forall|j: int| 0 <= j < i ==> self@[j].client != a.client,
                unique_clients(self@),
            decreases n - i,
        {
            if self.accounts[i].client == a.client {
                proof {
                    lemma_acc_idx_at(self@, a.client, i as int);
                }
                let ghost s0 = self.accounts@;
                let mut v: Vec<Account> = Vec::new();
                core::mem::swap(&mut v, &mut self.accounts);
                v.set(i, a);
                proof {
                    assert forall|x: int, y: int| 0 <= x < y < v@.len() implies v@[x].client
                        != v@[y].client by {
                        assert(unique_clients(s0));
                        assert(s0[x].client != s0[y].client);
                    }
                }
                self.accounts = v;
                return ;
            }
            i = i + 1;
        }
        proof {
            lemma_acc_idx_none(self@, a.client);
        }
        let ghost s0 = self.accounts@;
        let mut v: Vec<Account> = Vec::new();
        core::mem::swap(&mut v, &mut self.accounts);
        v.push(a);
        proof {
            assert forall|x: int, y: int| 0 <= x < y < v@.len() implies v@[x].client
                != v@[y].client by {
                if y < s0.len() {
                    assert(unique_clients(s0));
                }
            }
        }
        self.accounts = v;
    }
}

/// First position of transaction id `t` in `s`, or -1 if absent.
pub open spec fn tx_idx(s: Seq<Transaction>, t: u32) -> int
    decreases s.len(),
{
    if s.len() == 0 {
        -1
    } else if s[0].tx == t {
        0
    } else if tx_idx(s.skip(1), t) < 0 {
        -1
    } else {
        tx_idx(s.skip(1), t) + 1
    }
}

pub proof fn lemma_tx_idx_at(s: Seq<Transaction>, t: u32, p: int)
    requires
        0 <= p < s.len(),
        s[p].tx == t,
        forall|j: int| 0 <= j < p ==> s[j].tx != t,
    ensures
        tx_idx(s, t) == p,
    decreases s.len(),
{
    if p > 0 {
        lemma_tx_idx_at(s.skip(1), t, p - 1);
    }
}

pub proof fn lemma_tx_idx_none(s: Seq<Transaction>, t: u32)
    requires
        forall|j: int| 0 <= j < s.len() ==> s[j].tx != t,
    ensures
        tx_idx(s, t) == -1,
    decreases s.len(),
{
    if s.len() > 0 {
        lemma_tx_idx_none(s.skip(1), t);
    }
}

/// The entry the ledger holds for transaction id `t`, if any.
pub open spec fn tx_lookup(s: Seq<Transaction>, t: u32) -> Option<Transaction> {
    if tx_idx(s, t) >= 0 {
        Some(s[tx_idx(s, t)])
    } else {
        None
    }
}

/// The ledger after storing `t`: overwritten in place, or appended.
pub open spec fn tx_put(s: Seq<Transaction>, t: Transaction) -> Seq<Transaction> {
    if tx_idx(s, t.tx) >= 0 {
        s.update(tx_idx(s, t.tx), t)
    } else {
        s.push(t)
    }
}

/// No two entries share a transaction id.
pub open spec fn unique_txs(s: Seq<Transaction>) -> bool {
    forall|i: int, j: int| 0 <= i < j < s.len() ==> s[i].tx != s[j].tx
}

/// The transaction ledger: stored deposits and withdrawals in insertion
/// order, one entry per transaction id.
#[derive(Debug)]
pub struct TransactionLedger {
    txs: Vec<Transaction>,
}

impl View for TransactionLedger {
    type V = Seq<Transaction>;

    closed spec fn view(&self) -> Seq<Transaction> {
        self.txs@
    }
}

impl TransactionLedger {
    #[verifier::type_invariant]
    spec fn inv(self) -> bool {
        unique_txs(self.txs@)
    }

    /// Exposes the ledger invariant: transaction ids are unique.
    pub fn keys_are_unique(&self)
        ensures
            unique_txs(self@),
    {
        proof {
            use_type_invariant(self);
        }
    }

    pub fn new() -> (r: TransactionLedger)
        ensures
            r@ == Seq::<Transaction>::empty(),
    {
        let v: Vec<Transaction> = Vec::new();
        proof {
            assert(v@ =~= Seq::<Transaction>::empty());
        }
        TransactionLedger { txs: v }
    }

    pub fn len(&self) -> (n: usize)
        ensures
            n == self@.len(),
    {
        self.txs.len()
    }

    /// The entry at position `i`, in insertion order.
    pub fn at(&self, i: usize) -> (t: &Transaction)
        requires
            i < self@.len(),
        ensures
            *t == self@[i as int],
    {
        &self.txs[i]
    }

    /// Looks a transaction up by its id.
    pub fn get(&self, tx: &u32) -> (r: Option<&Transaction>)
        ensures
            match r {
                Some(t) => tx_lookup(self@, *tx) == Some(*t),
                None => tx_lookup(self@, *tx) is None,
            },
    {
        let n = self.txs.len();
        let mut i: usize = 0;
        while i < n
            invariant
                0 <= i <= n == self@.len(),
                forall|j: int| 0 <= j < i ==> self@[j].tx != *tx,
            decreases n - i,
        {
            if self.txs[i].tx == *tx {
                proof {
                    lemma_tx_idx_at(self@, *tx, i as int);
                }
                return Some(&self.txs[i]);
            }
            i = i + 1;
        }
        proof {
            lemma_tx_idx_none(self@, *tx);
        }
        None
    }

    /// A copy of the entry for id `tx`, if any.
    pub fn get_copy(&self, tx: u32) -> (r: Option<Transaction>)
        ensures
            r == tx_lookup(self@, tx),
    {
        match self.get(&tx) {
            Some(t) => Some(*t),
            None => None,
        }
    }

    /// Stores `t` under its transaction id, overwriting in place or
    /// appending.
    pub fn put(&mut self, t: Transaction)
        ensures
            final(self)@ == tx_put(old(self)@, t),
    {
        proof {
            use_type_invariant(&*self);
        }
        let n = self.txs.len();
        let mut i: usize = 0;
        while i < n
            invariant
                0 <= i <= n == self@.len(),
                self@ == old(self)@,
                forall|j: int| 0 <= j < i ==> self@[j].tx != t.tx,
                unique_txs(self@),
            decreases n - i,
        {
            if self.txs[i].tx == t.tx {
                proof {
                    lemma_tx_idx_at(self@, t.tx, i as int);
                }
                let ghost s0 = self.txs@;
                let mut v: Vec<Transaction> = Vec::new();
                core::mem::swap(&mut v, &mut self.txs);
                v.set(i, t);
                proof {
                    assert forall|x: int, y: int| 0 <= x < y < v@.len() implies v@[x].tx
                        != v@[y].tx by {
                        assert(unique_txs(s0));
                        assert(s0[x].tx != s0[y].tx);
                    }
                }
                self.txs = v;
                return ;
            }
            i = i + 1;
        }
        proof {
            lemma_tx_idx_none(self@, t.tx);
        }
        let ghost s0 = self.txs@;
        let mut v: Vec<Transaction> = Vec::new();
        core::mem::swap(&mut v, &mut self.txs);
        v.push(t);
        proof {
            assert forall|x: int, y: int| 0 <= x < y < v@.len() implies v@[x].tx != v@[y].tx by {
                if y < s0.len() {
                    assert(unique_txs(s0));
                }
            }
        }
        self.txs = v;
    }
}

} // verus!
