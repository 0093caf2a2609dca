//! The account factory: the account ledger together with its CSV
//! loader and exporter.

use vstd::prelude::*;
use crate::ledger::{AccountLedger, acc_put, unique_clients};
use crate::model::{Account, fresh_account};
use crate::rows::split_lines;
use crate::text::{
    import_accounts_fold, import_accounts_count, accounts_csv, ascii_chars, parse_account_row,
    push_accounts_header, push_account_row, bytes_to_string, lemma_accounts_csv_ascii,
    lemma_acc_rows_snoc, acc_rows, accounts_header,
};
use vstd::slice::slice_subrange;
use vstd::string::StringSliceAdditionalSpecFns;

verus! {

/// The lines an import reads: all lines of the text, or all but the
/// header line.
pub open spec fn data_lines(bytes: Seq<u8>, headers: bool) -> Seq<Seq<u8>> {
    let ls = split_lines(bytes);
    if headers && ls.len() > 0 {
        ls.skip(1)
    } else {
        ls
    }
}

/// Holds the account ledger and reads and writes its CSV form.
#[derive(Debug)]
pub struct AccountFactory {
    pub lstaccounts: AccountLedger,
}

impl AccountFactory {
    pub fn new() -> (r: AccountFactory)
        ensures
            r.lstaccounts@ == Seq::<Account>::empty(),
    {
        AccountFactory { lstaccounts: AccountLedger::new() }
    }

    /// Builds a factory from account CSV text.
    pub fn from_str(saccounts_csv: &str, bheaders: bool, bdebug: bool, bquiet: bool) -> (r:
        AccountFactory)
        ensures
            r.lstaccounts@ == import_accounts_fold(
                Seq::<Account>::empty(),
                data_lines(saccounts_csv.spec_bytes(), bheaders),
            ),
    {
        let mut factory = AccountFactory::new();
        factory.import_csv(saccounts_csv, bheaders, bdebug, bquiet);
        factory
    }

    /// Reads account CSV text into the ledger: every well-formed row is
    /// stored under its client id, malformed rows are skipped, and the
    /// count of stored rows is returned.
    pub fn import_csv(&mut self, saccounts_csv: &str, bheaders: bool, bdebug: bool, bquiet: bool)
        -> (icount: u32)
        ensures
            final(self).lstaccounts@ == import_accounts_fold(
                old(self).lstaccounts@,
                data_lines(saccounts_csv.spec_bytes(), bheaders),
            ),
            icount == import_accounts_count(
                data_lines(saccounts_csv.spec_bytes(), bheaders),
            ) as u32,
    {
        let bytes = saccounts_csv.as_bytes();
        let ranges = crate::rows::split_lines_ranges(bytes);
        let ghost dl = data_lines(bytes@, bheaders);
        let base: usize = if bheaders && ranges.len() > 0 {
            1
        } else {
            0
        };
        proof {
            assert(dl =~= split_lines(bytes@).skip(base as int));
        }
        let mut count: u64 = 0;
        let mut i: usize = base;
        while i < ranges.len()
            invariant
                base <= i <= ranges@.len(),
                dl == split_lines(bytes@).skip(base as int),
                crate::rows::ranges_view(bytes@, ranges@) == split_lines(bytes@),
                forall|k: int|
                    0 <= k < ranges@.len() ==> #[trigger] ranges@[k].0 <= ranges@[k].1
                        <= bytes@.len(),
                dl.len() == ranges@.len() - base,
                self.lstaccounts@ == import_accounts_fold(
                    old(self).lstaccounts@,
                    dl.take(i - base),
                ),
                count == import_accounts_count(dl.take(i - base)),
                count <= i,
            decreases ranges@.len() - i,
        {
            let r = ranges[i];
            let line = slice_subrange(bytes, r.0, r.1);
            proof {
                assert(dl[i - base] == split_lines(bytes@)[i as int]);
                assert(split_lines(bytes@)[i as int] == bytes@.subrange(
                    r.0 as int,
                    r.1 as int,
                ));
                assert(dl.take(i - base + 1).drop_last() =~= dl.take(i - base));
                assert(dl.take(i - base + 1).last() == dl[i - base]);
            }
            match parse_account_row(line) {
                Some(a) => {
                    self.lstaccounts.put(a);
                    count = count + 1;
                }
                None => {},
            }
            i = i + 1;
        }
        proof {
            assert(dl.take(dl.len() as int) =~= dl);
        }
        count as u32
    }

    /// Writes the ledger as CSV text: the header row, then one row per
    /// account in insertion order.
    pub fn export_csv(&self, bdebug: bool, bquiet: bool) -> (s: String)
        ensures
            s@ == ascii_chars(accounts_csv(self.lstaccounts@)),
            unique_clients(self.lstaccounts@),
    {
        self.lstaccounts.keys_are_unique();
        let mut v: Vec<u8> = Vec::new();
        push_accounts_header(&mut v);
        let n = self.lstaccounts.len();
        let mut i: usize = 0;
        proof {
            assert(self.lstaccounts@.take(0) =~= Seq::<Account>::empty());
            assert(v@ =~= accounts_header() + acc_rows(self.lstaccounts@.take(0)));
        }
        while i < n
            invariant
                0 <= i <= n == self.lstaccounts@.len(),
                v@ == accounts_header() + acc_rows(self.lstaccounts@.take(i as int)),
            decreases n - i,
        {
            let a = self.lstaccounts.at(i);
            proof {
                assert(self.lstaccounts@.take(i + 1) =~= self.lstaccounts@.take(i as int).push(
                    self.lstaccounts@[i as int],
                ));
                lemma_acc_rows_snoc(self.lstaccounts@.take(i as int), self.lstaccounts@[i as int]);
            }
            push_account_row(&mut v, a);
            i = i + 1;
        }
        proof {
            assert(self.lstaccounts@.take(n as int) =~= self.lstaccounts@);
            lemma_accounts_csv_ascii(self.lstaccounts@);
        }
        bytes_to_string(v)
    }

    /// Stores a fresh zero-balance unlocked account for `client_id`,
    /// replacing any existing entry, and returns it.
    pub fn create_account(&mut self, client_id: &u16) -> (r: Option<Account>)
        ensures
            final(self).lstaccounts@ == acc_put(
                old(self).lstaccounts@,
                fresh_account(*client_id),
            ),
            r == Some(fresh_account(*client_id)),
    {
        let account = Account::new(*client_id);
        self.lstaccounts.put(account);
        Some(account)
    }

    /// Stores `account` under its client id and returns it.
    pub fn add_account(&mut self, account: Account) -> (r: Option<Account>)
        ensures
            final(self).lstaccounts@ == acc_put(old(self).lstaccounts@, account),
            r == Some(account),
    {
        self.lstaccounts.put(account);
        Some(account)
    }
}

} // verus!
