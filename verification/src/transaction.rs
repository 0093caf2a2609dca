//! The transaction factory: the movement queue and the transaction
//! ledger, with the movement-CSV decoder that fills them, a
//! transaction-CSV loader, and the transaction exporter.

use vstd::prelude::*;
use crate::account::data_lines;
use crate::ledger::{TransactionLedger, tx_put, unique_txs};
use crate::model::{Movement, Transaction, build_transaction_spec};
use crate::rows::{split_lines, split_lines_ranges, ranges_view, parse_row, decode_row, RowOutcome};
use crate::text::{
    import_txs_fold, import_txs_count, import_txs_errors, txs_csv, ascii_chars, parse_tx_row,
    push_txs_header, push_tx_row, bytes_to_string, lemma_txs_csv_ascii, lemma_tx_rows_snoc,
    tx_rows, txs_header,
};
use vstd::slice::slice_subrange;
use vstd::string::StringSliceAdditionalSpecFns;

verus! {

/// What a failed movement import reports: how many rows were read, the
/// 1-based numbers of the lines that failed, a diagnostic text, and a
/// fixed error code.
#[derive(Debug)]
pub struct MovementImportError {
    pub ok_count: u32,
    pub lines: Vec<u32>,
    pub message: String,
    pub code: i8,
}

impl MovementImportError {
    pub fn new(ok_count: u32, error_lines: Vec<u32>, error_message: String, error_code: i8) -> (r:
        MovementImportError)
        ensures
            r.ok_count == ok_count,
            r.lines == error_lines,
            r.message == error_message,
            r.code == error_code,
    {
        MovementImportError { ok_count, lines: error_lines, message: error_message, code: error_code }
    }
}

/// What a failed transaction import reports, in the same shape.
#[derive(Debug)]
pub struct TransactionImportError {
    pub ok_count: u32,
    pub lines: Vec<u32>,
    pub message: String,
    pub code: i8,
}

/// The queued movements of one batch, per line number: what decoding
/// appends to the movement queue.
pub open spec fn movements_fold(ms: Seq<Movement>, lines: Seq<Seq<u8>>) -> Seq<Movement>
    decreases lines.len(),
{
    if lines.len() == 0 {
        ms
    } else {
        let prev = movements_fold(ms, lines.drop_last());
        match decode_row(lines.last()) {
            RowOutcome::Queued(m) => prev.push(m),
            _ => prev,
        }
    }
}

/// The transaction ledger after decoding the given movement lines:
/// every queued deposit or withdrawal stores its transaction under its
/// id, overwriting an earlier entry with the same id.
pub open spec fn mv_txs_fold(led: Seq<Transaction>, lines: Seq<Seq<u8>>) -> Seq<Transaction>
    decreases lines.len(),
{
    if lines.len() == 0 {
        led
    } else {
        let prev = mv_txs_fold(led, lines.drop_last());
        match decode_row(lines.last()) {
            RowOutcome::Queued(m) => match build_transaction_spec(m) {
                Some(t) => tx_put(prev, t),
                None => prev,
            },
            _ => prev,
        }
    }
}

/// How many lines parse as rows (queued or silently dropped).
pub open spec fn mv_ok_count(lines: Seq<Seq<u8>>) -> int
    decreases lines.len(),
{
    if lines.len() == 0 {
        0
    } else {
        mv_ok_count(lines.drop_last()) + (match decode_row(lines.last()) {
            RowOutcome::Queued(m) => 1int,
            RowOutcome::Dropped => 1int,
            _ => 0int,
        })
    }
}

/// The 1-based numbers of the structurally malformed lines; `first`
/// numbers the first given line.
pub open spec fn mv_err_lines(lines: Seq<Seq<u8>>, first: int) -> Seq<u32>
    decreases lines.len(),
{
    if lines.len() == 0 {
        Seq::<u32>::empty()
    } else {
        let prev = mv_err_lines(lines.drop_last(), first);
        if decode_row(lines.last()) is Bad {
            prev.push(((first + lines.len() - 1) as int) as u32)
        } else {
            prev
        }
    }
}

/// Holds the movement queue and the transaction ledger, and reads and
/// writes their CSV forms.
#[derive(Debug)]
pub struct TransactionFactory {
    pub vmovements: Vec<Movement>,
    pub lsttransactions: TransactionLedger,
}

impl TransactionFactory {
    pub fn new() -> (r: TransactionFactory)
        ensures
            r.vmovements@ == Seq::<Movement>::empty(),
            r.lsttransactions@ == Seq::<Transaction>::empty(),
    {
        TransactionFactory { vmovements: Vec::new(), lsttransactions: TransactionLedger::new() }
    }

    /// Builds a factory from transaction CSV text (an earlier export).
    pub fn from_str(stransactions_csv: &str, bheaders: bool, bdebug: bool, bquiet: bool) -> (r:
        TransactionFactory)
        ensures
            r.vmovements@ == Seq::<Movement>::empty(),
            r.lsttransactions@ == import_txs_fold(
                Seq::<Transaction>::empty(),
                data_lines(stransactions_csv.spec_bytes(), bheaders),
            ),
    {
        let mut factory = TransactionFactory::new();
        let _ = factory.import_transactions_str(stransactions_csv, bheaders, bdebug, bquiet);
        factory
    }

    /// Builds a factory from movement CSV text.
    pub fn from_csv_str(smovements_csv: &str, bheaders: bool, bdebug: bool, bquiet: bool) -> (r:
        TransactionFactory)
        ensures
            r.vmovements@ == movements_fold(
                Seq::<Movement>::empty(),
                data_lines(smovements_csv.spec_bytes(), bheaders),
            ),
            r.lsttransactions@ == mv_txs_fold(
                Seq::<Transaction>::empty(),
                data_lines(smovements_csv.spec_bytes(), bheaders),
            ),
    {
        let mut factory = TransactionFactory::new();
        let _ = factory.import_csv_str(smovements_csv, bheaders, bdebug, bquiet);
        factory
    }

    /// Decodes one batch of movement CSV rows: every structurally valid
    /// row counts; deposits and withdrawals with a valid amount queue a
    /// movement and store a pending transaction, the other kinds queue a
    /// movement alone. Malformed rows are reported by 1-based line
    /// number, counting the header line when one is present.
    pub fn import_csv_bytes(
        &mut self,
        vmovements_csv: &[u8],
        bheaders: bool,
        bdebug: bool,
        bquiet: bool,
    ) -> (r: Result<u32, MovementImportError>)
        ensures
            final(self).vmovements@ == movements_fold(
                old(self).vmovements@,
                data_lines(vmovements_csv@, bheaders),
            ),
            final(self).lsttransactions@ == mv_txs_fold(
                old(self).lsttransactions@,
                data_lines(vmovements_csv@, bheaders),
            ),
            ({
                let dl = data_lines(vmovements_csv@, bheaders);
                let first: int = if bheaders {
                    2
                } else {
                    1
                };
                match r {
                    Ok(c) => mv_err_lines(dl, first).len() == 0 && c == mv_ok_count(dl) as u32,
                    Err(e) => mv_err_lines(dl, first).len() > 0 && e.lines@ == mv_err_lines(
                        dl,
                        first,
                    ) && e.ok_count == mv_ok_count(dl) as u32 && e.code == 1,
                }
            }),
    {
        let bytes = vmovements_csv;
        let ranges = split_lines_ranges(bytes);
        let ghost dl = data_lines(bytes@, bheaders);
        let base: usize = if bheaders && ranges.len() > 0 {
            1
        } else {
            0
        };
        let first: u64 = if bheaders {
            2
        } else {
            1
        };
        proof {
            assert(dl =~= split_lines(bytes@).skip(base as int));
        }
        let mut count: u64 = 0;
        let mut errs: Vec<u32> = Vec::new();
        let mut i: usize = base;
        while i < ranges.len()
            invariant
                base <= i <= ranges@.len(),
                base == 0 || base == 1,
                first == if bheaders {
                    2int
                } else {
                    1int
                },
                dl == split_lines(bytes@).skip(base as int),
                ranges_view(bytes@, ranges@) == split_lines(bytes@),
                forall|k: int|
                    0 <= k < ranges@.len() ==> #[trigger] ranges@[k].0 <= ranges@[k].1
                        <= bytes@.len(),
                dl.len() == ranges@.len() - base,
                self.vmovements@ == movements_fold(old(self).vmovements@, dl.take(i - base)),
                self.lsttransactions@ == mv_txs_fold(
                    old(self).lsttransactions@,
                    dl.take(i - base),
                ),
                count == mv_ok_count(dl.take(i - base)),
                count <= i,
                errs@ == mv_err_lines(dl.take(i - base), first as int),
            decreases ranges@.len() - i,
        {
            let r = ranges[i];
            let line = slice_subrange(bytes, r.0, r.1);
            proof {
                assert(dl[i - base] == split_lines(bytes@)[i as int]);
                assert(split_lines(bytes@)[i as int] == bytes@.subrange(r.0 as int, r.1 as int));
                assert(dl.take(i - base + 1).drop_last() =~= dl.take(i - base));
                assert(dl.take(i - base + 1).last() == dl[i - base]);
            }
            match parse_row(line) {
                RowOutcome::Blank => {},
                RowOutcome::Bad => {
                    let line_no: u128 = first as u128 + ((i - base) as u128);
                    errs.push(#[verifier::truncate] (line_no as u32));
                }
                RowOutcome::Dropped => {
                    count = count + 1;
                }
                RowOutcome::Queued(m) => {
                    let otx = m.build_transaction();
                    self.vmovements.push(m);
                    match otx {
                        Some(t) => {
                            self.lsttransactions.put(t);
                        }
                        None => {},
                    }
                    count = count + 1;
                }
            }
            i = i + 1;
        }
        proof {
            assert(dl.take(dl.len() as int) =~= dl);
        }
        if errs.len() == 0 {
            Ok(#[verifier::truncate] (count as u32))
        } else {
            let message = crate::text::bytes_to_string(error_text());
            Err(MovementImportError::new(#[verifier::truncate] (count as u32), errs, message, 1))
        }
    }

    /// Decodes one batch of movement CSV rows given as text.
    pub fn import_csv_str(
        &mut self,
        smovements_csv: &str,
        bheaders: bool,
        bdebug: bool,
        bquiet: bool,
    ) -> (r: Result<u32, MovementImportError>)
        ensures
            final(self).vmovements@ == movements_fold(
                old(self).vmovements@,
                data_lines(smovements_csv.spec_bytes(), bheaders),
            ),
            final(self).lsttransactions@ == mv_txs_fold(
                old(self).lsttransactions@,
                data_lines(smovements_csv.spec_bytes(), bheaders),
            ),
            ({
                let dl = data_lines(smovements_csv.spec_bytes(), bheaders);
                let first: int = if bheaders {
                    2
                } else {
                    1
                };
                match r {
                    Ok(c) => mv_err_lines(dl, first).len() == 0 && c == mv_ok_count(dl) as u32,
                    Err(e) => mv_err_lines(dl, first).len() > 0 && e.lines@ == mv_err_lines(
                        dl,
                        first,
                    ) && e.ok_count == mv_ok_count(dl) as u32 && e.code == 1,
                }
            }),
    {
        self.import_csv_bytes(smovements_csv.as_bytes(), bheaders, bdebug, bquiet)
    }

    /// Stores `transaction` under its id and returns it.
    pub fn add_transaction(&mut self, transaction: Transaction) -> (r: Option<Transaction>)
        ensures
            final(self).lsttransactions@ == tx_put(old(self).lsttransactions@, transaction),
            final(self).vmovements == old(self).vmovements,
            r == Some(transaction),
    {
        self.lsttransactions.put(transaction);
        Some(transaction)
    }

    /// Reads transaction CSV text (an earlier export) into the ledger:
    /// every well-formed row is stored under its transaction id, and
    /// malformed rows are reported by 1-based line number.
    pub fn import_transactions_str(
        &mut self,
        stransactions_csv: &str,
        bheaders: bool,
        bdebug: bool,
        bquiet: bool,
    ) -> (r: Result<u32, TransactionImportError>)
        ensures
            final(self).vmovements == old(self).vmovements,
            final(self).lsttransactions@ == import_txs_fold(
                old(self).lsttransactions@,
                data_lines(stransactions_csv.spec_bytes(), bheaders),
            ),
            ({
                let dl = data_lines(stransactions_csv.spec_bytes(), bheaders);
                let first: int = if bheaders {
                    2
                } else {
                    1
                };
                match r {
                    Ok(c) => import_txs_errors(dl, first).len() == 0 && c == import_txs_count(
                        dl,
                    ) as u32,
                    Err(e) => import_txs_errors(dl, first).len() > 0 && e.lines@
                        == import_txs_errors(dl, first) && e.ok_count == import_txs_count(dl) as u32
                        && e.code == 1,
                }
            }),
    {
        let bytes = stransactions_csv.as_bytes();
        let ranges = split_lines_ranges(bytes);
        let ghost dl = data_lines(bytes@, bheaders);
        let base: usize = if bheaders && ranges.len() > 0 {
            1
        } else {
            0
        };
        let first: u64 = if bheaders {
            2
        } else {
            1
        };
        proof {
            assert(dl =~= split_lines(bytes@).skip(base as int));
        }
        let mut count: u64 = 0;
        let mut errs: Vec<u32> = Vec::new();
        let mut i: usize = base;
        while i < ranges.len()
            invariant
                base <= i <= ranges@.len(),
                base == 0 || base == 1,
                first == if bheaders {
                    2int
                } else {
                    1int
                },
                dl == split_lines(bytes@).skip(base as int),
                ranges_view(bytes@, ranges@) == split_lines(bytes@),
                forall|k: int|
                    0 <= k < ranges@.len() ==> #[trigger] ranges@[k].0 <= ranges@[k].1
                        <= bytes@.len(),
                dl.len() == ranges@.len() - base,
                self.vmovements == old(self).vmovements,
                self.lsttransactions@ == import_txs_fold(
                    old(self).lsttransactions@,
                    dl.take(i - base),
                ),
                count == import_txs_count(dl.take(i - base)),
                count <= i,
                errs@ == import_txs_errors(dl.take(i - base), first as int),
            decreases ranges@.len() - i,
        {
            let r = ranges[i];
            let line = slice_subrange(bytes, r.0, r.1);
            proof {
                assert(dl[i - base] == split_lines(bytes@)[i as int]);
                assert(split_lines(bytes@)[i as int] == bytes@.subrange(r.0 as int, r.1 as int));
                assert(dl.take(i - base + 1).drop_last() =~= dl.take(i - base));
                assert(dl.take(i - base + 1).last() == dl[i - base]);
            }
            if line.len() == 0 {
            } else {
                match parse_tx_row(line) {
                    Some(t) => {
                        self.lsttransactions.put(t);
                        count = count + 1;
                    }
                    None => {
                        let line_no: u128 = first as u128 + ((i - base) as u128);
                        errs.push(#[verifier::truncate] (line_no as u32));
                    }
                }
            }
            i = i + 1;
        }
        proof {
            assert(dl.take(dl.len() as int) =~= dl);
        }
        if errs.len() == 0 {
            Ok(#[verifier::truncate] (count as u32))
        } else {
            let message = crate::text::bytes_to_string(error_text());
            Err(TransactionImportError {
                ok_count: #[verifier::truncate] (count as u32),
                lines: errs,
                message,
                code: 1,
            })
        }
    }

    /// Writes the transaction ledger as CSV text: the header row, then
    /// one row per transaction in insertion order.
    pub fn export_transactions_csv(&self, bdebug: bool, bquiet: bool) -> (s: String)
        ensures
            s@ == ascii_chars(txs_csv(self.lsttransactions@)),
            unique_txs(self.lsttransactions@),
    {
        self.lsttransactions.keys_are_unique();
        let mut v: Vec<u8> = Vec::new();
        push_txs_header(&mut v);
        let n = self.lsttransactions.len();
        let mut i: usize = 0;
        proof {
            assert(self.lsttransactions@.take(0) =~= Seq::<Transaction>::empty());
            assert(v@ =~= txs_header() + tx_rows(self.lsttransactions@.take(0)));
        }
        while i < n
            invariant
                0 <= i <= n == self.lsttransactions@.len(),
                v@ == txs_header() + tx_rows(self.lsttransactions@.take(i as int)),
            decreases n - i,
        {
            let t = self.lsttransactions.at(i);
            proof {
                assert(self.lsttransactions@.take(i + 1) =~= self.lsttransactions@.take(
                    i as int,
                ).push(self.lsttransactions@[i as int]));
                lemma_tx_rows_snoc(
                    self.lsttransactions@.take(i as int),
                    self.lsttransactions@[i as int],
                );
            }
            push_tx_row(&mut v, t);
            i = i + 1;
        }
        proof {
            assert(self.lsttransactions@.take(n as int) =~= self.lsttransactions@);
            lemma_txs_csv_ascii(self.lsttransactions@);
        }
        bytes_to_string(v)
    }
}

/// The fixed diagnostic text of a failed import: `malformed csv rows`.
fn error_text() -> (v: Vec<u8>)
    ensures
        crate::text::all_ascii(v@),
{
    let mut v: Vec<u8> = Vec::new();
    v.push(109);
    v.push(97);
    v.push(108);
    v.push(102);
    v.push(111);
    v.push(114);
    v.push(109);
    v.push(101);
    v.push(100);
    v.push(32);
    v.push(99);
    v.push(115);
    v.push(118);
    v.push(32);
    v.push(114);
    v.push(111);
    v.push(119);
    v.push(115);
    v
}

} // verus!
