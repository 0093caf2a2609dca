//! The CSV text forms of accounts and transactions: canonical rows for
//! export, row parsing for import, and the proof that a written row
//! reads back as the same value.

use vstd::prelude::*;
use crate::amount::{
    parse_amount_spec, amount_bytes, split_sign, parse_amount, format_amount,
    lemma_amount_round_trip,
};
use crate::digits::{
    is_digit, all_digits, u64_digits, parse_u64_spec, parse_u64, format_u64,
    lemma_u64_digits_props,
};
use crate::model::{Account, Transaction, TxKind};
use crate::ledger::unique_clients;
use crate::rows::{
    split_fields, split_lines, trim_spec, is_ws, deposit_word, withdrawal_word, split_fields_ranges,
    trim_range,
};
use crate::scan::lemma_first_idx_at;
use vstd::slice::slice_subrange;

verus! {

/// The words `true` and `false`, as bytes.
pub open spec fn true_word() -> Seq<u8> {
    seq![116u8, 114u8, 117u8, 101u8]
}

pub open spec fn false_word() -> Seq<u8> {
    seq![102u8, 97u8, 108u8, 115u8, 101u8]
}

pub open spec fn bool_bytes(b: bool) -> Seq<u8> {
    if b {
        true_word()
    } else {
        false_word()
    }
}

pub open spec fn parse_bool_spec(w: Seq<u8>) -> Option<bool> {
    if w == true_word() {
        Some(true)
    } else if w == false_word() {
        Some(false)
    } else {
        None
    }
}

/// The text of a status value: an optional minus sign and digits.
pub open spec fn status_bytes(x: int) -> Seq<u8> {
    if x < 0 {
        seq![45u8] + u64_digits(-x)
    } else {
        u64_digits(x)
    }
}

/// Result of reading a status field as an `i8`.
pub open spec fn parse_status_spec(w: Seq<u8>) -> Option<i8> {
    let (neg, b) = split_sign(w);
    match parse_u64_spec(b) {
        Some(v) => {
            if neg {
                if v <= 128 {
                    Some((-(v as int)) as i8)
                } else {
                    None
                }
            } else {
                if v <= 127 {
                    Some(v as i8)
                } else {
                    None
                }
            }
        }
        None => None,
    }
}

/// The word a stored transaction kind exports as.
pub open spec fn tx_kind_word(k: TxKind) -> Seq<u8> {
    match k {
        TxKind::Deposit => deposit_word(),
        TxKind::Withdrawal => withdrawal_word(),
    }
}

/// The header row `client,available,held,total,locked` and newline.
pub open spec fn accounts_header_line() -> Seq<u8> {
    seq![
        99u8, 108u8, 105u8, 101u8, 110u8, 116u8, 44u8, 97u8, 118u8, 97u8, 105u8, 108u8, 97u8,
        98u8, 108u8, 101u8, 44u8, 104u8, 101u8, 108u8, 100u8, 44u8, 116u8, 111u8, 116u8, 97u8,
        108u8, 44u8, 108u8, 111u8, 99u8, 107u8, 101u8, 100u8,
    ]
}

pub open spec fn accounts_header() -> Seq<u8> {
    accounts_header_line() + seq![10u8]
}

/// The header row `type,client,tx,amount,status` and newline.
pub open spec fn txs_header_line() -> Seq<u8> {
    seq![
        116u8, 121u8, 112u8, 101u8, 44u8, 99u8, 108u8, 105u8, 101u8, 110u8, 116u8, 44u8, 116u8,
        120u8, 44u8, 97u8, 109u8, 111u8, 117u8, 110u8, 116u8, 44u8, 115u8, 116u8, 97u8, 116u8,
        117u8, 115u8,
    ]
}

pub open spec fn txs_header() -> Seq<u8> {
    txs_header_line() + seq![10u8]
}

/// One exported account row, without its newline.
pub open spec fn account_row_line(a: Account) -> Seq<u8> {
    u64_digits(a.client as int) + seq![44u8] + amount_bytes(a.available as int) + seq![44u8]
        + amount_bytes(a.held as int) + seq![44u8] + amount_bytes(a.total as int) + seq![44u8]
        + bool_bytes(a.locked)
}

/// One exported account row, newline-terminated.
pub open spec fn account_row(a: Account) -> Seq<u8> {
    account_row_line(a) + seq![10u8]
}

/// One exported transaction row, without its newline.
pub open spec fn tx_row_line(t: Transaction) -> Seq<u8> {
    tx_kind_word(t.kind) + seq![44u8] + u64_digits(t.client as int) + seq![44u8] + u64_digits(
        t.tx as int,
    ) + seq![44u8] + amount_bytes(t.amount as int) + seq![44u8] + status_bytes(t.status as int)
}

/// One exported transaction row, newline-terminated.
pub open spec fn tx_row(t: Transaction) -> Seq<u8> {
    tx_row_line(t) + seq![10u8]
}

/// All account rows, in ledger order.
pub open spec fn acc_rows(s: Seq<Account>) -> Seq<u8>
    decreases s.len(),
{
    if s.len() == 0 {
        Seq::<u8>::empty()
    } else {
        account_row(s[0]) + acc_rows(s.skip(1))
    }
}

/// All transaction rows, in ledger order.
pub open spec fn tx_rows(s: Seq<Transaction>) -> Seq<u8>
    decreases s.len(),
{
    if s.len() == 0 {
        Seq::<u8>::empty()
    } else {
        tx_row(s[0]) + tx_rows(s.skip(1))
    }
}

/// The whole exported account CSV.
pub open spec fn accounts_csv(s: Seq<Account>) -> Seq<u8> {
    accounts_header() + acc_rows(s)
}

/// The whole exported transaction CSV.
pub open spec fn txs_csv(s: Seq<Transaction>) -> Seq<u8> {
    txs_header() + tx_rows(s)
}

/// Reads one line of an account CSV: `client,available,held,total,locked`.
pub open spec fn decode_account_row(line: Seq<u8>) -> Option<Account> {
    let fs = split_fields(line);
    if fs.len() != 5 {
        None
    } else {
        match parse_u64_spec(trim_spec(fs[0])) {
            Some(cv) => {
                if cv > u16::MAX {
                    None
                } else {
                    match (
                        parse_amount_spec(trim_spec(fs[1])),
                        parse_amount_spec(trim_spec(fs[2])),
                        parse_amount_spec(trim_spec(fs[3])),
                        parse_bool_spec(trim_spec(fs[4])),
                    ) {
                        (Some(av), Some(hv), Some(tv), Some(lv)) => Some(
                            Account {
                                client: cv as u16,
                                available: av,
                                held: hv,
                                total: tv,
                                locked: lv,
                            },
                        ),
                        _ => None,
                    }
                }
            }
            None => None,
        }
    }
}

/// Reads one line of a transaction CSV: `type,client,tx,amount,status`,
/// where the type must be `deposit` or `withdrawal`.
pub open spec fn decode_tx_row(line: Seq<u8>) -> Option<Transaction> {
    let fs = split_fields(line);
    if fs.len() != 5 {
        None
    } else {
        let w = trim_spec(fs[0]);
        let kind = if w == deposit_word() {
            Some(TxKind::Deposit)
        } else if w == withdrawal_word() {
            Some(TxKind::Withdrawal)
        } else {
            None
        };
        match kind {
            Some(k) => match (parse_u64_spec(trim_spec(fs[1])), parse_u64_spec(trim_spec(fs[2]))) {
                (Some(cv), Some(tv)) => {
                    if cv > u16::MAX || tv > u32::MAX {
                        None
                    } else {
                        match (
                            parse_amount_spec(trim_spec(fs[3])),
                            parse_status_spec(trim_spec(fs[4])),
                        ) {
                            (Some(av), Some(sv)) => Some(
                                Transaction {
                                    kind: k,
                                    client: cv as u16,
                                    tx: tv as u32,
                                    amount: av,
                                    status: sv,
                                },
                            ),
                            _ => None,
                        }
                    }
                }
                _ => None,
            },
            None => None,
        }
    }
}

// ---------------------------------------------------------------------
// Round trips: a written row reads back as the same value

/// Bytes that never collide with CSV structure: no separator, no
/// newline, no whitespace.
pub open spec fn csv_clean(s: Seq<u8>) -> bool {
    forall|j: int|
        0 <= j < s.len() ==> s[j] != 44 && s[j] != 10 && !is_ws(#[trigger] s[j])
}

pub proof fn lemma_clean_concat(a: Seq<u8>, b: Seq<u8>)
    requires
        csv_clean(a),
        csv_clean(b),
    ensures
        csv_clean(a + b),
{
    assert forall|j: int| 0 <= j < (a + b).len() implies (a + b)[j] != 44 && (a + b)[j] != 10
        && !is_ws((a + b)[j]) by {
        if j < a.len() {
            assert((a + b)[j] == a[j]);
        } else {
            assert((a + b)[j] == b[j - a.len()]);
        }
    }
}

pub proof fn lemma_digits_clean(s: Seq<u8>)
    requires
        all_digits(s),
    ensures
        csv_clean(s),
{
    assert forall|j: int| 0 <= j < s.len() implies s[j] != 44 && s[j] != 10 && !is_ws(s[j]) by {
        assert(is_digit(s[j]));
    }
}

pub proof fn lemma_u64_digits_clean(n: int)
    requires
        0 <= n <= u64::MAX,
    ensures
        csv_clean(u64_digits(n)),
        u64_digits(n).len() >= 1,
{
    lemma_u64_digits_props(n);
    lemma_digits_clean(u64_digits(n));
}

pub proof fn lemma_amount_clean(a: i64)
    ensures
        csv_clean(amount_bytes(a as int)),
        amount_bytes(a as int).len() >= 1,
{
    let mag = if a < 0 {
        -(a as int)
    } else {
        a as int
    };
    lemma_u64_digits_clean(mag / 10000);
    crate::amount::lemma_frac_round(mag % 10000);
    lemma_digits_clean(crate::amount::frac_bytes(mag % 10000));
    assert(csv_clean(seq![46u8]));
    assert(csv_clean(seq![45u8]));
    lemma_clean_concat(u64_digits(mag / 10000), seq![46u8]);
    lemma_clean_concat(
        u64_digits(mag / 10000) + seq![46u8],
        crate::amount::frac_bytes(mag % 10000),
    );
    if a < 0 {
        lemma_clean_concat(
            seq![45u8],
            u64_digits(mag / 10000) + seq![46u8] + crate::amount::frac_bytes(mag % 10000),
        );
        assert(amount_bytes(a as int) =~= seq![45u8] + (u64_digits(mag / 10000) + seq![46u8]
            + crate::amount::frac_bytes(mag % 10000)));
    }
}

pub proof fn lemma_status_clean(x: i8)
    ensures
        csv_clean(status_bytes(x as int)),
        status_bytes(x as int).len() >= 1,
{
    if x < 0 {
        lemma_u64_digits_clean(-(x as int));
        lemma_clean_concat(seq![45u8], u64_digits(-(x as int)));
    } else {
        lemma_u64_digits_clean(x as int);
    }
}

pub proof fn lemma_words_clean()
    ensures
        csv_clean(deposit_word()),
        csv_clean(withdrawal_word()),
        csv_clean(true_word()),
        csv_clean(false_word()),
{
}

/// A field without surrounding whitespace trims to itself.
pub proof fn lemma_trim_id(s: Seq<u8>)
    requires
        forall|j: int| 0 <= j < s.len() ==> !is_ws(#[trigger] s[j]),
    ensures
        trim_spec(s) == s,
{
}

/// Splitting peels one comma-free field off the front.
pub proof fn lemma_split_field_prefix(a: Seq<u8>, rest: Seq<u8>)
    requires
        forall|j: int| 0 <= j < a.len() ==> a[j] != 44,
    ensures
        split_fields(a + seq![44u8] + rest) == seq![a] + split_fields(rest),
{
    let s = a + seq![44u8] + rest;
    assert(s[a.len() as int] == 44);
    assert(forall|j: int| 0 <= j < a.len() ==> s[j] == a[j]);
    lemma_first_idx_at(s, 44, a.len() as int);
    assert(s.take(a.len() as int) =~= a);
    assert(s.skip(a.len() as int + 1) =~= rest);
    assert(split_fields(s) =~= seq![a] + split_fields(rest));
}

/// A comma-free run is one whole field.
pub proof fn lemma_split_field_single(a: Seq<u8>)
    requires
        forall|j: int| 0 <= j < a.len() ==> a[j] != 44,
    ensures
        split_fields(a) == seq![a],
{
    crate::scan::lemma_first_idx_none(a, 44);
}

/// Splitting peels one newline-terminated line off the front.
pub proof fn lemma_split_line_prefix(a: Seq<u8>, rest: Seq<u8>)
    requires
        forall|j: int| 0 <= j < a.len() ==> a[j] != 10,
    ensures
        split_lines(a + seq![10u8] + rest) == seq![a] + split_lines(rest),
{
    let s = a + seq![10u8] + rest;
    assert(s[a.len() as int] == 10);
    assert(forall|j: int| 0 <= j < a.len() ==> s[j] == a[j]);
    lemma_first_idx_at(s, 10, a.len() as int);
    assert(s.take(a.len() as int) =~= a);
    assert(s.skip(a.len() as int + 1) =~= rest);
    assert(split_lines(s) =~= seq![a] + split_lines(rest));
}

/// Reading back the signed decimal text of a status gives the status.
pub proof fn lemma_status_round_trip(x: i8)
    ensures
        parse_status_spec(status_bytes(x as int)) == Some(x),
{
    if x < 0 {
        let d = u64_digits(-(x as int));
        lemma_u64_digits_props(-(x as int));
        let s = seq![45u8] + d;
        assert(s[0] == 45);
        assert(s.skip(1) =~= d);
        assert(split_sign(s).0 == true);
        assert(split_sign(s).1 == d);
    } else {
        lemma_u64_digits_props(x as int);
        let d = u64_digits(x as int);
        assert(is_digit(d[0]));
        assert(split_sign(d).1 == d);
    }
}

/// An exported account row reads back as the same account.
#[verifier::rlimit(50)]
pub proof fn lemma_account_row_round_trip(a: Account)
    ensures
        decode_account_row(account_row_line(a)) == Some(a),
{
    let f0 = u64_digits(a.client as int);
    let f1 = amount_bytes(a.available as int);
    let f2 = amount_bytes(a.held as int);
    let f3 = amount_bytes(a.total as int);
    let f4 = bool_bytes(a.locked);
    lemma_u64_digits_clean(a.client as int);
    lemma_amount_clean(a.available);
    lemma_amount_clean(a.held);
    lemma_amount_clean(a.total);
    lemma_words_clean();
    let line = account_row_line(a);
    let r1 = f1 + seq![44u8] + (f2 + seq![44u8] + (f3 + seq![44u8] + f4));
    let r2 = f2 + seq![44u8] + (f3 + seq![44u8] + f4);
    let r3 = f3 + seq![44u8] + f4;
    assert(line =~= f0 + seq![44u8] + r1);
    lemma_split_field_prefix(f0, r1);
    lemma_split_field_prefix(f1, r2);
    lemma_split_field_prefix(f2, r3);
    lemma_split_field_prefix(f3, f4);
    lemma_split_field_single(f4);
    let fs = split_fields(line);
    assert(fs =~= seq![f0, f1, f2, f3, f4]);
    lemma_trim_id(f0);
    lemma_trim_id(f1);
    lemma_trim_id(f2);
    lemma_trim_id(f3);
    lemma_trim_id(f4);
    lemma_u64_digits_props(a.client as int);
    assert(parse_u64_spec(f0) == Some(a.client as u64));
    lemma_amount_round_trip(a.available);
    lemma_amount_round_trip(a.held);
    lemma_amount_round_trip(a.total);
    assert(parse_bool_spec(f4) == Some(a.locked));
}

/// An exported transaction row reads back as the same transaction.
pub proof fn lemma_tx_row_round_trip(t: Transaction)
    ensures
        decode_tx_row(tx_row_line(t)) == Some(t),
{
    let f0 = tx_kind_word(t.kind);
    let f1 = u64_digits(t.client as int);
    let f2 = u64_digits(t.tx as int);
    let f3 = amount_bytes(t.amount as int);
    let f4 = status_bytes(t.status as int);
    lemma_words_clean();
    lemma_u64_digits_clean(t.client as int);
    lemma_u64_digits_clean(t.tx as int);
    lemma_amount_clean(t.amount);
    lemma_status_clean(t.status);
    let line = tx_row_line(t);
    let r1 = f1 + seq![44u8] + (f2 + seq![44u8] + (f3 + seq![44u8] + f4));
    let r2 = f2 + seq![44u8] + (f3 + seq![44u8] + f4);
    let r3 = f3 + seq![44u8] + f4;
    assert(line =~= f0 + seq![44u8] + r1);
    lemma_split_field_prefix(f0, r1);
    lemma_split_field_prefix(f1, r2);
    lemma_split_field_prefix(f2, r3);
    lemma_split_field_prefix(f3, f4);
    lemma_split_field_single(f4);
    let fs = split_fields(line);
    assert(fs =~= seq![f0, f1, f2, f3, f4]);
    lemma_trim_id(f0);
    lemma_trim_id(f1);
    lemma_trim_id(f2);
    lemma_trim_id(f3);
    lemma_trim_id(f4);
    lemma_u64_digits_props(t.client as int);
    lemma_u64_digits_props(t.tx as int);
    lemma_amount_round_trip(t.amount);
    lemma_status_round_trip(t.status);
}

/// A row's text holds no newline, so it is one line of the export.
pub proof fn lemma_account_row_line_clean(a: Account)
    ensures
        forall|j: int| 0 <= j < account_row_line(a).len() ==> account_row_line(a)[j] != 10,
        account_row_line(a).len() >= 1,
{
    let f0 = u64_digits(a.client as int);
    lemma_u64_digits_clean(a.client as int);
    lemma_amount_clean(a.available);
    lemma_amount_clean(a.held);
    lemma_amount_clean(a.total);
    lemma_words_clean();
    assert forall|j: int| 0 <= j < account_row_line(a).len() implies account_row_line(a)[j]
        != 10 by {
        let line = account_row_line(a);
        let f1 = amount_bytes(a.available as int);
        let f2 = amount_bytes(a.held as int);
        let f3 = amount_bytes(a.total as int);
        let f4 = bool_bytes(a.locked);
        assert(line =~= f0 + seq![44u8] + f1 + seq![44u8] + f2 + seq![44u8] + f3 + seq![44u8]
            + f4);
    }
}

pub proof fn lemma_tx_row_line_clean(t: Transaction)
    ensures
        forall|j: int| 0 <= j < tx_row_line(t).len() ==> tx_row_line(t)[j] != 10,
        tx_row_line(t).len() >= 1,
{
    lemma_words_clean();
    lemma_u64_digits_clean(t.client as int);
    lemma_u64_digits_clean(t.tx as int);
    lemma_amount_clean(t.amount);
    lemma_status_clean(t.status);
    assert forall|j: int| 0 <= j < tx_row_line(t).len() implies tx_row_line(t)[j] != 10 by {
        let line = tx_row_line(t);
        let f0 = tx_kind_word(t.kind);
        let f1 = u64_digits(t.client as int);
        let f2 = u64_digits(t.tx as int);
        let f3 = amount_bytes(t.amount as int);
        let f4 = status_bytes(t.status as int);
        assert(line =~= f0 + seq![44u8] + f1 + seq![44u8] + f2 + seq![44u8] + f3 + seq![44u8]
            + f4);
    }
}

/// The lines of an exported account row block, in order.
pub open spec fn acc_row_lines(s: Seq<Account>) -> Seq<Seq<u8>> {
    s.map_values(|a: Account| account_row_line(a))
}

/// The lines of an exported transaction row block, in order.
pub open spec fn tx_row_lines(s: Seq<Transaction>) -> Seq<Seq<u8>> {
    s.map_values(|t: Transaction| tx_row_line(t))
}

pub proof fn lemma_acc_rows_lines(s: Seq<Account>)
    ensures
        split_lines(acc_rows(s)) == acc_row_lines(s),
    decreases s.len(),
{
    if s.len() == 0 {
        assert(split_lines(acc_rows(s)) =~= acc_row_lines(s));
    } else {
        lemma_acc_rows_lines(s.skip(1));
        lemma_account_row_line_clean(s[0]);
        lemma_split_line_prefix(account_row_line(s[0]), acc_rows(s.skip(1)));
        assert(acc_rows(s) =~= account_row_line(s[0]) + seq![10u8] + acc_rows(s.skip(1)));
        assert(acc_row_lines(s) =~= seq![account_row_line(s[0])] + acc_row_lines(s.skip(1)));
    }
}

pub proof fn lemma_tx_rows_lines(s: Seq<Transaction>)
    ensures
        split_lines(tx_rows(s)) == tx_row_lines(s),
    decreases s.len(),
{
    if s.len() == 0 {
        assert(split_lines(tx_rows(s)) =~= tx_row_lines(s));
    } else {
        lemma_tx_rows_lines(s.skip(1));
        lemma_tx_row_line_clean(s[0]);
        lemma_split_line_prefix(tx_row_line(s[0]), tx_rows(s.skip(1)));
        assert(tx_rows(s) =~= tx_row_line(s[0]) + seq![10u8] + tx_rows(s.skip(1)));
        assert(tx_row_lines(s) =~= seq![tx_row_line(s[0])] + tx_row_lines(s.skip(1)));
    }
}

/// The lines of a whole account export: the header, then one line per
/// account in ledger order.
pub proof fn lemma_accounts_csv_lines(s: Seq<Account>)
    ensures
        split_lines(accounts_csv(s)) == seq![accounts_header_line()] + acc_row_lines(s),
{
    assert(forall|j: int|
        0 <= j < accounts_header_line().len() ==> accounts_header_line()[j] != 10);
    lemma_split_line_prefix(accounts_header_line(), acc_rows(s));
    assert(accounts_csv(s) =~= accounts_header_line() + seq![10u8] + acc_rows(s));
    lemma_acc_rows_lines(s);
}

/// The lines of a whole transaction export.
pub proof fn lemma_txs_csv_lines(s: Seq<Transaction>)
    ensures
        split_lines(txs_csv(s)) == seq![txs_header_line()] + tx_row_lines(s),
{
    assert(forall|j: int| 0 <= j < txs_header_line().len() ==> txs_header_line()[j] != 10);
    lemma_split_line_prefix(txs_header_line(), tx_rows(s));
    assert(txs_csv(s) =~= txs_header_line() + seq![10u8] + tx_rows(s));
    lemma_tx_rows_lines(s);
}

// ---------------------------------------------------------------------
// Import folds over lines

/// The account ledger after reading the given lines: each parsed row is
/// stored under its client id; blank and malformed lines are skipped.
pub open spec fn import_accounts_fold(led: Seq<Account>, lines: Seq<Seq<u8>>) -> Seq<Account>
    decreases lines.len(),
{
    if lines.len() == 0 {
        led
    } else {
        let prev = import_accounts_fold(led, lines.drop_last());
        match decode_account_row(lines.last()) {
            Some(a) => crate::ledger::acc_put(prev, a),
            None => prev,
        }
    }
}

/// How many of the given lines parse as account rows.
pub open spec fn import_accounts_count(lines: Seq<Seq<u8>>) -> int
    decreases lines.len(),
{
    if lines.len() == 0 {
        0
    } else {
        import_accounts_count(lines.drop_last()) + (if decode_account_row(lines.last()) is Some {
            1int
        } else {
            0int
        })
    }
}

/// The transaction ledger after reading the given lines.
pub open spec fn import_txs_fold(led: Seq<Transaction>, lines: Seq<Seq<u8>>) -> Seq<Transaction>
    decreases lines.len(),
{
    if lines.len() == 0 {
        led
    } else {
        let prev = import_txs_fold(led, lines.drop_last());
        match decode_tx_row(lines.last()) {
            Some(t) => crate::ledger::tx_put(prev, t),
            None => prev,
        }
    }
}

/// How many of the given lines parse as transaction rows.
pub open spec fn import_txs_count(lines: Seq<Seq<u8>>) -> int
    decreases lines.len(),
{
    if lines.len() == 0 {
        0
    } else {
        import_txs_count(lines.drop_last()) + (if decode_tx_row(lines.last()) is Some {
            1int
        } else {
            0int
        })
    }
}

/// The 1-based numbers of the non-blank lines that fail to parse as
/// transaction rows; `first` numbers the first given line.
pub open spec fn import_txs_errors(lines: Seq<Seq<u8>>, first: int) -> Seq<u32>
    decreases lines.len(),
{
    if lines.len() == 0 {
        Seq::<u32>::empty()
    } else {
        let prev = import_txs_errors(lines.drop_last(), first);
        let line = lines.last();
        if line.len() > 0 && decode_tx_row(line) is None {
            prev.push(((first + lines.len() - 1) as int) as u32)
        } else {
            prev
        }
    }
}

/// Re-importing an exported account CSV reproduces the ledger exactly:
/// the export's first line is its header, and reading the remaining
/// lines into an empty ledger gives back every account unchanged, in
/// order.
pub proof fn lemma_accounts_export_import(s: Seq<Account>)
    requires
        unique_clients(s),
    ensures
        split_lines(accounts_csv(s)) == seq![accounts_header_line()] + acc_row_lines(s),
        import_accounts_fold(Seq::<Account>::empty(), acc_row_lines(s)) == s,
{
    lemma_accounts_csv_lines(s);
    lemma_import_acc_rows_exact(s);
}

proof fn lemma_import_acc_rows_exact(s: Seq<Account>)
    requires
        unique_clients(s),
    ensures
        import_accounts_fold(Seq::<Account>::empty(), acc_row_lines(s)) == s,
    decreases s.len(),
{
    if s.len() == 0 {
        assert(acc_row_lines(s) =~= Seq::<Seq<u8>>::empty());
        assert(import_accounts_fold(Seq::<Account>::empty(), acc_row_lines(s)) =~= s);
    } else {
        let pre = s.drop_last();
        let a = s.last();
        assert(unique_clients(pre));
        lemma_import_acc_rows_exact(pre);
        assert(acc_row_lines(s).drop_last() =~= acc_row_lines(pre));
        assert(acc_row_lines(s).last() == account_row_line(a));
        lemma_account_row_round_trip(a);
        assert(forall|j: int| 0 <= j < pre.len() ==> pre[j].client != a.client);
        crate::ledger::lemma_acc_idx_none(pre, a.client);
        assert(crate::ledger::acc_put(pre, a) =~= s);
    }
}

/// Re-importing an exported transaction CSV reproduces the ledger
/// exactly, in the same way.
pub proof fn lemma_txs_export_import(s: Seq<Transaction>)
    requires
        crate::ledger::unique_txs(s),
    ensures
        split_lines(txs_csv(s)) == seq![txs_header_line()] + tx_row_lines(s),
        import_txs_fold(Seq::<Transaction>::empty(), tx_row_lines(s)) == s,
{
    lemma_txs_csv_lines(s);
    lemma_import_tx_rows_exact(s);
}

proof fn lemma_import_tx_rows_exact(s: Seq<Transaction>)
    requires
        crate::ledger::unique_txs(s),
    ensures
        import_txs_fold(Seq::<Transaction>::empty(), tx_row_lines(s)) == s,
    decreases s.len(),
{
    if s.len() == 0 {
        assert(tx_row_lines(s) =~= Seq::<Seq<u8>>::empty());
        assert(import_txs_fold(Seq::<Transaction>::empty(), tx_row_lines(s)) =~= s);
    } else {
        let pre = s.drop_last();
        let t = s.last();
        assert(crate::ledger::unique_txs(pre));
        lemma_import_tx_rows_exact(pre);
        assert(tx_row_lines(s).drop_last() =~= tx_row_lines(pre));
        assert(tx_row_lines(s).last() == tx_row_line(t));
        lemma_tx_row_round_trip(t);
        assert(forall|j: int| 0 <= j < pre.len() ==> pre[j].tx != t.tx);
        crate::ledger::lemma_tx_idx_none(pre, t.tx);
        assert(crate::ledger::tx_put(pre, t) =~= s);
    }
}

// ---------------------------------------------------------------------
// Executable formatting

/// Appends the digits of `x`.
fn push_u64(v: &mut Vec<u8>, x: u64)
    ensures
        final(v)@ == old(v)@ + u64_digits(x as int),
{
    let mut d = format_u64(x);
    v.append(&mut d);
}

/// Appends the canonical text of a scaled amount.
fn push_amount(v: &mut Vec<u8>, a: i64)
    ensures
        final(v)@ == old(v)@ + amount_bytes(a as int),
{
    let mut d = format_amount(a);
    v.append(&mut d);
}

/// Appends `true` or `false`.
fn push_bool(v: &mut Vec<u8>, b: bool)
    ensures
        final(v)@ == old(v)@ + bool_bytes(b),
{
    let ghost v0 = v@;
    if b {
        v.push(116);
        v.push(114);
        v.push(117);
        v.push(101);
        proof {
            assert(v@ =~= v0 + true_word());
        }
    } else {
        v.push(102);
        v.push(97);
        v.push(108);
        v.push(115);
        v.push(101);
        proof {
            assert(v@ =~= v0 + false_word());
        }
    }
}

/// Appends a status value as signed decimal text.
fn push_status(v: &mut Vec<u8>, x: i8)
    ensures
        final(v)@ == old(v)@ + status_bytes(x as int),
{
    let ghost v0 = v@;
    if x < 0 {
        v.push(45);
        let mag: u64 = if x == -128 {
            128
        } else {
            (-(x as i64)) as u64
        };
        push_u64(v, mag);
        proof {
            assert(v@ =~= v0 + (seq![45u8] + u64_digits(mag as int)));
        }
    } else {
        push_u64(v, x as u64);
    }
}

/// Appends one exported account row, newline included.
pub fn push_account_row(v: &mut Vec<u8>, a: &Account)
    ensures
        final(v)@ == old(v)@ + account_row(*a),
{
    let ghost v0 = v@;
    push_u64(v, a.client as u64);
    v.push(44);
    push_amount(v, a.available);
    v.push(44);
    push_amount(v, a.held);
    v.push(44);
    push_amount(v, a.total);
    v.push(44);
    push_bool(v, a.locked);
    v.push(10);
    proof {
        assert(v@ =~= v0 + account_row(*a));
    }
}

/// Appends the word of a stored transaction kind.
fn push_tx_kind(v: &mut Vec<u8>, k: TxKind)
    ensures
        final(v)@ == old(v)@ + tx_kind_word(k),
{
    let ghost v0 = v@;
    match k {
        TxKind::Deposit => {
            v.push(100);
            v.push(101);
            v.push(112);
            v.push(111);
            v.push(115);
            v.push(105);
            v.push(116);
            proof {
                assert(v@ =~= v0 + deposit_word());
            }
        }
        TxKind::Withdrawal => {
            v.push(119);
            v.push(105);
            v.push(116);
            v.push(104);
            v.push(100);
            v.push(114);
            v.push(97);
            v.push(119);
            v.push(97);
            v.push(108);
            proof {
                assert(v@ =~= v0 + withdrawal_word());
            }
        }
    }
}

/// Appends one exported transaction row, newline included.
pub fn push_tx_row(v: &mut Vec<u8>, t: &Transaction)
    ensures
        final(v)@ == old(v)@ + tx_row(*t),
{
    let ghost v0 = v@;
    push_tx_kind(v, t.kind);
    v.push(44);
    push_u64(v, t.client as u64);
    v.push(44);
    push_u64(v, t.tx as u64);
    v.push(44);
    push_amount(v, t.amount);
    v.push(44);
    push_status(v, t.status);
    v.push(10);
    proof {
        assert(v@ =~= v0 + tx_row(*t));
    }
}

/// Appends the accounts header row, newline included.
pub fn push_accounts_header(v: &mut Vec<u8>)
    ensures
        final(v)@ == old(v)@ + accounts_header(),
{
    let ghost v0 = v@;
    v.push(99);
    v.push(108);
    v.push(105);
    v.push(101);
    v.push(110);
    v.push(116);
    v.push(44);
    v.push(97);
    v.push(118);
    v.push(97);
    v.push(105);
    v.push(108);
    v.push(97);
    v.push(98);
    v.push(108);
    v.push(101);
    v.push(44);
    v.push(104);
    v.push(101);
    v.push(108);
    v.push(100);
    v.push(44);
    v.push(116);
    v.push(111);
    v.push(116);
    v.push(97);
    v.push(108);
    v.push(44);
    v.push(108);
    v.push(111);
    v.push(99);
    v.push(107);
    v.push(101);
    v.push(100);
    v.push(10);
    proof {
        assert(v@ =~= v0 + accounts_header());
    }
}

/// Appends the transactions header row, newline included.
pub fn push_txs_header(v: &mut Vec<u8>)
    ensures
        final(v)@ == old(v)@ + txs_header(),
{
    let ghost v0 = v@;
    v.push(116);
    v.push(121);
    v.push(112);
    v.push(101);
    v.push(44);
    v.push(99);
    v.push(108);
    v.push(105);
    v.push(101);
    v.push(110);
    v.push(116);
    v.push(44);
    v.push(116);
    v.push(120);
    v.push(44);
    v.push(97);
    v.push(109);
    v.push(111);
    v.push(117);
    v.push(110);
    v.push(116);
    v.push(44);
    v.push(115);
    v.push(116);
    v.push(97);
    v.push(116);
    v.push(117);
    v.push(115);
    v.push(10);
    proof {
        assert(v@ =~= v0 + txs_header());
    }
}

// ---------------------------------------------------------------------
// The exports are plain ASCII, so they convert to text losslessly

/// Every byte is ASCII.
pub open spec fn all_ascii(s: Seq<u8>) -> bool {
    forall|j: int| 0 <= j < s.len() ==> s[j] < 128
}

/// The characters the ASCII bytes of `s` spell.
pub open spec fn ascii_chars(s: Seq<u8>) -> Seq<char> {
    s.map_values(|b: u8| b as char)
}

pub proof fn lemma_ascii_concat(a: Seq<u8>, b: Seq<u8>)
    requires
        all_ascii(a),
        all_ascii(b),
    ensures
        all_ascii(a + b),
{
    assert forall|j: int| 0 <= j < (a + b).len() implies (a + b)[j] < 128 by {
        if j < a.len() {
            assert((a + b)[j] == a[j]);
        } else {
            assert((a + b)[j] == b[j - a.len()]);
        }
    }
}

pub proof fn lemma_digits_ascii(s: Seq<u8>)
    requires
        all_digits(s),
    ensures
        all_ascii(s),
{
    assert forall|j: int| 0 <= j < s.len() implies s[j] < 128 by {
        assert(is_digit(s[j]));
    }
}

pub proof fn lemma_amount_ascii(a: i64)
    ensures
        all_ascii(amount_bytes(a as int)),
{
    let mag = if a < 0 {
        -(a as int)
    } else {
        a as int
    };
    lemma_u64_digits_props(mag / 10000);
    lemma_digits_ascii(u64_digits(mag / 10000));
    crate::amount::lemma_frac_round(mag % 10000);
    lemma_digits_ascii(crate::amount::frac_bytes(mag % 10000));
    lemma_ascii_concat(u64_digits(mag / 10000), seq![46u8]);
    lemma_ascii_concat(
        u64_digits(mag / 10000) + seq![46u8],
        crate::amount::frac_bytes(mag % 10000),
    );
    if a < 0 {
        lemma_ascii_concat(
            seq![45u8],
            u64_digits(mag / 10000) + seq![46u8] + crate::amount::frac_bytes(mag % 10000),
        );
        assert(amount_bytes(a as int) =~= seq![45u8] + (u64_digits(mag / 10000) + seq![46u8]
            + crate::amount::frac_bytes(mag % 10000)));
    }
}

pub proof fn lemma_status_ascii(x: i8)
    ensures
        all_ascii(status_bytes(x as int)),
{
    if x < 0 {
        lemma_u64_digits_props(-(x as int));
        lemma_digits_ascii(u64_digits(-(x as int)));
        lemma_ascii_concat(seq![45u8], u64_digits(-(x as int)));
    } else {
        lemma_u64_digits_props(x as int);
        lemma_digits_ascii(u64_digits(x as int));
    }
}

pub proof fn lemma_account_row_ascii(a: Account)
    ensures
        all_ascii(account_row(a)),
{
    lemma_u64_digits_props(a.client as int);
    lemma_digits_ascii(u64_digits(a.client as int));
    lemma_amount_ascii(a.available);
    lemma_amount_ascii(a.held);
    lemma_amount_ascii(a.total);
    assert forall|j: int| 0 <= j < account_row(a).len() implies account_row(a)[j] < 128 by {
        let f0 = u64_digits(a.client as int);
        let f1 = amount_bytes(a.available as int);
        let f2 = amount_bytes(a.held as int);
        let f3 = amount_bytes(a.total as int);
        let f4 = bool_bytes(a.locked);
        assert(account_row(a) =~= f0 + seq![44u8] + f1 + seq![44u8] + f2 + seq![44u8] + f3 + seq![
            44u8,
        ] + f4 + seq![10u8]);
    }
}

pub proof fn lemma_tx_row_ascii(t: Transaction)
    ensures
        all_ascii(tx_row(t)),
{
    lemma_u64_digits_props(t.client as int);
    lemma_digits_ascii(u64_digits(t.client as int));
    lemma_u64_digits_props(t.tx as int);
    lemma_digits_ascii(u64_digits(t.tx as int));
    lemma_amount_ascii(t.amount);
    lemma_status_ascii(t.status);
    assert forall|j: int| 0 <= j < tx_row(t).len() implies tx_row(t)[j] < 128 by {
        let f0 = tx_kind_word(t.kind);
        let f1 = u64_digits(t.client as int);
        let f2 = u64_digits(t.tx as int);
        let f3 = amount_bytes(t.amount as int);
        let f4 = status_bytes(t.status as int);
        assert(tx_row(t) =~= f0 + seq![44u8] + f1 + seq![44u8] + f2 + seq![44u8] + f3 + seq![44u8]
            + f4 + seq![10u8]);
    }
}

pub proof fn lemma_acc_rows_ascii(s: Seq<Account>)
    ensures
        all_ascii(acc_rows(s)),
    decreases s.len(),
{
    if s.len() > 0 {
        lemma_acc_rows_ascii(s.skip(1));
        lemma_account_row_ascii(s[0]);
        lemma_ascii_concat(account_row(s[0]), acc_rows(s.skip(1)));
    }
}

pub proof fn lemma_tx_rows_ascii(s: Seq<Transaction>)
    ensures
        all_ascii(tx_rows(s)),
    decreases s.len(),
{
    if s.len() > 0 {
        lemma_tx_rows_ascii(s.skip(1));
        lemma_tx_row_ascii(s[0]);
        lemma_ascii_concat(tx_row(s[0]), tx_rows(s.skip(1)));
    }
}

pub proof fn lemma_accounts_csv_ascii(s: Seq<Account>)
    ensures
        all_ascii(accounts_csv(s)),
{
    lemma_acc_rows_ascii(s);
    lemma_ascii_concat(accounts_header(), acc_rows(s));
}

pub proof fn lemma_txs_csv_ascii(s: Seq<Transaction>)
    ensures
        all_ascii(txs_csv(s)),
{
    lemma_tx_rows_ascii(s);
    lemma_ascii_concat(txs_header(), tx_rows(s));
}

/// Appending one more entry's row at the end of a row block.
#[verifier::rlimit(100)]
pub proof fn lemma_acc_rows_snoc(s: Seq<Account>, a: Account)
    ensures
        acc_rows(s.push(a)) == acc_rows(s) + account_row(a),
    decreases s.len(),
{
    if s.len() == 0 {
        assert(s.push(a).skip(1) =~= Seq::<Account>::empty());
        assert(s.push(a)[0] == a);
        assert(acc_rows(s.push(a)) == account_row(a) + acc_rows(Seq::<Account>::empty()));
        assert(account_row(a) + Seq::<u8>::empty() =~= Seq::<u8>::empty() + account_row(a));
        assert(acc_rows(s) =~= Seq::<u8>::empty());
    } else {
        assert(s.push(a).skip(1) =~= s.skip(1).push(a));
        assert(s.push(a)[0] == s[0]);
        lemma_acc_rows_snoc(s.skip(1), a);
        assert(acc_rows(s.push(a)) == account_row(s[0]) + (acc_rows(s.skip(1)) + account_row(a)));
        vstd::seq_lib::lemma_concat_associative(account_row(s[0]), acc_rows(s.skip(1)), account_row(a));
    }
}

#[verifier::rlimit(100)]
pub proof fn lemma_tx_rows_snoc(s: Seq<Transaction>, t: Transaction)
    ensures
        tx_rows(s.push(t)) == tx_rows(s) + tx_row(t),
    decreases s.len(),
{
    if s.len() == 0 {
        assert(s.push(t).skip(1) =~= Seq::<Transaction>::empty());
        assert(s.push(t)[0] == t);
        assert(tx_rows(s.push(t)) == tx_row(t) + tx_rows(Seq::<Transaction>::empty()));
        assert(tx_row(t) + Seq::<u8>::empty() =~= Seq::<u8>::empty() + tx_row(t));
        assert(tx_rows(s) =~= Seq::<u8>::empty());
    } else {
        assert(s.push(t).skip(1) =~= s.skip(1).push(t));
        assert(s.push(t)[0] == s[0]);
        lemma_tx_rows_snoc(s.skip(1), t);
        assert(tx_rows(s.push(t)) == tx_row(s[0]) + (tx_rows(s.skip(1)) + tx_row(t)));
        vstd::seq_lib::lemma_concat_associative(tx_row(s[0]), tx_rows(s.skip(1)), tx_row(t));
    }
}

/// Relies on String::from_utf8: ASCII bytes are valid UTF-8 and decode
/// to the characters with the same code points, so the returned text
/// spells exactly the given bytes. (A non-ASCII byte run would come
/// back as empty text; the exports never produce one.)
#[verifier::external_body]
pub fn bytes_to_string(v: Vec<u8>) -> (r: String)
    ensures
        all_ascii(v@) ==> r@ == ascii_chars(v@),
{
    match String::from_utf8(v) {
        Ok(s) => s,
        Err(_) => String::new(),
    }
}

// ---------------------------------------------------------------------
// Executable parsing

/// Reads a `true`/`false` word in `s[lo..hi)`.
fn parse_bool_range(s: &[u8], lo: usize, hi: usize) -> (r: Option<bool>)
    requires
        lo <= hi <= s@.len(),
    ensures
        r == parse_bool_spec(s@.subrange(lo as int, hi as int)),
{
    let ghost w = s@.subrange(lo as int, hi as int);
    let n = hi - lo;
    if n == 4 && s[lo] == 116 && s[lo + 1] == 114 && s[lo + 2] == 117 && s[lo + 3] == 101 {
        proof {
            assert(w =~= true_word());
        }
        return Some(true);
    }
    if n == 5 && s[lo] == 102 && s[lo + 1] == 97 && s[lo + 2] == 108 && s[lo + 3] == 115 && s[lo
        + 4] == 101 {
        proof {
            assert(w =~= false_word());
        }
        return Some(false);
    }
    proof {
        assert(w.len() == hi - lo);
        assert(forall|j: int| 0 <= j < w.len() ==> w[j] == s@[lo + j]);
    }
    None
}

/// Reads a signed status value in `s[lo..hi)`.
fn parse_status_range(s: &[u8], lo: usize, hi: usize) -> (r: Option<i8>)
    requires
        lo <= hi <= s@.len(),
    ensures
        r == parse_status_spec(s@.subrange(lo as int, hi as int)),
{
    let ghost w = s@.subrange(lo as int, hi as int);
    let neg: bool;
    let start: usize;
    if lo < hi && s[lo] == 45 {
        neg = true;
        start = lo + 1;
    } else {
        neg = false;
        start = lo;
    }
    proof {
        assert(split_sign(w).0 == neg);
        assert(split_sign(w).1 =~= s@.subrange(start as int, hi as int));
    }
    match parse_u64(slice_subrange(s, start, hi)) {
        Some(v) => {
            if neg {
                if v <= 127 {
                    Some(-(v as i8))
                } else if v == 128 {
                    Some(i8::MIN)
                } else {
                    None
                }
            } else {
                if v <= 127 {
                    Some(v as i8)
                } else {
                    None
                }
            }
        }
        None => None,
    }
}

/// Reads one line of an account CSV.
pub fn parse_account_row(line: &[u8]) -> (r: Option<Account>)
    ensures
        r == decode_account_row(line@),
{
    let ranges = split_fields_ranges(line);
    let ghost fs = split_fields(line@);
    if ranges.len() != 5 {
        return None;
    }
    let f0 = ranges[0];
    let f1 = ranges[1];
    let f2 = ranges[2];
    let f3 = ranges[3];
    let f4 = ranges[4];
    proof {
        assert(fs[0] == line@.subrange(f0.0 as int, f0.1 as int));
        assert(fs[1] == line@.subrange(f1.0 as int, f1.1 as int));
        assert(fs[2] == line@.subrange(f2.0 as int, f2.1 as int));
        assert(fs[3] == line@.subrange(f3.0 as int, f3.1 as int));
        assert(fs[4] == line@.subrange(f4.0 as int, f4.1 as int));
    }
    let cr = trim_range(line, f0.0, f0.1);
    let ar = trim_range(line, f1.0, f1.1);
    let hr = trim_range(line, f2.0, f2.1);
    let tr = trim_range(line, f3.0, f3.1);
    let lr = trim_range(line, f4.0, f4.1);
    let cv: u64 = match parse_u64(slice_subrange(line, cr.0, cr.1)) {
        Some(x) => x,
        None => {
            return None;
        }
    };
    if cv > 65535 {
        return None;
    }
    let av: i64 = match parse_amount(slice_subrange(line, ar.0, ar.1)) {
        Some(x) => x,
        None => {
            return None;
        }
    };
    let hv: i64 = match parse_amount(slice_subrange(line, hr.0, hr.1)) {
        Some(x) => x,
        None => {
            return None;
        }
    };
    let tv: i64 = match parse_amount(slice_subrange(line, tr.0, tr.1)) {
        Some(x) => x,
        None => {
            return None;
        }
    };
    let lv: bool = match parse_bool_range(line, lr.0, lr.1) {
        Some(x) => x,
        None => {
            return None;
        }
    };
    Some(Account { client: cv as u16, available: av, held: hv, total: tv, locked: lv })
}

/// Reads one line of a transaction CSV.
pub fn parse_tx_row(line: &[u8]) -> (r: Option<Transaction>)
    ensures
        r == decode_tx_row(line@),
{
    let ranges = split_fields_ranges(line);
    let ghost fs = split_fields(line@);
    if ranges.len() != 5 {
        return None;
    }
    let f0 = ranges[0];
    let f1 = ranges[1];
    let f2 = ranges[2];
    let f3 = ranges[3];
    let f4 = ranges[4];
    proof {
        assert(fs[0] == line@.subrange(f0.0 as int, f0.1 as int));
        assert(fs[1] == line@.subrange(f1.0 as int, f1.1 as int));
        assert(fs[2] == line@.subrange(f2.0 as int, f2.1 as int));
        assert(fs[3] == line@.subrange(f3.0 as int, f3.1 as int));
        assert(fs[4] == line@.subrange(f4.0 as int, f4.1 as int));
    }
    let wr = trim_range(line, f0.0, f0.1);
    let kind: TxKind = match crate::rows::word_kind(line, wr.0, wr.1) {
        crate::model::MovementKind::Deposit => TxKind::Deposit,
        crate::model::MovementKind::Withdrawal => TxKind::Withdrawal,
        _ => {
            return None;
        }
    };
    let cr = trim_range(line, f1.0, f1.1);
    let tr = trim_range(line, f2.0, f2.1);
    let ar = trim_range(line, f3.0, f3.1);
    let sr = trim_range(line, f4.0, f4.1);
    let cv: u64 = match parse_u64(slice_subrange(line, cr.0, cr.1)) {
        Some(x) => x,
        None => {
            return None;
        }
    };
    let tv: u64 = match parse_u64(slice_subrange(line, tr.0, tr.1)) {
        Some(x) => x,
        None => {
            return None;
        }
    };
    if cv > 65535 || tv > 4294967295 {
        return None;
    }
    let av: i64 = match parse_amount(slice_subrange(line, ar.0, ar.1)) {
        Some(x) => x,
        None => {
            return None;
        }
    };
    let sv: i8 = match parse_status_range(line, sr.0, sr.1) {
        Some(x) => x,
        None => {
            return None;
        }
    };
    Some(Transaction { kind, client: cv as u16, tx: tv as u32, amount: av, status: sv })
}

} // verus!
