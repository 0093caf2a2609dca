//! The row decoder's text layer: a batch splits into newline-delimited
//! lines, a line splits into comma-separated fields, fields are trimmed
//! of surrounding whitespace, and one row decodes into a movement, a
//! silently dropped row, a structural error, or a blank line.

use vstd::prelude::*;
use crate::amount::parse_amount_spec;
use crate::amount::parse_amount;
use crate::digits::parse_u64_spec;
use crate::digits::parse_u64;
use crate::model::{Movement, MovementKind};
use crate::scan::{first_idx, lemma_first_idx_at, lemma_first_idx_none, find_first_from};
use vstd::slice::slice_subrange;

verus! {

/// The lines of a batch: each newline ends a line (the newline is not
/// part of it), and trailing bytes without a newline form a final line.
pub open spec fn split_lines(s: Seq<u8>) -> Seq<Seq<u8>>
    decreases s.len(),
{
    if s.len() == 0 {
        Seq::<Seq<u8>>::empty()
    } else {
        let p = first_idx(s, 10);
        if 0 <= p < s.len() {
            seq![s.take(p)] + split_lines(s.skip(p + 1))
        } else {
            seq![s]
        }
    }
}

/// The fields of a line: comma-separated, empty fields kept.
pub open spec fn split_fields(s: Seq<u8>) -> Seq<Seq<u8>>
    decreases s.len(),
{
    let p = first_idx(s, 44);
    if 0 <= p < s.len() {
        seq![s.take(p)] + split_fields(s.skip(p + 1))
    } else {
        seq![s]
    }
}

/// Field whitespace: blanks, tabs, and the carriage return before a
/// newline.
pub open spec fn is_ws(b: u8) -> bool {
    b == 32 || b == 9 || b == 13
}

/// A field with surrounding whitespace dropped.
pub open spec fn trim_spec(s: Seq<u8>) -> Seq<u8>
    decreases s.len(),
{
    if s.len() > 0 && is_ws(s[0]) {
        trim_spec(s.skip(1))
    } else if s.len() > 0 && is_ws(s.last()) {
        trim_spec(s.drop_last())
    } else {
        s
    }
}

/// The byte runs of `v` read as subranges of `s`.
pub open spec fn ranges_view(s: Seq<u8>, v: Seq<(usize, usize)>) -> Seq<Seq<u8>> {
    v.map_values(|r: (usize, usize)| s.subrange(r.0 as int, r.1 as int))
}

/// Splits a line into its comma-separated field ranges.
pub fn split_fields_ranges(s: &[u8]) -> (v: Vec<(usize, usize)>)
    ensures
        ranges_view(s@, v@) == split_fields(s@),
        forall|i: int| 0 <= i < v@.len() ==> #[trigger] v@[i].0 <= v@[i].1 <= s@.len(),
{
    let n = s.len();
    let mut v: Vec<(usize, usize)> = Vec::new();
    let mut start: usize = 0;
    proof {
        assert(s@.skip(0) =~= s@);
        assert(ranges_view(s@, v@) =~= Seq::<Seq<u8>>::empty());
    }
    loop
        invariant_except_break
            n == s@.len(),
            start <= s@.len(),
            forall|i: int| 0 <= i < v@.len() ==> #[trigger] v@[i].0 <= v@[i].1 <= s@.len(),
            split_fields(s@) == ranges_view(s@, v@) + split_fields(s@.skip(start as int)),
        ensures
            ranges_view(s@, v@) == split_fields(s@),
            forall|i: int| 0 <= i < v@.len() ==> #[trigger] v@[i].0 <= v@[i].1 <= s@.len(),
        decreases s@.len() - start,
    {
        let ghost sub = s@.skip(start as int);
        let ghost view0 = ranges_view(s@, v@);
        match find_first_from(s, start, 44) {
            Some(c) => {
                proof {
                    assert(start <= c && c < s@.len());
                    assert(sub[c - start] == s@[c as int]);
                    assert(forall|j: int| 0 <= j < c - start ==> sub[j] == s@[start + j]);
                    lemma_first_idx_at(sub, 44, c - start);
                    assert(sub.take(c - start) =~= s@.subrange(start as int, c as int));
                    assert(sub.skip(c - start + 1) =~= s@.skip(c + 1));
                }
                v.push((start, c));
                proof {
                    assert(c < n);
                    assert(v@.last() == (start, c));
                    assert(ranges_view(s@, v@) =~= view0 + seq![
                        s@.subrange(start as int, c as int),
                    ]);
                    assert(view0 + seq![s@.subrange(start as int, c as int)] + split_fields(
                        s@.skip(c + 1),
                    ) =~= view0 + (seq![s@.subrange(start as int, c as int)] + split_fields(
                        s@.skip(c + 1),
                    )));
                }
                start = c + 1;
            }
            None => {
                proof {
                    assert(forall|j: int| 0 <= j < sub.len() ==> sub[j] == s@[start + j]);
                    lemma_first_idx_none(sub, 44);
                    assert(sub =~= s@.subrange(start as int, s@.len() as int));
                }
                v.push((start, n));
                proof {
                    assert(v@.last() == (start, n));
                    assert(ranges_view(s@, v@) =~= view0 + seq![sub]);
                    assert(split_fields(sub) =~= seq![sub]);
                    assert(ranges_view(s@, v@) =~= split_fields(s@));
                }
                break ;
            }
        }
    }
    v
}

/// Splits a batch into its line ranges.
pub fn split_lines_ranges(s: &[u8]) -> (v: Vec<(usize, usize)>)
    ensures
        ranges_view(s@, v@) == split_lines(s@),
        forall|i: int| 0 <= i < v@.len() ==> #[trigger] v@[i].0 <= v@[i].1 <= s@.len(),
{
    let n = s.len();
    let mut v: Vec<(usize, usize)> = Vec::new();
    let mut start: usize = 0;
    proof {
        assert(s@.skip(0) =~= s@);
        assert(ranges_view(s@, v@) =~= Seq::<Seq<u8>>::empty());
    }
    loop
        invariant_except_break
            n == s@.len(),
            start <= s@.len(),
            forall|i: int| 0 <= i < v@.len() ==> #[trigger] v@[i].0 <= v@[i].1 <= s@.len(),
            split_lines(s@) == ranges_view(s@, v@) + split_lines(s@.skip(start as int)),
        ensures
            ranges_view(s@, v@) == split_lines(s@),
            forall|i: int| 0 <= i < v@.len() ==> #[trigger] v@[i].0 <= v@[i].1 <= s@.len(),
        decreases s@.len() - start,
    {
        let ghost sub = s@.skip(start as int);
        let ghost view0 = ranges_view(s@, v@);
        if start == s.len() {
            proof {
                assert(sub =~= Seq::<u8>::empty());
                assert(split_lines(sub) =~= Seq::<Seq<u8>>::empty());
                assert(ranges_view(s@, v@) =~= split_lines(s@));
            }
            break ;
        }
        match find_first_from(s, start, 10) {
            Some(c) => {
                proof {
                    assert(sub[c - start] == s@[c as int]);
                    assert(forall|j: int| 0 <= j < c - start ==> sub[j] == s@[start + j]);
                    lemma_first_idx_at(sub, 10, c - start);
                    assert(sub.take(c - start) =~= s@.subrange(start as int, c as int));
                    assert(sub.skip(c - start + 1) =~= s@.skip(c + 1));
                }
                v.push((start, c));
                proof {
                    assert(c < n);
                    assert(v@.last() == (start, c));
                    assert(ranges_view(s@, v@) =~= view0 + seq![
                        s@.subrange(start as int, c as int),
                    ]);
                    assert(view0 + seq![s@.subrange(start as int, c as int)] + split_lines(
                        s@.skip(c + 1),
                    ) =~= view0 + (seq![s@.subrange(start as int, c as int)] + split_lines(
                        s@.skip(c + 1),
                    )));
                }
                start = c + 1;
            }
            None => {
                proof {
                    assert(forall|j: int| 0 <= j < sub.len() ==> sub[j] == s@[start + j]);
                    lemma_first_idx_none(sub, 10);
                    assert(sub =~= s@.subrange(start as int, s@.len() as int));
                }
                v.push((start, n));
                proof {
                    assert(v@.last() == (start, n));
                    assert(ranges_view(s@, v@) =~= view0 + seq![sub]);
                    assert(split_lines(sub) =~= seq![sub]);
                    assert(ranges_view(s@, v@) =~= split_lines(s@));
                }
                break ;
            }
        }
    }
    v
}

/// Trims whitespace off both ends of `s[lo..hi)`.
pub fn trim_range(s: &[u8], lo: usize, hi: usize) -> (r: (usize, usize))
    requires
        lo <= hi <= s@.len(),
    ensures
        lo <= r.0 <= r.1 <= hi,
        s@.subrange(r.0 as int, r.1 as int) == trim_spec(s@.subrange(lo as int, hi as int)),
{
    let mut a = lo;
    let mut b = hi;
    while a < b && (s[a] == 32 || s[a] == 9 || s[a] == 13)
        invariant
            lo <= a <= b <= hi <= s@.len(),
            trim_spec(s@.subrange(lo as int, hi as int)) == trim_spec(
                s@.subrange(a as int, b as int),
            ),
        decreases b - a,
    {
        proof {
            assert(s@.subrange(a as int, b as int).skip(1) =~= s@.subrange(a + 1, b as int));
        }
        a = a + 1;
    }
    while a < b && (s[b - 1] == 32 || s[b - 1] == 9 || s[b - 1] == 13)
        invariant
            lo <= a <= b <= hi <= s@.len(),
            a == b || !is_ws(s@[a as int]),
            trim_spec(s@.subrange(lo as int, hi as int)) == trim_spec(
                s@.subrange(a as int, b as int),
            ),
        decreases b - a,
    {
        proof {
            assert(s@.subrange(a as int, b as int).drop_last() =~= s@.subrange(a as int, b - 1));
        }
        b = b - 1;
    }
    proof {
        assert(trim_spec(s@.subrange(a as int, b as int)) == s@.subrange(a as int, b as int));
    }
    (a, b)
}

/// The five recognised type words, as bytes.
pub open spec fn deposit_word() -> Seq<u8> {
    seq![100u8, 101u8, 112u8, 111u8, 115u8, 105u8, 116u8]
}

pub open spec fn withdrawal_word() -> Seq<u8> {
    seq![119u8, 105u8, 116u8, 104u8, 100u8, 114u8, 97u8, 119u8, 97u8, 108u8]
}

pub open spec fn dispute_word() -> Seq<u8> {
    seq![100u8, 105u8, 115u8, 112u8, 117u8, 116u8, 101u8]
}

pub open spec fn resolve_word() -> Seq<u8> {
    seq![114u8, 101u8, 115u8, 111u8, 108u8, 118u8, 101u8]
}

pub open spec fn chargeback_word() -> Seq<u8> {
    seq![99u8, 104u8, 97u8, 114u8, 103u8, 101u8, 98u8, 97u8, 99u8, 107u8]
}

/// The movement kind a type word names; case-sensitive exact match.
pub open spec fn kind_of_word(w: Seq<u8>) -> MovementKind {
    if w == deposit_word() {
        MovementKind::Deposit
    } else if w == withdrawal_word() {
        MovementKind::Withdrawal
    } else if w == dispute_word() {
        MovementKind::Dispute
    } else if w == resolve_word() {
        MovementKind::Resolve
    } else if w == chargeback_word() {
        MovementKind::Chargeback
    } else {
        MovementKind::Unknown
    }
}

/// Recognises the type word in `s[lo..hi)`.
pub fn word_kind(s: &[u8], lo: usize, hi: usize) -> (k: MovementKind)
    requires
        lo <= hi <= s@.len(),
    ensures
        k == kind_of_word(s@.subrange(lo as int, hi as int)),
{
    let ghost w = s@.subrange(lo as int, hi as int);
    let n = hi - lo;
    if n == 7 && s[lo] == 100 && s[lo + 1] == 101 && s[lo + 2] == 112 && s[lo + 3] == 111 && s[lo
        + 4] == 115 && s[lo + 5] == 105 && s[lo + 6] == 116 {
        proof {
            assert(w =~= deposit_word());
        }
        return MovementKind::Deposit;
    }
    if n == 10 && s[lo] == 119 && s[lo + 1] == 105 && s[lo + 2] == 116 && s[lo + 3] == 104 && s[lo
        + 4] == 100 && s[lo + 5] == 114 && s[lo + 6] == 97 && s[lo + 7] == 119 && s[lo + 8] == 97
        && s[lo + 9] == 108 {
        proof {
            assert(w =~= withdrawal_word());
        }
        return MovementKind::Withdrawal;
    }
    if n == 7 && s[lo] == 100 && s[lo + 1] == 105 && s[lo + 2] == 115 && s[lo + 3] == 112 && s[lo
        + 4] == 117 && s[lo + 5] == 116 && s[lo + 6] == 101 {
        proof {
            assert(w =~= dispute_word());
        }
        return MovementKind::Dispute;
    }
    if n == 7 && s[lo] == 114 && s[lo + 1] == 101 && s[lo + 2] == 115 && s[lo + 3] == 111 && s[lo
        + 4] == 108 && s[lo + 5] == 118 && s[lo + 6] == 101 {
        proof {
            assert(w =~= resolve_word());
        }
        return MovementKind::Resolve;
    }
    if n == 10 && s[lo] == 99 && s[lo + 1] == 104 && s[lo + 2] == 97 && s[lo + 3] == 114 && s[lo
        + 4] == 103 && s[lo + 5] == 101 && s[lo + 6] == 98 && s[lo + 7] == 97 && s[lo + 8] == 99
        && s[lo + 9] == 107 {
        proof {
            assert(w =~= chargeback_word());
        }
        return MovementKind::Chargeback;
    }
    proof {
        assert(w.len() == hi - lo);
        assert(forall|j: int| 0 <= j < w.len() ==> w[j] == s@[lo + j]);
    }
    MovementKind::Unknown
}

/// What one line of a batch contributes.
pub enum RowOutcome {
    /// An empty line; skipped without counting.
    Blank,
    /// A structurally malformed row; reported by line number.
    Bad,
    /// A deposit or withdrawal whose amount is missing or not positive;
    /// counted as parsed but producing nothing.
    Dropped,
    /// A movement to queue; deposits and withdrawals also store a
    /// transaction.
    Queued(Movement),
}

/// How a movement row classifies once its fields have parsed: deposits
/// and withdrawals need a positive amount, everything else is queued
/// for the processor to judge.
pub open spec fn classify_row(k: MovementKind, client: u16, tx: u32, amount: Option<i64>)
    -> RowOutcome {
    if k is Deposit || k is Withdrawal {
        match amount {
            Some(a) => {
                if a > 0 {
                    RowOutcome::Queued(Movement { kind: k, client, tx, amount })
                } else {
                    RowOutcome::Dropped
                }
            }
            None => RowOutcome::Dropped,
        }
    } else {
        RowOutcome::Queued(Movement { kind: k, client, tx, amount })
    }
}

/// Decodes one line: four comma-separated fields `type, client, tx,
/// amount`, each trimmed; the client and transaction ids must be
/// decimal and in range, and the amount blank or a decimal number.
pub open spec fn decode_row(line: Seq<u8>) -> RowOutcome {
    if line.len() == 0 {
        RowOutcome::Blank
    } else {
        let fs = split_fields(line);
        if fs.len() != 4 {
            RowOutcome::Bad
        } else {
            let w = trim_spec(fs[0]);
            let cf = trim_spec(fs[1]);
            let tf = trim_spec(fs[2]);
            let af = trim_spec(fs[3]);
            match (parse_u64_spec(cf), parse_u64_spec(tf)) {
                (Some(cv), Some(tv)) => {
                    if cv > u16::MAX || tv > u32::MAX {
                        RowOutcome::Bad
                    } else if af.len() == 0 {
                        classify_row(kind_of_word(w), cv as u16, tv as u32, None)
                    } else {
                        match parse_amount_spec(af) {
                            Some(a) => classify_row(
                                kind_of_word(w),
                                cv as u16,
                                tv as u32,
                                Some(a),
                            ),
                            None => RowOutcome::Bad,
                        }
                    }
                }
                _ => RowOutcome::Bad,
            }
        }
    }
}

/// Decodes one line of a batch.
pub fn parse_row(line: &[u8]) -> (r: RowOutcome)
    ensures
        r == decode_row(line@),
{
    if line.len() == 0 {
        return RowOutcome::Blank;
    }
    let ranges = split_fields_ranges(line);
    let ghost fs = split_fields(line@);
    if ranges.len() != 4 {
        return RowOutcome::Bad;
    }
    let f0 = ranges[0];
    let f1 = ranges[1];
    let f2 = ranges[2];
    let f3 = ranges[3];
    proof {
        assert(fs[0] == line@.subrange(f0.0 as int, f0.1 as int));
        assert(fs[1] == line@.subrange(f1.0 as int, f1.1 as int));
        assert(fs[2] == line@.subrange(f2.0 as int, f2.1 as int));
        assert(fs[3] == line@.subrange(f3.0 as int, f3.1 as int));
    }
    let w = trim_range(line, f0.0, f0.1);
    let cr = trim_range(line, f1.0, f1.1);
    let tr = trim_range(line, f2.0, f2.1);
    let ar = trim_range(line, f3.0, f3.1);
    let kind = word_kind(line, w.0, w.1);
    let cv: u64 = match parse_u64(slice_subrange(line, cr.0, cr.1)) {
        Some(x) => x,
        None => {
            return RowOutcome::Bad;
        }
    };
    let tv: u64 = match parse_u64(slice_subrange(line, tr.0, tr.1)) {
        Some(x) => x,
        None => {
            return RowOutcome::Bad;
        }
    };
    if cv > 65535 || tv > 4294967295 {
        return RowOutcome::Bad;
    }
    let amount: Option<i64>;
    if ar.1 - ar.0 == 0 {
        amount = None;
        proof {
            assert(trim_spec(fs[3]).len() == 0);
        }
    } else {
        match parse_amount(slice_subrange(line, ar.0, ar.1)) {
            Some(a) => {
                amount = Some(a);
            }
            None => {
                return RowOutcome::Bad;
            }
        }
    }
    let client: u16 = cv as u16;
    let tx: u32 = tv as u32;
    match kind {
        MovementKind::Deposit | MovementKind::Withdrawal => {
            match amount {
                Some(a) => {
                    if a > 0 {
                        RowOutcome::Queued(Movement { kind, client, tx, amount })
                    } else {
                        RowOutcome::Dropped
                    }
                }
                None => RowOutcome::Dropped,
            }
        }
        _ => RowOutcome::Queued(Movement { kind, client, tx, amount }),
    }
}

} // verus!
