//! Monetary amounts as integers scaled by 10^4: the text form accepted
//! on input, the canonical text form written on export, and the proof
//! that exporting and re-reading an amount is exact.

use vstd::prelude::*;
use crate::digits::{
    is_digit, all_digits, digits_val, pow10, u64_digits, lemma_digits_val_nonneg,
    lemma_digits_val_take_le, lemma_digits_val_upper, lemma_u64_digits_props,
};
use crate::scan::find_first_from;

verus! {

/// Position of the first decimal point in `b`, or -1 if there is none.
pub open spec fn first_dot(b: Seq<u8>) -> int
    decreases b.len(),
{
    if b.len() == 0 {
        -1
    } else if b[0] == 46 {
        0
    } else if first_dot(b.skip(1)) < 0 {
        -1
    } else {
        first_dot(b.skip(1)) + 1
    }
}

pub proof fn lemma_first_dot_at(b: Seq<u8>, p: int)
    requires
        0 <= p < b.len(),
        b[p] == 46,
        forall|j: int| 0 <= j < p ==> b[j] != 46,
    ensures
        first_dot(b) == p,
    decreases b.len(),
{
    if p > 0 {
        lemma_first_dot_at(b.skip(1), p - 1);
    }
}

pub proof fn lemma_first_dot_none(b: Seq<u8>)
    requires
        forall|j: int| 0 <= j < b.len() ==> b[j] != 46,
    ensures
        first_dot(b) == -1,
    decreases b.len(),
{
    if b.len() > 0 {
        lemma_first_dot_none(b.skip(1));
    }
}

/// The scaled value of a fraction-digit run: its first four digits at
/// place values 10^3 down to 10^0, plus one unit when the fifth digit
/// rounds half away from zero.
pub open spec fn frac_scaled(fp: Seq<u8>) -> int {
    if fp.len() >= 4 {
        digits_val(fp.take(4)) + (if fp.len() > 4 && fp[4] >= 53 {
            1int
        } else {
            0int
        })
    } else {
        digits_val(fp) * pow10((4 - fp.len()) as nat)
    }
}

/// The magnitude, in 10^-4 units, of the digit text `ip "." fp`.
pub open spec fn amount_mag(ip: Seq<u8>, fp: Seq<u8>) -> int {
    digits_val(ip) * 10000 + frac_scaled(fp)
}

/// Splits a leading minus sign off a byte run.
pub open spec fn split_sign(s: Seq<u8>) -> (bool, Seq<u8>) {
    if s.len() > 0 && s[0] == 45 {
        (true, s.skip(1))
    } else {
        (false, s)
    }
}

/// Result of reading a decimal amount in 10^-4 units, rounded half away
/// from zero at the fourth fraction digit. Defined exactly for an
/// optional minus sign, integer digits, an optional point and fraction
/// digits, with at least one digit in all, whose value fits in `i64`.
pub open spec fn parse_amount_spec(s: Seq<u8>) -> Option<i64> {
    let (neg, b) = split_sign(s);
    let d = first_dot(b);
    let ip = if d < 0 {
        b
    } else {
        b.take(d)
    };
    let fp = if d < 0 {
        Seq::<u8>::empty()
    } else {
        b.skip(d + 1)
    };
    if ip.len() + fp.len() >= 1 && all_digits(ip) && all_digits(fp) {
        let mag = amount_mag(ip, fp);
        if neg {
            if -mag >= i64::MIN {
                Some((-mag) as i64)
            } else {
                None
            }
        } else {
            if mag <= i64::MAX {
                Some(mag as i64)
            } else {
                None
            }
        }
    } else {
        None
    }
}

pub proof fn lemma_pow10_small()
    ensures
        pow10(0) == 1,
        pow10(1) == 10,
        pow10(2) == 100,
        pow10(3) == 1000,
        pow10(4) == 10000,
{
    assert(pow10(1) == 10 * pow10(0));
    assert(pow10(2) == 10 * pow10(1));
    assert(pow10(3) == 10 * pow10(2));
    assert(pow10(4) == 10 * pow10(3));
}

/// The scaled fraction value is at most one whole unit.
pub proof fn lemma_frac_scaled_bounds(fp: Seq<u8>)
    requires
        all_digits(fp),
    ensures
        0 <= frac_scaled(fp) <= 10000,
{
    lemma_pow10_small();
    if fp.len() >= 4 {
        assert(all_digits(fp.take(4)));
        lemma_digits_val_nonneg(fp.take(4));
        lemma_digits_val_upper(fp.take(4));
    } else {
        lemma_digits_val_nonneg(fp);
        lemma_digits_val_upper(fp);
    }
}

/// True exactly when every byte of `s` in `[lo, hi)` is a digit.
fn all_digits_range(s: &[u8], lo: usize, hi: usize) -> (r: bool)
    requires
        lo <= hi <= s@.len(),
    ensures
        r == all_digits(s@.subrange(lo as int, hi as int)),
{
    let ghost sub = s@.subrange(lo as int, hi as int);
    let mut i: usize = lo;
    while i < hi
        invariant
            lo <= i <= hi <= s@.len(),
            sub == s@.subrange(lo as int, hi as int),
            forall|t: int| 0 <= t < i - lo ==> is_digit(#[trigger] sub[t]),
        decreases hi - i,
    {
        let c = s[i];
        if c < 48 || c > 57 {
            assert(!is_digit(sub[i - lo]));
            return false;
        }
        assert(is_digit(sub[i - lo]));
        i = i + 1;
    }
    true
}

/// The value of the digit run `s[lo..hi)`, or `None` above `u64::MAX`.
fn digits_value_capped(s: &[u8], lo: usize, hi: usize) -> (r: Option<u64>)
    requires
        lo <= hi <= s@.len(),
        all_digits(s@.subrange(lo as int, hi as int)),
    ensures
        match r {
            Some(v) => v == digits_val(s@.subrange(lo as int, hi as int)),
            None => digits_val(s@.subrange(lo as int, hi as int)) > u64::MAX,
        },
{
    let ghost sub = s@.subrange(lo as int, hi as int);
    let mut acc: u64 = 0;
    let mut i: usize = lo;
    while i < hi
        invariant
            lo <= i <= hi <= s@.len(),
            sub == s@.subrange(lo as int, hi as int),
            all_digits(sub),
            acc == digits_val(sub.take(i - lo)),
        decreases hi - i,
    {
        let c = s[i];
        assert(is_digit(sub[i - lo]));
        let d = (c - 48) as u64;
        proof {
            assert(sub.take(i - lo + 1).drop_last() =~= sub.take(i - lo));
            assert(sub.take(i - lo + 1).last() == sub[i - lo]);
        }
        if acc > (u64::MAX - d) / 10 {
            proof {
                lemma_digits_val_take_le(sub, i - lo + 1, sub.len() as int);
                assert(sub.take(sub.len() as int) =~= sub);
            }
            return None;
        }
        acc = acc * 10 + d;
        i = i + 1;
    }
    proof {
        assert(sub.take(sub.len() as int) =~= sub);
    }
    Some(acc)
}

/// The scaled value of the fraction-digit run `s[lo..hi)`.
fn frac_value(s: &[u8], lo: usize, hi: usize) -> (f: u64)
    requires
        lo <= hi <= s@.len(),
        all_digits(s@.subrange(lo as int, hi as int)),
    ensures
        f == frac_scaled(s@.subrange(lo as int, hi as int)),
        f <= 10000,
{
    let ghost sub = s@.subrange(lo as int, hi as int);
    let len: usize = hi - lo;
    let limit: usize = if len < 4 {
        len
    } else {
        4
    };
    let mut acc: u64 = 0;
    let mut k: usize = 0;
    while k < limit
        invariant
            0 <= k <= limit <= 4,
            limit <= len,
            lo + len == hi <= s@.len(),
            sub == s@.subrange(lo as int, hi as int),
            all_digits(sub),
            acc == digits_val(sub.take(k as int)),
        decreases limit - k,
    {
        proof {
            lemma_pow10_small();
            assert(all_digits(sub.take(k as int)));
            lemma_digits_val_upper(sub.take(k as int));
            assert(sub.take(k + 1).drop_last() =~= sub.take(k as int));
            assert(sub.take(k + 1).last() == sub[k as int]);
        }
        let c = s[lo + k];
        assert(is_digit(sub[k as int]));
        acc = acc * 10 + (c - 48) as u64;
        k = k + 1;
    }
    proof {
        lemma_pow10_small();
        assert(all_digits(sub.take(limit as int)));
        lemma_digits_val_upper(sub.take(limit as int));
    }
    let f4: u64 = if len >= 4 {
        acc
    } else if len == 3 {
        acc * 10
    } else if len == 2 {
        acc * 100
    } else if len == 1 {
        acc * 1000
    } else {
        0
    };
    let carry: u64 = if len > 4 && s[lo + 4] >= 53 {
        1
    } else {
        0
    };
    proof {
        if len >= 4 {
            assert(sub.take(4) =~= sub.take(limit as int));
        } else {
            assert(sub.take(limit as int) =~= sub);
        }
    }
    f4 + carry
}

/// Parses a decimal amount into 10^-4 units, rounding half away from
/// zero at the fourth fraction digit.
pub fn parse_amount(s: &[u8]) -> (r: Option<i64>)
    ensures
        r == parse_amount_spec(s@),
{
    let neg: bool;
    let start: usize;
    if s.len() > 0 && s[0] == 45 {
        neg = true;
        start = 1;
    } else {
        neg = false;
        start = 0;
    }
    let ghost b = split_sign(s@).1;
    proof {
        assert(split_sign(s@).0 == neg);
        assert(b =~= s@.skip(start as int));
    }

    let odot = find_first_from(s, start, 46);
    let ip_end: usize;
    let fp_start: usize;
    match odot {
        Some(p) => {
            ip_end = p;
            fp_start = p + 1;
            proof {
                lemma_first_dot_at(b, p - start);
            }
        }
        None => {
            ip_end = s.len();
            fp_start = s.len();
            proof {
                lemma_first_dot_none(b);
            }
        }
    }
    let ghost ip = if first_dot(b) < 0 {
        b
    } else {
        b.take(first_dot(b))
    };
    let ghost fp = if first_dot(b) < 0 {
        Seq::<u8>::empty()
    } else {
        b.skip(first_dot(b) + 1)
    };
    proof {
        assert(ip =~= s@.subrange(start as int, ip_end as int));
        assert(fp =~= s@.subrange(fp_start as int, s@.len() as int));
    }

    if ip_end - start == 0 && s.len() - fp_start == 0 {
        return None;
    }

    if !all_digits_range(s, start, ip_end) {
        return None;
    }
    if !all_digits_range(s, fp_start, s.len()) {
        return None;
    }

    let f = frac_value(s, fp_start, s.len());
    let ip_val: u64;
    match digits_value_capped(s, start, ip_end) {
        Some(v) => {
            ip_val = v;
        }
        None => {
            proof {
                lemma_frac_scaled_bounds(fp);
            }
            return None;
        }
    }

    let mag: u128 = (ip_val as u128) * 10000 + (f as u128);
    proof {
        assert(mag == amount_mag(ip, fp));
    }
    if neg {
        if mag <= 9223372036854775807u128 {
            Some(-(mag as i64))
        } else if mag == 9223372036854775808u128 {
            Some(i64::MIN)
        } else {
            None
        }
    } else {
        if mag <= 9223372036854775807u128 {
            Some(mag as i64)
        } else {
            None
        }
    }
}

/// The four zero-padded fraction digits of `f`.
pub open spec fn frac4_digits(f: int) -> Seq<u8> {
    seq![
        (48 + f / 1000) as u8,
        (48 + (f / 100) % 10) as u8,
        (48 + (f / 10) % 10) as u8,
        (48 + f % 10) as u8,
    ]
}

/// Drops trailing zero digits, always keeping at least one digit.
pub open spec fn trim_zeros(s: Seq<u8>) -> Seq<u8>
    decreases s.len(),
{
    if s.len() <= 1 || s.last() != 48 {
        s
    } else {
        trim_zeros(s.drop_last())
    }
}

/// Fraction text of a scaled amount's sub-unit part.
pub open spec fn frac_bytes(f: int) -> Seq<u8> {
    trim_zeros(frac4_digits(f))
}

/// The canonical text of a scaled amount: an optional minus sign,
/// integer digits, a point, and fraction digits with trailing zeros
/// dropped but at least one digit kept.
pub open spec fn amount_bytes(a: int) -> Seq<u8> {
    let mag = if a < 0 {
        -a
    } else {
        a
    };
    let body = u64_digits(mag / 10000) + seq![46u8] + frac_bytes(mag % 10000);
    if a < 0 {
        seq![45u8] + body
    } else {
        body
    }
}

pub proof fn lemma_frac4_digits(f: int)
    requires
        0 <= f < 10000,
    ensures
        frac4_digits(f).len() == 4,
        all_digits(frac4_digits(f)),
        digits_val(frac4_digits(f)) == f,
{
    let s = frac4_digits(f);
    assert(0 <= f / 1000 <= 9);
    let s1 = seq![s[0]];
    let s2 = seq![s[0], s[1]];
    let s3 = seq![s[0], s[1], s[2]];
    assert(s.drop_last() =~= s3);
    assert(s3.drop_last() =~= s2);
    assert(s2.drop_last() =~= s1);
    assert(s1.drop_last() =~= Seq::<u8>::empty());
    assert(digits_val(Seq::<u8>::empty()) == 0);
    assert(s1.last() == s[0] && s[0] == (48 + f / 1000) as u8);
    assert(digits_val(s1) == f / 1000);
    assert(s2.last() == s[1] && s[1] == (48 + (f / 100) % 10) as u8);
    assert(digits_val(s2) == 10 * (f / 1000) + (f / 100) % 10);
    assert(s3.last() == s[2] && s[2] == (48 + (f / 10) % 10) as u8);
    assert(digits_val(s3) == 100 * (f / 1000) + 10 * ((f / 100) % 10) + (f / 10) % 10);
    assert(s.last() == s[3] && s[3] == (48 + f % 10) as u8);
    assert(digits_val(s) == 1000 * (f / 1000) + 100 * ((f / 100) % 10) + 10 * ((f / 10) % 10)
        + f % 10);
    assert(1000 * (f / 1000) + 100 * ((f / 100) % 10) + 10 * ((f / 10) % 10) + f % 10 == f);
}

pub proof fn lemma_trim_zeros_props(s: Seq<u8>)
    requires
        all_digits(s),
        s.len() >= 1,
    ensures
        1 <= trim_zeros(s).len() <= s.len(),
        trim_zeros(s) == s.take(trim_zeros(s).len() as int),
        all_digits(trim_zeros(s)),
        digits_val(trim_zeros(s)) * pow10((s.len() - trim_zeros(s).len()) as nat) == digits_val(
            s,
        ),
    decreases s.len(),
{
    let t = trim_zeros(s);
    if s.len() <= 1 || s.last() != 48 {
        assert(t == s);
        assert(s.take(s.len() as int) =~= s);
        assert(pow10(0) == 1);
    } else {
        let dl = s.drop_last();
        assert(all_digits(dl));
        lemma_trim_zeros_props(dl);
        assert(t == trim_zeros(dl));
        let ghost p = pow10((dl.len() - t.len()) as nat);
        assert(pow10((s.len() - t.len()) as nat) == 10 * p);
        assert(digits_val(t) * (10 * p) == 10 * (digits_val(t) * p)) by (nonlinear_arith);
        assert(digits_val(s) == 10 * digits_val(dl) + (s.last() - 48));
        assert(s.last() == 48);
        assert(dl.take(t.len() as int) =~= s.take(t.len() as int));
    }
}

/// Reading the trimmed fraction text back as a fraction run gives the
/// original sub-unit value.
pub proof fn lemma_frac_round(f: int)
    requires
        0 <= f < 10000,
    ensures
        1 <= frac_bytes(f).len() <= 4,
        all_digits(frac_bytes(f)),
        frac_scaled(frac_bytes(f)) == f,
{
    lemma_frac4_digits(f);
    lemma_trim_zeros_props(frac4_digits(f));
    lemma_pow10_small();
    let t = frac_bytes(f);
    if t.len() == 4 {
        assert(t.take(4) =~= t);
        assert(t == frac4_digits(f));
    }
}

/// How trimming acts on exactly four digits.
pub proof fn lemma_trim4_cases(s: Seq<u8>)
    requires
        s.len() == 4,
    ensures
        trim_zeros(s) == (if s[3] != 48 {
            s
        } else if s[2] != 48 {
            s.take(3)
        } else if s[1] != 48 {
            s.take(2)
        } else {
            s.take(1)
        }),
{
    assert(s.last() == s[3]);
    if s[3] != 48 {
        assert(trim_zeros(s) == s);
    } else {
        assert(s.drop_last() =~= s.take(3));
        assert(trim_zeros(s) == trim_zeros(s.take(3)));
        assert(s.take(3).last() == s[2]);
        if s[2] != 48 {
            assert(trim_zeros(s.take(3)) == s.take(3));
        } else {
            assert(s.take(3).drop_last() =~= s.take(2));
            assert(trim_zeros(s.take(3)) == trim_zeros(s.take(2)));
            assert(s.take(2).last() == s[1]);
            if s[1] != 48 {
                assert(trim_zeros(s.take(2)) == s.take(2));
            } else {
                assert(s.take(2).drop_last() =~= s.take(1));
                assert(trim_zeros(s.take(2)) == trim_zeros(s.take(1)));
                assert(trim_zeros(s.take(1)) == s.take(1));
            }
        }
    }
}

/// Writes the canonical text of a scaled amount.
pub fn format_amount(a: i64) -> (v: Vec<u8>)
    ensures
        v@ == amount_bytes(a as int),
{
    let mag: u64 = if a < 0 {
        (-(a as i128)) as u64
    } else {
        a as u64
    };
    let mut v: Vec<u8> = Vec::new();
    if a < 0 {
        v.push(45);
    }
    let mut ipart = crate::digits::format_u64(mag / 10000);
    v.append(&mut ipart);
    v.push(46);
    let f: u64 = mag % 10000;
    let d0: u8 = 48 + (f / 1000) as u8;
    let d1: u8 = 48 + ((f / 100) % 10) as u8;
    let d2: u8 = 48 + ((f / 10) % 10) as u8;
    let d3: u8 = 48 + (f % 10) as u8;
    v.push(d0);
    if d1 != 48 || d2 != 48 || d3 != 48 {
        v.push(d1);
        if d2 != 48 || d3 != 48 {
            v.push(d2);
            if d3 != 48 {
                v.push(d3);
            }
        }
    }
    proof {
        let s4 = frac4_digits(f as int);
        lemma_trim4_cases(s4);
        assert(s4 =~= seq![d0, d1, d2, d3]);
        assert(s4.take(3) =~= seq![d0, d1, d2]);
        assert(s4.take(2) =~= seq![d0, d1]);
        assert(s4.take(1) =~= seq![d0]);
        assert(v@ =~= amount_bytes(a as int));
    }
    v
}

/// Writing a scaled amount as text and parsing it back returns it.
pub proof fn lemma_amount_round_trip(a: i64)
    ensures
        parse_amount_spec(amount_bytes(a as int)) == Some(a),
{
    let mag = if a < 0 {
        -(a as int)
    } else {
        a as int
    };
    let q = mag / 10000;
    let r = mag % 10000;
    lemma_u64_digits_props(q);
    lemma_frac_round(r);
    let ipd = u64_digits(q);
    let fpd = frac_bytes(r);
    let body = ipd + seq![46u8] + fpd;
    let s = amount_bytes(a as int);
    if a < 0 {
        assert(s =~= seq![45u8] + body);
        assert(s[0] == 45);
        assert(split_sign(s).0 == true);
        assert(split_sign(s).1 =~= body);
    } else {
        assert(s =~= body);
        assert(is_digit(s[0]));
        assert(split_sign(s).0 == false);
        assert(split_sign(s).1 == s);
    }
    let b = split_sign(s).1;
    assert(b =~= body);
    assert(body[ipd.len() as int] == 46);
    assert(forall|j: int| 0 <= j < ipd.len() ==> body[j] == ipd[j]);
    assert(forall|j: int| 0 <= j < ipd.len() ==> body[j] != 46);
    lemma_first_dot_at(body, ipd.len() as int);
    assert(first_dot(b) == ipd.len() as int);
    assert(b.take(ipd.len() as int) =~= ipd);
    assert(b.skip(ipd.len() as int + 1) =~= fpd);
    assert(amount_mag(ipd, fpd) == q * 10000 + r);
    assert(q * 10000 + r == mag);
    if a < 0 {
        assert(mag <= 9223372036854775808);
        assert(parse_amount_spec(s) == Some((-mag) as i64));
        assert((-mag) as i64 == a);
    } else {
        assert(mag <= i64::MAX);
        assert(parse_amount_spec(s) == Some(mag as i64));
    }
}

} // verus!
