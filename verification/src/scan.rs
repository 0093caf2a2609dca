//! Byte scanning helpers shared by the record batcher and the row decoder.

use vstd::prelude::*;

verus! {

/// Position of the first occurrence of `needle` in `s`, or -1.
pub open spec fn first_idx(s: Seq<u8>, needle: u8) -> int
    decreases s.len(),
{
    if s.len() == 0 {
        -1
    } else if s[0] == needle {
        0
    } else if first_idx(s.skip(1), needle) < 0 {
        -1
    } else {
        first_idx(s.skip(1), needle) + 1
    }
}

pub proof fn lemma_first_idx_at(s: Seq<u8>, needle: u8, p: int)
    requires
        0 <= p < s.len(),
        s[p] == needle,
        forall|j: int| 0 <= j < p ==> s[j] != needle,
    ensures
        first_idx(s, needle) == p,
    decreases s.len(),
{
    if p > 0 {
        lemma_first_idx_at(s.skip(1), needle, p - 1);
    }
}

pub proof fn lemma_first_idx_none(s: Seq<u8>, needle: u8)
    requires
        forall|j: int| 0 <= j < s.len() ==> s[j] != needle,
    ensures
        first_idx(s, needle) == -1,
    decreases s.len(),
{
    if s.len() > 0 {
        lemma_first_idx_none(s.skip(1), needle);
    }
}

/// Position of the last occurrence of `needle` in `s`, or -1.
pub open spec fn last_idx(s: Seq<u8>, needle: u8) -> int
    decreases s.len(),
{
    if s.len() == 0 {
        -1
    } else if s.last() == needle {
        s.len() - 1
    } else {
        last_idx(s.drop_last(), needle)
    }
}

pub proof fn lemma_last_idx_at(s: Seq<u8>, needle: u8, p: int)
    requires
        0 <= p < s.len(),
        s[p] == needle,
        forall|j: int| p < j < s.len() ==> s[j] != needle,
    ensures
        last_idx(s, needle) == p,
    decreases s.len(),
{
    if p < s.len() - 1 {
        assert(forall|j: int| 0 <= j < s.drop_last().len() ==> s.drop_last()[j] == s[j]);
        lemma_last_idx_at(s.drop_last(), needle, p);
    }
}

pub proof fn lemma_last_idx_none(s: Seq<u8>, needle: u8)
    requires
        forall|j: int| 0 <= j < s.len() ==> s[j] != needle,
    ensures
        last_idx(s, needle) == -1,
    decreases s.len(),
{
    if s.len() > 0 {
        assert(forall|j: int| 0 <= j < s.drop_last().len() ==> s.drop_last()[j] == s[j]);
        lemma_last_idx_none(s.drop_last(), needle);
    }
}

/// Index of the first occurrence of `needle` at or after `from`.
pub fn find_first_from(v: &[u8], from: usize, needle: u8) -> (r: Option<usize>)
    requires
        from <= v@.len(),
    ensures
        match r {
            Some(p) => from <= p < v@.len() && v@[p as int] == needle && (forall|j: int|
                from <= j < p ==> v@[j] != needle),
            None => forall|j: int| from <= j < v@.len() ==> v@[j] != needle,
        },
{
    let mut i: usize = from;
    while i < v.len()
        invariant
            from <= i <= v@.len(),
            forall|j: int| from <= j < i ==> v@[j] != needle,
        decreases v@.len() - i,
    {
        if v[i] == needle {
            return Some(i);
        }
        i = i + 1;
    }
    None
}

/// Index of the last occurrence of `needle` in `v`.
pub fn find_last(v: &[u8], needle: &u8) -> (r: Option<usize>)
    ensures
        match r {
            Some(p) => p < v@.len() && v@[p as int] == *needle && (forall|j: int|
                p < j < v@.len() ==> v@[j] != *needle),
            None => forall|j: int| 0 <= j < v@.len() ==> v@[j] != *needle,
        },
{
    let mut i: usize = v.len();
    while i > 0
        invariant
            0 <= i <= v@.len(),
            forall|j: int| i <= j < v@.len() ==> v@[j] != *needle,
        decreases i,
    {
        i = i - 1;
        if v[i] == *needle {
            return Some(i);
        }
    }
    None
}

} // verus!
