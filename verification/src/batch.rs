//! The record batcher: turns a chunked byte stream into discrete
//! newline-delimited batches. Bytes up to the last newline of each
//! chunk flush together with what was pending; the tail waits for more
//! input, and leftover bytes flush once the stream ends. The first
//! flushed batch is the one that carries the header row.

use vstd::prelude::*;
use crate::scan::{last_idx, lemma_last_idx_at, lemma_last_idx_none, find_last};
use vstd::slice::slice_subrange;

verus! {

/// Accumulates chunked input and hands out whole batches.
#[derive(Debug)]
pub struct Batcher {
    pending: Vec<u8>,
    first_done: bool,
}

impl Batcher {
    /// The bytes read but not yet flushed as part of a batch.
    pub closed spec fn pending_bytes(&self) -> Seq<u8> {
        self.pending@
    }

    /// Whether the next flushed batch is the first one, which carries
    /// the header row.
    pub closed spec fn header_pending(&self) -> bool {
        !self.first_done
    }

    pub fn new() -> (r: Batcher)
        ensures
            r.pending_bytes() == Seq::<u8>::empty(),
            r.header_pending(),
    {
        let v: Vec<u8> = Vec::new();
        proof {
            assert(v@ =~= Seq::<u8>::empty());
        }
        Batcher { pending: v, first_done: false }
    }

    /// Feeds one chunk of input. When the chunk holds a newline, the
    /// pending bytes and the chunk up to its last newline flush as one
    /// batch, flagged as the header batch if it is the first; the tail
    /// after that newline becomes the new pending input. Without a
    /// newline the whole chunk just joins the pending input.
    pub fn push_chunk(&mut self, chunk: &[u8]) -> (r: Option<(Vec<u8>, bool)>)
        ensures
            match r {
                Some(flushed) => {
                    let p = last_idx(chunk@, 10);
                    &&& p >= 0
                    &&& flushed.0@ == old(self).pending_bytes() + chunk@.take(p + 1)
                    &&& flushed.1 == old(self).header_pending()
                    &&& final(self).pending_bytes() == chunk@.skip(p + 1)
                    &&& !final(self).header_pending()
                },
                None => {
                    &&& last_idx(chunk@, 10) < 0
                    &&& final(self).pending_bytes() == old(self).pending_bytes() + chunk@
                    &&& final(self).header_pending() == old(self).header_pending()
                },
            },
    {
        let n = chunk.len();
        match find_last(chunk, &10) {
            Some(p) => {
                proof {
                    assert(p < n);
                    lemma_last_idx_at(chunk@, 10, p as int);
                }
                let mut batch = Vec::new();
                core::mem::swap(&mut batch, &mut self.pending);
                let mut head = vstd::slice::slice_to_vec(slice_subrange(chunk, 0, p + 1));
                batch.append(&mut head);
                let mut tail = vstd::slice::slice_to_vec(
                    slice_subrange(chunk, p + 1, n),
                );
                core::mem::swap(&mut tail, &mut self.pending);
                let headers = !self.first_done;
                self.first_done = true;
                proof {
                    assert(batch@ =~= old(self).pending@ + chunk@.take(p + 1));
                    assert(self.pending@ =~= chunk@.skip(p + 1));
                }
                Some((batch, headers))
            }
            None => {
                proof {
                    lemma_last_idx_none(chunk@, 10);
                }
                let mut head = vstd::slice::slice_to_vec(chunk);
                self.pending.append(&mut head);
                None
            }
        }
    }

    /// Flushes whatever is still pending when the stream ends: a final
    /// batch even without a trailing newline, or nothing.
    pub fn finish(&mut self) -> (r: Option<(Vec<u8>, bool)>)
        ensures
            match r {
                Some(flushed) => {
                    &&& old(self).pending_bytes().len() > 0
                    &&& flushed.0@ == old(self).pending_bytes()
                    &&& flushed.1 == old(self).header_pending()
                    &&& final(self).pending_bytes() == Seq::<u8>::empty()
                    &&& !final(self).header_pending()
                },
                None => {
                    &&& old(self).pending_bytes().len() == 0
                    &&& final(self).pending_bytes() == old(self).pending_bytes()
                    &&& final(self).header_pending() == old(self).header_pending()
                },
            },
    {
        if self.pending.len() == 0 {
            return None;
        }
        let mut batch = Vec::new();
        core::mem::swap(&mut batch, &mut self.pending);
        let headers = !self.first_done;
        self.first_done = true;
        proof {
            assert(self.pending@ =~= Seq::<u8>::empty());
        }
        Some((batch, headers))
    }
}

} // verus!
