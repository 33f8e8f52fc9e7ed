//! The message channel adapter: chunking of ordered batches.
//!
//! The driver flushes the messages of one invocation in one batch; the
//! channel splits the batch into chunks bounded by a count policy, without
//! reordering, and holds them for the destination transport.  An
//! in-memory destination cannot fail, so sending returns nothing.

use vstd::prelude::*;

verus! {

use crate::messages::RcChildBountiesMessage;

/// An ordered batch split into chunks of at most `n` messages each,
/// preserving order within and across chunks.
pub open spec fn chunk_split(
    ms: Seq<RcChildBountiesMessage>,
    n: nat,
) -> Seq<Seq<RcChildBountiesMessage>>
    decreases ms.len(),
    when n >= 1
{
    if ms.len() == 0 {
        Seq::empty()
    } else if ms.len() <= n {
        seq![ms]
    } else {
        seq![ms.take(n as int)] + chunk_split(ms.skip(n as int), n)
    }
}

/// Chunking loses nothing, adds nothing and reorders nothing: the chunks
/// concatenate back to the batch, and each chunk is nonempty and within
/// the bound.
pub proof fn lemma_chunk_split_props(ms: Seq<RcChildBountiesMessage>, n: nat)
    requires
        n >= 1,
    ensures
        chunk_split(ms, n).flatten() == ms,
        forall|j: int|
            0 <= j < chunk_split(ms, n).len() ==> 1 <= (#[trigger] chunk_split(ms, n)[j]).len()
                <= n,
    decreases ms.len(),
{
    let cs = chunk_split(ms, n);
    if ms.len() == 0 {
        assert(cs.flatten() =~= ms);
    } else if ms.len() <= n {
        cs.lemma_flatten_one_element();
    } else {
        let head = ms.take(n as int);
        let tail = ms.skip(n as int);
        lemma_chunk_split_props(tail, n);
        assert(cs.drop_first() =~= chunk_split(tail, n));
        assert(cs.flatten() == cs.first() + cs.drop_first().flatten());
        assert(cs.first() == head);
        assert(head + tail =~= ms);
        assert(cs.flatten() =~= ms);
    }
}

/// The channel: a chunking policy and the chunks accepted so far, in
/// sending order.
pub struct MessageChannel {
    max_chunk_len: usize,
    chunks: Vec<Vec<RcChildBountiesMessage>>,
}

impl MessageChannel {
    /// The chunks accepted so far, oldest first.
    pub closed spec fn view(&self) -> Seq<Seq<RcChildBountiesMessage>> {
        self.chunks@.map_values(|c: Vec<RcChildBountiesMessage>| c@)
    }

    /// The count bound of the chunking policy.
    pub closed spec fn spec_max_chunk_len(&self) -> usize {
        self.max_chunk_len
    }

    /// The policy admits at least one message per chunk, and every chunk
    /// accepted so far respects it.
    pub open spec fn wf(&self) -> bool {
        &&& self.spec_max_chunk_len() >= 1
        &&& forall|j: int| 0 <= j < self@.len() ==> 1 <= (#[trigger] self@[j]).len()
            <= self.spec_max_chunk_len()
    }

    /// A channel with no chunks accepted yet.
    pub fn new(max_chunk_len: usize) -> (ch: Self)
        requires
            max_chunk_len >= 1,
        ensures
            ch@ == Seq::<Seq<RcChildBountiesMessage>>::empty(),
            ch.spec_max_chunk_len() == max_chunk_len,
            ch.wf(),
    {
        let ch = MessageChannel { max_chunk_len, chunks: Vec::new() };
        proof {
            assert(ch@ =~= Seq::<Seq<RcChildBountiesMessage>>::empty());
        }
        ch
    }

    /// The count bound of the chunking policy.
    pub fn max_chunk_len(&self) -> (n: usize)
        ensures
            n == self.spec_max_chunk_len(),
    {
        self.max_chunk_len
    }

    /// The number of chunks accepted so far.
    pub fn chunk_count(&self) -> (n: usize)
        ensures
            n == self@.len(),
    {
        self.chunks.len()
    }

    /// A chunk accepted earlier, oldest first.
    pub fn chunk_at(&self, j: usize) -> (c: &Vec<RcChildBountiesMessage>)
        requires
            j < self@.len(),
        ensures
            c@ == self@[j as int],
    {
        &self.chunks[j]
    }

    /// Accepts an ordered batch: splits it into chunks of at most the
    /// policy bound, in order, and appends them to the accepted chunks.
    pub fn send_batch(&mut self, msgs: Vec<RcChildBountiesMessage>)
        requires
            old(self).wf(),
        ensures
            final(self).wf(),
            final(self).spec_max_chunk_len() == old(self).spec_max_chunk_len(),
            final(self)@ == old(self)@ + chunk_split(msgs@, old(self).spec_max_chunk_len() as nat),
    {
        let ghost n = self.max_chunk_len as nat;
        let mut remaining = msgs;
        while remaining.len() > 0
            invariant
                self.wf(),
                self.spec_max_chunk_len() == old(self).spec_max_chunk_len(),
                n == old(self).spec_max_chunk_len() as nat,
                old(self)@ + chunk_split(msgs@, n) == self@ + chunk_split(remaining@, n),
            decreases remaining@.len(),
        {
            let ghost pre_chunks = self@;
            let ghost pre_remaining = remaining@;
            let chunk = if remaining.len() > self.max_chunk_len {
                let tail = remaining.split_off(self.max_chunk_len);
                let head = remaining;
                remaining = tail;
                head
            } else {
                let head = remaining;
                remaining = Vec::new();
                head
            };
            proof {
                assert(chunk_split(pre_remaining, n) == seq![chunk@] + chunk_split(remaining@, n))
                    by {
                    if pre_remaining.len() <= n {
                        assert(chunk@ =~= pre_remaining);
                        assert(remaining@ =~= Seq::<RcChildBountiesMessage>::empty());
                        assert(seq![chunk@] + chunk_split(remaining@, n) =~= seq![pre_remaining]);
                    } else {
                        assert(chunk@ =~= pre_remaining.take(n as int));
                        assert(remaining@ =~= pre_remaining.skip(n as int));
                    }
                }
            }
            self.chunks.push(chunk);
            proof {
                assert(self@ =~= pre_chunks + seq![chunk@]);
                assert(pre_chunks + (seq![chunk@] + chunk_split(remaining@, n)) =~= (pre_chunks
                    + seq![chunk@]) + chunk_split(remaining@, n));
            }
        }
        proof {
            assert(chunk_split(remaining@, n) =~= Seq::<Seq<RcChildBountiesMessage>>::empty());
            assert(old(self)@ + chunk_split(msgs@, n) =~= self@);
        }
    }
}

} // verus!
