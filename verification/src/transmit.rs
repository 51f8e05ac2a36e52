//! Outgoing datagram batches.
//!
//! The upper transport hands the facade a batch of datagrams, each
//! tagged with a destination.  The rest of the layer assumes a single
//! destination per batch, so the facade splits the batch into maximal
//! runs of equal destination before forwarding: the total count and the
//! per-destination order are preserved.

use vstd::prelude::*;

use crate::addr::{IpAddr, SockAddr};

verus! {

/// One outgoing datagram, tagged with its destination (a mapped
/// address), an optional ECN marking, an optional source-IP hint and an
/// optional segment size.
pub struct Transmit {
    pub destination: SockAddr,
    pub ecn: Option<u8>,
    pub contents: bytes::Bytes,
    pub segment_size: Option<usize>,
    pub src_ip: Option<IpAddr>,
}

/// The transmit sequences a grouping produced, viewed as one sequence
/// per group.
pub open spec fn group_views(groups: Seq<Vec<Transmit>>) -> Seq<Seq<Transmit>> {
    groups.map_values(|g: Vec<Transmit>| g@)
}

/// A well-formed grouping of `batch`: groups are nonempty runs of equal
/// destination, adjacent groups have distinct destinations, and the
/// concatenation of the groups is exactly `batch` — so the total count
/// and the per-destination order are preserved.
pub open spec fn is_grouping(groups: Seq<Seq<Transmit>>, batch: Seq<Transmit>) -> bool {
    &&& groups.flatten() == batch
    &&& forall|k: int| 0 <= k < groups.len() ==> #[trigger] groups[k].len() > 0
    &&& forall|k: int, i: int|
        0 <= k < groups.len() && 0 <= i < groups[k].len() ==> (#[trigger] groups[k][i]).destination
            == groups[k][0].destination
    &&& forall|k: int|
        0 <= k < groups.len() - 1 ==> (#[trigger] groups[k][0]).destination != groups[k
            + 1][0].destination
}

/// An iterator that takes maximal runs of equal destination off the
/// front of a batch.
pub struct TransmitIter {
    pub transmits: Vec<Transmit>,
}

impl TransmitIter {
    pub fn new(transmits: Vec<Transmit>) -> (r: TransmitIter)
        ensures
            r.transmits@ == transmits@,
    {
        TransmitIter { transmits }
    }

    /// Takes the next group off the front: the longest prefix whose
    /// entries share the first entry's destination.
    pub fn next(&mut self) -> (r: Option<Vec<Transmit>>)
        ensures
            match r {
                None => old(self).transmits@.len() == 0 && final(self).transmits@ == old(
                    self,
                ).transmits@,
                Some(g) => {
                    let s = old(self).transmits@;
                    &&& s.len() > 0
                    &&& 1 <= g@.len() <= s.len()
                    &&& g@ == s.subrange(0, g@.len() as int)
                    &&& final(self).transmits@ == s.subrange(g@.len() as int, s.len() as int)
                    &&& forall|i: int|
                        0 <= i < g@.len() ==> (#[trigger] g@[i]).destination == s[0].destination
                    &&& g@.len() < s.len() ==> s[g@.len() as int].destination != s[0].destination
                },
            },
    {
        if self.transmits.len() == 0 {
            return None;
        }
        let d = self.transmits[0].destination;
        let mut end: usize = 1;
        while end < self.transmits.len() && self.transmits[end].destination == d
            invariant
                1 <= end <= self.transmits@.len(),
                self.transmits@.len() > 0,
                d == self.transmits@[0].destination,
                forall|i: int|
                    0 <= i < end ==> (#[trigger] self.transmits@[i]).destination == d,
            decreases self.transmits@.len() - end,
        {
            end += 1;
        }
        let tail = self.transmits.split_off(end);
        let mut group = tail;
        core::mem::swap(&mut self.transmits, &mut group);
        Some(group)
    }
}

/// Splits a batch into maximal runs of equal destination.
pub fn group_transmits(transmits: Vec<Transmit>) -> (r: Vec<Vec<Transmit>>)
    ensures
        is_grouping(group_views(r@), transmits@),
{
    let ghost batch = transmits@;
    let mut iter = TransmitIter::new(transmits);
    let mut groups: Vec<Vec<Transmit>> = Vec::new();
    proof {
        assert(group_views(groups@) =~= Seq::<Seq<Transmit>>::empty());
        assert(group_views(groups@).flatten() =~= Seq::<Transmit>::empty());
    }
    loop
        invariant
            batch == transmits@,
            group_views(groups@).flatten() + iter.transmits@ =~= batch,
            forall|k: int|
                0 <= k < groups@.len() ==> #[trigger] group_views(groups@)[k].len() > 0,
            forall|k: int, i: int|
                0 <= k < groups@.len() && 0 <= i < group_views(groups@)[k].len() ==> (
                #[trigger] group_views(groups@)[k][i]).destination == group_views(
                    groups@,
                )[k][0].destination,
            forall|k: int|
                0 <= k < groups@.len() - 1 ==> (#[trigger] group_views(groups@)[k][0]).destination
                    != group_views(groups@)[k + 1][0].destination,
            groups@.len() > 0 && iter.transmits@.len() > 0 ==> group_views(groups@).last().last().destination
                != iter.transmits@[0].destination,
        decreases iter.transmits@.len(),
    {
        let ghost pre_groups = group_views(groups@);
        match iter.next() {
            None => {
                proof {
                    assert(group_views(groups@).flatten() =~= batch);
                }
                return groups;
            },
            Some(g) => {
                proof {
                    Seq::lemma_flatten_push(pre_groups, g@);
                    assert(group_views(groups@.push(g)) =~= pre_groups.push(g@));
                    assert(pre_groups.push(g@).flatten() + iter.transmits@ =~= batch);
                }
                groups.push(g);
            },
        }
    }
}

} // verus!
