//! The virtual-socket facade.
//!
//! Presents one send and one receive operation to the upper QUIC
//! transport.  Outgoing batches are split into runs per destination and
//! pushed onto a bounded queue toward the coordinator; backpressure is
//! reported as "pending" with a wake registration, never by dropping a
//! datagram.  Incoming datagrams arrive on a bounded queue with their
//! remote address already rewritten to the peer's stable mapped
//! address.  After a close both operations report "closed".

use vstd::prelude::*;

use crate::addr::{IpAddr, QuicMappedAddr, SockAddr};
use crate::transmit::{group_views, Transmit, TransmitIter};

verus! {

/// Options for creating the connectivity layer.  Callbacks — on
/// endpoint change, on first relay connection, on network-info change
/// — are registered by the embedding, which receives the corresponding
/// actions from the coordinator.
pub struct Options {
    /// The port to listen on; zero means to pick one automatically.
    pub port: u16,
}

impl Default for Options {
    fn default() -> (r: Self)
        ensures
            r.port == 0,
    {
        Options { port: 0 }
    }
}

/// The port the IPv6 socket is bound on when a fixed port was asked
/// for: the next port up, so both families sit side by side.  With an
/// automatic port — or when there is no next port — the IPv6 socket
/// also picks automatically.
pub fn derived_ipv6_port(port: u16) -> (r: u16)
    ensures
        port == 0 ==> r == 0,
        0 < port < 0xffff ==> r == port + 1,
        port == 0xffff ==> r == 0,
{
    if port == 0 || port == 0xffff {
        0
    } else {
        port + 1
    }
}

/// Which transport a datagram arrived on.
#[derive(Clone, Copy, PartialEq, Eq, Structural, Debug)]
pub enum NetworkSource {
    Derp,
    Ipv4,
    Ipv6,
}

/// Receive metadata handed to the upper transport.  `addr` is the
/// peer's stable mapped address, never the concrete arrival address.
#[derive(Clone, Copy, PartialEq, Eq, Structural, Debug)]
pub struct RecvMeta {
    pub addr: SockAddr,
    pub len: usize,
    pub stride: usize,
    pub dst_ip: Option<IpAddr>,
    pub ecn: Option<u8>,
}

/// One entry of the receive queue: a datagram, or the error sentinel
/// that surfaces a socket read failure to the upper transport.
pub enum NetworkReadResult {
    Error,
    Packet { source: NetworkSource, bytes: bytes::Bytes, meta: RecvMeta },
}

/// The capacity of the outbound transmit queue, in groups.
pub const SEND_QUEUE_CAP: usize = 128;

/// The capacity of the receive queue.
pub const RECV_QUEUE_CAP: usize = 128;

/// What a send poll reports.
pub enum SendPoll {
    /// The connection is closed; nothing was enqueued.
    Closed,
    /// The queue was full; a wake was registered and nothing was lost.
    Pending,
    /// This many datagrams were enqueued.
    Sent(usize),
}

/// What a receive poll reports.
pub enum RecvPoll {
    /// The connection is closed.
    Closed,
    /// A socket read failure is surfaced to the caller.
    Error,
    /// The queue was empty; a wake was registered.
    Pending,
    /// The drained datagrams, with their metadata.
    Received(Vec<(bytes::Bytes, RecvMeta)>),
}

/// The facade state.
pub struct Conn {
    /// Set once by close; all later polls report closed.
    pub closed: bool,
    /// Outbound groups awaiting the coordinator, each a run with one
    /// destination.
    pub send_queue: Vec<Vec<Transmit>>,
    /// Inbound datagrams awaiting the upper transport.
    pub recv_queue: Vec<NetworkReadResult>,
    /// Whether a send wake is registered.
    pub send_waker: bool,
    /// Whether a receive wake is registered.
    pub recv_waker: bool,
    /// The bound IPv4 socket address.
    pub local_v4: SockAddr,
    /// The bound IPv6 socket address, if one exists.
    pub local_v6: Option<SockAddr>,
}

impl Conn {
    /// Whether a receive-queue entry is fit for the upper transport: a
    /// datagram's metadata carries a mapped address, never a concrete
    /// arrival address.
    pub open spec fn recv_entry_ok(e: NetworkReadResult) -> bool {
        match e {
            NetworkReadResult::Error => true,
            NetworkReadResult::Packet { meta, .. } => QuicMappedAddr::spec_is_mapped(meta.addr),
        }
    }

    /// The facade invariant: every queued datagram's metadata carries a
    /// mapped address, and the IPv6 socket address, when there is one,
    /// holds an IPv6 address.
    pub open spec fn wf(self) -> bool {
        &&& forall|k: int|
            0 <= k < self.recv_queue@.len() ==> Conn::recv_entry_ok(#[trigger] self.recv_queue@[k])
        &&& match self.local_v6 {
            Some(a) => a.ip.spec_is_v6(),
            None => true,
        }
    }

    /// A fresh facade over the given bound addresses.
    pub fn new(local_v4: SockAddr, local_v6: Option<SockAddr>) -> (r: Conn)
        requires
            (local_v6 matches Some(a) ==> a.ip.spec_is_v6()),
        ensures
            !r.closed,
            r.wf(),
            r.send_queue@.len() == 0,
            r.recv_queue@.len() == 0,
            r.local_v4 == local_v4,
            r.local_v6 == local_v6,
    {
        Conn {
            closed: false,
            send_queue: Vec::new(),
            recv_queue: Vec::new(),
            send_waker: false,
            recv_waker: false,
            local_v4,
            local_v6,
        }
    }

    /// The bound addresses as they are.
    pub fn local_addr(&self) -> (r: (SockAddr, Option<SockAddr>))
        ensures
            r == (self.local_v4, self.local_v6),
    {
        (self.local_v4, self.local_v6)
    }

    /// The local address the upper transport sees.  Mapped addresses
    /// are IPv6, so when only IPv4 is bound its address is reported in
    /// IPv4-mapped IPv6 form: the upper transport always sees IPv6.
    pub fn normalized_local_addr(&self) -> (r: SockAddr)
        requires
            self.wf(),
        ensures
            match self.local_v6 {
                Some(v6) => r == v6,
                None => r == (SockAddr {
                    ip: self.local_v4.ip.spec_to_v6_mapped(),
                    port: self.local_v4.port,
                }),
            },
            self.local_v6 is Some ==> r == self.local_v6.unwrap(),
            r.ip.spec_is_v6(),
    {
        match self.local_v6 {
            Some(v6) => v6,
            None => SockAddr { ip: self.local_v4.ip.to_v6_mapped(), port: self.local_v4.port },
        }
    }

    /// Marks the facade closed; all later polls report closed.
    pub fn set_closed(&mut self)
        ensures
            final(self).closed,
            final(self).send_queue@ == old(self).send_queue@,
            final(self).recv_queue@ == old(self).recv_queue@,
            final(self).local_v4 == old(self).local_v4,
            final(self).local_v6 == old(self).local_v6,
            final(self).wf() == old(self).wf(),
    {
        self.closed = true;
    }

    /// Hands the coordinator the next outbound group, if any.
    pub fn take_send_group(&mut self) -> (r: Option<Vec<Transmit>>)
        ensures
            match r {
                Some(g) => old(self).send_queue@.len() > 0 && g@ == old(self).send_queue@[0]@
                    && final(self).send_queue@ == old(self).send_queue@.skip(1),
                None => old(self).send_queue@.len() == 0 && final(self).send_queue@ == old(
                    self,
                ).send_queue@,
            },
            final(self).recv_queue@ == old(self).recv_queue@,
            final(self).closed == old(self).closed,
            final(self).local_v4 == old(self).local_v4,
            final(self).local_v6 == old(self).local_v6,
            final(self).wf() == old(self).wf(),
    {
        if self.send_queue.len() == 0 {
            return None;
        }
        let g = self.send_queue.remove(0);
        Some(g)
    }

    /// Queues an arrived datagram (or the error sentinel) for the
    /// upper transport; reports `false` — a logged drop — when the
    /// receive queue is full.
    pub fn push_recv(&mut self, r: NetworkReadResult) -> (accepted: bool)
        ensures
            accepted == (old(self).recv_queue@.len() < RECV_QUEUE_CAP),
            accepted ==> final(self).recv_queue@ == old(self).recv_queue@.push(r),
            !accepted ==> final(self).recv_queue@ == old(self).recv_queue@,
            final(self).send_queue@ == old(self).send_queue@,
            final(self).closed == old(self).closed,
            final(self).local_v4 == old(self).local_v4,
            final(self).local_v6 == old(self).local_v6,
            old(self).wf() && Conn::recv_entry_ok(r) ==> final(self).wf(),
    {
        if self.recv_queue.len() < RECV_QUEUE_CAP {
            self.recv_queue.push(r);
            true
        } else {
            false
        }
    }

    /// The send operation of the upper transport.  Splits the batch
    /// into runs per destination and enqueues them while the queue has
    /// room: what is accepted is exactly a prefix of the batch, so no
    /// datagram is lost or reordered.  A full queue registers a wake
    /// and reports pending; a closed connection reports closed.
    #[verifier::loop_isolation(false)]
    pub fn poll_send(&mut self, transmits: Vec<Transmit>) -> (r: SendPoll)
        ensures
            old(self).closed ==> (r matches SendPoll::Closed) && *final(self) == *old(self),
            !old(self).closed ==> final(self).closed == old(self).closed && final(self).recv_queue@
                == old(self).recv_queue@ && final(self).local_v4 == old(self).local_v4 && final(self).local_v6 == old(self).local_v6,
            !old(self).closed && transmits@.len() == 0 ==> *final(self) == *old(self) && (r matches
                SendPoll::Sent(n) && n == 0),
            !old(self).closed ==> ({
                let appended = final(self).send_queue@.skip(old(self).send_queue@.len() as int);
                let accepted = group_views(appended).flatten();
                &&& final(self).send_queue@.len() >= old(self).send_queue@.len()
                &&& final(self).send_queue@.subrange(0, old(self).send_queue@.len() as int) == old(
                    self,
                ).send_queue@
                &&& final(self).send_queue@.len() <= SEND_QUEUE_CAP || final(self).send_queue@.len()
                    == old(self).send_queue@.len()
                &&& accepted.len() <= transmits@.len()
                &&& accepted == transmits@.subrange(0, accepted.len() as int)
                &&& forall|k: int| 0 <= k < appended.len() ==> (#[trigger] appended[k])@.len() > 0
                &&& forall|k: int, i: int|
                    0 <= k < appended.len() && 0 <= i < appended[k]@.len() ==> (
                    #[trigger] appended[k]@[i]).destination == appended[k]@[0].destination
                &&& match r {
                    SendPoll::Closed => false,
                    SendPoll::Pending => accepted.len() == 0 && transmits@.len() > 0 && final(self).send_waker && old(self).send_queue@.len() >= SEND_QUEUE_CAP,
                    SendPoll::Sent(n) => n == accepted.len() && (n > 0 || transmits@.len() == 0)
                        && (n < transmits@.len() ==> final(self).send_queue@.len()
                        >= SEND_QUEUE_CAP),
                }
            }),
            old(self).wf() ==> final(self).wf(),
    {
        if self.closed {
            return SendPoll::Closed;
        }
        if transmits.len() == 0 {
            proof {
                let appended = self.send_queue@.skip(old(self).send_queue@.len() as int);
                assert(appended =~= Seq::<Vec<Transmit>>::empty());
                assert(group_views(appended) =~= Seq::<Seq<Transmit>>::empty());
                assert(self.send_queue@.subrange(0, old(self).send_queue@.len() as int) =~= old(
                    self,
                ).send_queue@);
            }
            return SendPoll::Sent(0);
        }
        let ghost batch = transmits@;
        let mut iter = TransmitIter::new(transmits);
        let mut n: usize = 0;
        proof {
            let appended = self.send_queue@.skip(old(self).send_queue@.len() as int);
            assert(appended =~= Seq::<Vec<Transmit>>::empty());
            assert(group_views(appended) =~= Seq::<Seq<Transmit>>::empty());
        }
        loop
            invariant
                !self.closed,
                self.recv_queue@ == old(self).recv_queue@,
                self.send_waker == old(self).send_waker,
                self.local_v4 == old(self).local_v4,
                self.local_v6 == old(self).local_v6,
                self.send_queue@.len() >= old(self).send_queue@.len(),
                self.send_queue@.len() <= SEND_QUEUE_CAP || self.send_queue@.len() == old(
                    self,
                ).send_queue@.len(),
                self.send_queue@.subrange(0, old(self).send_queue@.len() as int) == old(
                    self,
                ).send_queue@,
                n <= batch.len(),
                n == 0 ==> self.send_queue@ == old(self).send_queue@,
                group_views(self.send_queue@.skip(old(self).send_queue@.len() as int)).flatten()
                    =~= batch.subrange(0, n as int),
                forall|k: int|
                    0 <= k < self.send_queue@.skip(old(self).send_queue@.len() as int).len() ==> (
                    #[trigger] self.send_queue@.skip(old(self).send_queue@.len() as int)[k])@.len()
                        > 0,
                forall|k: int, i2: int|
                    0 <= k < self.send_queue@.skip(old(self).send_queue@.len() as int).len() && 0
                        <= i2 < self.send_queue@.skip(old(self).send_queue@.len() as int)[k]@.len()
                        ==> (#[trigger] self.send_queue@.skip(
                        old(self).send_queue@.len() as int,
                    )[k]@[i2]).destination == self.send_queue@.skip(
                        old(self).send_queue@.len() as int,
                    )[k]@[0].destination,
                iter.transmits@ =~= batch.subrange(n as int, batch.len() as int),
            decreases iter.transmits@.len(),
        {
            if self.send_queue.len() >= SEND_QUEUE_CAP {
                if n == 0 {
                    self.send_waker = true;
                    proof {
                        let accepted = group_views(
                            self.send_queue@.skip(old(self).send_queue@.len() as int),
                        ).flatten();
                        assert(accepted =~= batch.subrange(0, 0));
                    }
                    return SendPoll::Pending;
                }
                return SendPoll::Sent(n);
            }
            let ghost pre_appended = self.send_queue@.skip(old(self).send_queue@.len() as int);
            match iter.next() {
                None => {
                    return SendPoll::Sent(n);
                },
                Some(g) => {
                    let glen = g.len();
                    proof {
                        assert(glen + n <= batch.len());
                    }
                    self.send_queue.push(g);
                    n = n + glen;
                    proof {
                        let appended = self.send_queue@.skip(old(self).send_queue@.len() as int);
                        assert(appended =~= pre_appended.push(self.send_queue@.last()));
                        assert(group_views(appended) =~= group_views(pre_appended).push(
                            self.send_queue@.last()@,
                        ));
                        Seq::lemma_flatten_push(
                            group_views(pre_appended),
                            self.send_queue@.last()@,
                        );
                        assert(group_views(appended).flatten() =~= batch.subrange(0, n as int));
                        assert(self.send_queue@.subrange(0, old(self).send_queue@.len() as int)
                            =~= old(self).send_queue@);
                        assert forall|k: int|
                            0 <= k < appended.len() implies (#[trigger] appended[k])@.len()
                            > 0 by {
                            if k < pre_appended.len() {
                                assert(appended[k] == pre_appended[k]);
                            } else {
                                assert(appended[k] == g);
                            }
                        }
                        assert forall|k: int, i2: int|
                            0 <= k < appended.len() && 0 <= i2 < appended[k]@.len() implies (
                        #[trigger] appended[k]@[i2]).destination
                            == appended[k]@[0].destination by {
                            if k < pre_appended.len() {
                                assert(appended[k] == pre_appended[k]);
                            } else {
                                assert(appended[k] == g);
                            }
                        }
                    }
                },
            }
        }
    }

    /// The receive operation of the upper transport: drains up to
    /// `max` queued datagrams in arrival order.  An error sentinel is
    /// surfaced as an error; an empty queue registers a wake and
    /// reports pending; a closed connection reports closed.
    #[verifier::loop_isolation(false)]
    pub fn poll_recv(&mut self, max: usize) -> (r: RecvPoll)
        ensures
            old(self).closed ==> (r matches RecvPoll::Closed) && *final(self) == *old(self),
            !old(self).closed ==> final(self).closed == old(self).closed && final(self).send_queue@
                == old(self).send_queue@ && final(self).local_v4 == old(self).local_v4 && final(self).local_v6 == old(self).local_v6,
            old(self).wf() ==> final(self).wf(),
            old(self).wf() ==> (r matches RecvPoll::Received(out) ==> forall|i: int|
                0 <= i < out@.len() ==> QuicMappedAddr::spec_is_mapped(
                    (#[trigger] out@[i]).1.addr,
                )),
            !old(self).closed ==> match r {
                RecvPoll::Closed => false,
                RecvPoll::Pending => (old(self).recv_queue@.len() == 0 || max == 0) && final(self).recv_waker && final(self).recv_queue@ == old(self).recv_queue@,
                RecvPoll::Error => exists|k: int|
                    #![trigger old(self).recv_queue@[k]]
                    0 <= k < old(self).recv_queue@.len() && (old(self).recv_queue@[k] matches
                        NetworkReadResult::Error) && final(self).recv_queue@ == old(
                        self,
                    ).recv_queue@.skip(k + 1),
                RecvPoll::Received(out) => {
                    &&& 1 <= out@.len() <= max
                    &&& out@.len() <= old(self).recv_queue@.len()
                    &&& final(self).recv_queue@ == old(self).recv_queue@.skip(out@.len() as int)
                    &&& forall|i: int|
                        0 <= i < out@.len() ==> match #[trigger] old(self).recv_queue@[i] {
                            NetworkReadResult::Packet { bytes, meta, .. } => out@[i].0 == bytes
                                && out@[i].1 == meta,
                            NetworkReadResult::Error => false,
                        }
                    &&& (out@.len() < max ==> out@.len() == old(self).recv_queue@.len())
                },
            },
    {
        if self.closed {
            return RecvPoll::Closed;
        }
        let mut out: Vec<(bytes::Bytes, RecvMeta)> = Vec::new();
        let mut taken: usize = 0;
        while taken < max && self.recv_queue.len() > 0
            invariant
                !self.closed,
                self.send_queue@ == old(self).send_queue@,
                self.recv_waker == old(self).recv_waker,
                self.local_v4 == old(self).local_v4,
                self.local_v6 == old(self).local_v6,
                taken <= max,
                out@.len() == taken,
                taken <= old(self).recv_queue@.len(),
                self.recv_queue@ == old(self).recv_queue@.skip(taken as int),
                forall|i: int|
                    0 <= i < taken ==> match #[trigger] old(self).recv_queue@[i] {
                        NetworkReadResult::Packet { bytes, meta, .. } => out@[i].0 == bytes
                            && out@[i].1 == meta,
                        NetworkReadResult::Error => false,
                    },
            decreases self.recv_queue@.len(),
        {
            let entry = self.recv_queue.remove(0);
            proof {
                assert(self.recv_queue@ =~= old(self).recv_queue@.skip(taken + 1));
            }
            match entry {
                NetworkReadResult::Error => {
                    proof {
                        assert(old(self).recv_queue@[taken as int] matches
                            NetworkReadResult::Error);
                        if old(self).wf() {
                            assert forall|j: int|
                                0 <= j < self.recv_queue@.len() implies Conn::recv_entry_ok(
                                #[trigger] self.recv_queue@[j],
                            ) by {
                                assert(self.recv_queue@[j] == old(self).recv_queue@[
                                    j + taken + 1]);
                            }
                        }
                    }
                    return RecvPoll::Error;
                },
                NetworkReadResult::Packet { bytes, meta, .. } => {
                    out.push((bytes, meta));
                    taken += 1;
                },
            }
        }
        proof {
            if old(self).wf() {
                assert forall|j: int|
                    0 <= j < self.recv_queue@.len() implies Conn::recv_entry_ok(
                    #[trigger] self.recv_queue@[j],
                ) by {
                    assert(self.recv_queue@[j] == old(self).recv_queue@[j + taken]);
                }
                assert forall|i: int|
                    0 <= i < out@.len() implies QuicMappedAddr::spec_is_mapped(
                    (#[trigger] out@[i]).1.addr,
                ) by {
                    assert(Conn::recv_entry_ok(old(self).recv_queue@[i]));
                }
            }
        }
        if taken > 0 {
            RecvPoll::Received(out)
        } else {
            self.recv_waker = true;
            RecvPoll::Pending
        }
    }
}

} // verus!
