//! The discovery ("disco") protocol.
//!
//! Peers probe and validate direct paths with three message kinds
//! carried in sealed boxes: a `Ping` requests a `Pong`; the `Pong`
//! echoes the ping's transaction id and tells the requester at which
//! address the ping was seen; a `CallMeMaybe` lists the sender's
//! current candidate endpoints and is only ever sent over the relay.
//!
//! On the wire a discovery payload is a fixed magic identifier, the
//! 32-byte sender public key, then the sealed box.  Sealing and opening
//! are done by the embedding code; this module defines the framing and
//! the message serialisation inside the box.

use vstd::prelude::*;

use crate::addr::{IpAddr, SockAddr};
use crate::key::{PublicKey, KEY_LEN};

verus! {

/// The byte length of a ping transaction id.
pub const TX_LEN: usize = 12;

/// The byte length of the magic identifier that opens every discovery
/// payload.
pub const MAGIC_LEN: usize = 6;

/// The magic identifier: the bytes of `"TS"` followed by the UTF-8
/// encoding of the speech-balloon character.
pub open spec fn magic() -> Seq<u8> {
    seq![0x54u8, 0x53u8, 0xf0u8, 0x9fu8, 0x92u8, 0xacu8]
}

/// Appends the magic identifier.
fn push_magic(out: &mut Vec<u8>)
    ensures
        final(out)@ == old(out)@ + magic(),
{
    out.push(0x54);
    out.push(0x53);
    out.push(0xf0);
    out.push(0x9f);
    out.push(0x92);
    out.push(0xac);
    proof {
        assert(final(out)@ =~= old(out)@ + magic());
    }
}

/// A ping transaction id: 12 bytes, drawn at random by the sender, so
/// ids are unique per endpoint with high probability.
#[derive(Debug)]
pub struct TransactionId {
    pub bytes: Vec<u8>,
}

impl View for TransactionId {
    type V = Seq<u8>;

    open spec fn view(&self) -> Seq<u8> {
        self.bytes@
    }
}

impl TransactionId {
    /// A well-formed transaction id holds exactly [`TX_LEN`] bytes.
    pub open spec fn wf(&self) -> bool {
        self.bytes@.len() == TX_LEN
    }

    pub fn new(bytes: Vec<u8>) -> (r: TransactionId)
        requires
            bytes@.len() == TX_LEN,
        ensures
            r@ == bytes@,
            r.wf(),
    {
        TransactionId { bytes }
    }
}

impl Clone for TransactionId {
    fn clone(&self) -> (r: Self)
        ensures
            r@ == self@,
    {
        let mut bytes: Vec<u8> = Vec::new();
        let mut i: usize = 0;
        while i < self.bytes.len()
            invariant
                i <= self.bytes@.len(),
                bytes@ == self.bytes@.subrange(0, i as int),
            decreases self.bytes@.len() - i,
        {
            bytes.push(self.bytes[i]);
            i += 1;
            proof {
                assert(bytes@ =~= self.bytes@.subrange(0, i as int));
            }
        }
        proof {
            assert(bytes@ =~= self.bytes@);
        }
        TransactionId { bytes }
    }
}

impl PartialEq for TransactionId {
    fn eq(&self, other: &Self) -> (r: bool) {
        let r = self.bytes == other.bytes;
        proof {
            if self.bytes@.len() == other.bytes@.len() && (forall|i: int|
                0 <= i < self.bytes@.len() ==> self.bytes@[i] == other.bytes@[i]) {
                assert(self.bytes@ =~= other.bytes@);
            }
        }
        r
    }
}

impl Eq for TransactionId {

}

impl vstd::std_specs::cmp::PartialEqSpecImpl for TransactionId {
    open spec fn obeys_eq_spec() -> bool {
        true
    }

    open spec fn eq_spec(&self, other: &Self) -> bool {
        self@ == other@
    }
}

/// A liveness probe; requests a pong with the same transaction id.
#[derive(Debug)]
pub struct Ping {
    pub tx_id: TransactionId,
}

/// The response to a ping.  `src` is the address at which the responder
/// observed the ping, which is how the requester learns its own public
/// address.
#[derive(Debug)]
pub struct Pong {
    pub tx_id: TransactionId,
    pub src: SockAddr,
}

/// Asks the peer to send UDP pings to the listed candidate endpoints.
/// Only meaningful over the relay; received over UDP it is dropped.
#[derive(Debug)]
pub struct CallMeMaybe {
    pub my_number: Vec<SockAddr>,
}

/// One discovery message.
#[derive(Debug)]
pub enum Message {
    Ping(Ping),
    Pong(Pong),
    CallMeMaybe(CallMeMaybe),
}

/// Frames a sealed box for the wire: the magic identifier, the sender's
/// public key, then the box.
pub fn encode_message(src: &PublicKey, sealed: &Vec<u8>) -> (r: Vec<u8>)
    requires
        src.wf(),
    ensures
        r@ == magic() + src@ + sealed@,
{
    let mut out: Vec<u8> = Vec::new();
    push_magic(&mut out);
    let mut i: usize = 0;
    while i < src.bytes.len()
        invariant
            i <= src.bytes@.len(),
            out@ == magic() + src.bytes@.subrange(0, i as int),
        decreases src.bytes@.len() - i,
    {
        out.push(src.bytes[i]);
        i += 1;
        proof {
            assert(out@ =~= magic() + src.bytes@.subrange(0, i as int));
        }
    }
    proof {
        assert(out@ =~= magic() + src@);
    }
    let mut k: usize = 0;
    while k < sealed.len()
        invariant
            k <= sealed@.len(),
            out@ == magic() + src@ + sealed@.subrange(0, k as int),
        decreases sealed@.len() - k,
    {
        out.push(sealed[k]);
        k += 1;
        proof {
            assert(out@ =~= magic() + src@ + sealed@.subrange(0, k as int));
        }
    }
    proof {
        assert(out@ =~= magic() + src@ + sealed@);
    }
    out
}

/// Whether `data` is a framed discovery payload: long enough and
/// opening with the magic identifier.
pub open spec fn is_disco_frame(data: Seq<u8>) -> bool {
    &&& data.len() >= MAGIC_LEN + KEY_LEN
    &&& data.subrange(0, MAGIC_LEN as int) == magic()
}

/// Takes a framed payload apart into the sender key and the sealed
/// box, or reports that the payload is not a discovery frame.
pub fn source_and_box(data: &Vec<u8>) -> (r: Option<(PublicKey, Vec<u8>)>)
    ensures
        match r {
            Some(p) => {
                &&& is_disco_frame(data@)
                &&& p.0@ == data@.subrange(MAGIC_LEN as int, (MAGIC_LEN + KEY_LEN) as int)
                &&& p.0.wf()
                &&& p.1@ == data@.skip((MAGIC_LEN + KEY_LEN) as int)
            },
            None => !is_disco_frame(data@),
        },
{
    if data.len() < MAGIC_LEN + KEY_LEN {
        return None;
    }
    let mut i: usize = 0;
    let magic_bytes: Vec<u8> = {
        let mut m: Vec<u8> = Vec::new();
        push_magic(&mut m);
        m
    };
    proof {
        assert(magic_bytes@ =~= magic());
    }
    while i < MAGIC_LEN
        invariant
            i <= MAGIC_LEN,
            magic_bytes@ == magic(),
            data@.len() >= MAGIC_LEN + KEY_LEN,
            forall|j: int| 0 <= j < i ==> data@[j] == magic()[j],
        decreases MAGIC_LEN - i,
    {
        if data[i] != magic_bytes[i] {
            proof {
                assert(data@.subrange(0, MAGIC_LEN as int)[i as int] != magic()[i as int]);
            }
            return None;
        }
        i += 1;
    }
    proof {
        assert(data@.subrange(0, MAGIC_LEN as int) =~= magic());
    }
    let mut key_bytes: Vec<u8> = Vec::new();
    let mut k: usize = MAGIC_LEN;
    while k < MAGIC_LEN + KEY_LEN
        invariant
            MAGIC_LEN <= k <= MAGIC_LEN + KEY_LEN,
            data@.len() >= MAGIC_LEN + KEY_LEN,
            key_bytes@ == data@.subrange(MAGIC_LEN as int, k as int),
        decreases MAGIC_LEN + KEY_LEN - k,
    {
        key_bytes.push(data[k]);
        k += 1;
        proof {
            assert(key_bytes@ =~= data@.subrange(MAGIC_LEN as int, k as int));
        }
    }
    let mut sealed: Vec<u8> = Vec::new();
    let mut s: usize = MAGIC_LEN + KEY_LEN;
    while s < data.len()
        invariant
            MAGIC_LEN + KEY_LEN <= s <= data@.len(),
            sealed@ == data@.subrange((MAGIC_LEN + KEY_LEN) as int, s as int),
        decreases data@.len() - s,
    {
        sealed.push(data[s]);
        s += 1;
        proof {
            assert(sealed@ =~= data@.subrange((MAGIC_LEN + KEY_LEN) as int, s as int));
        }
    }
    proof {
        assert(sealed@ =~= data@.skip((MAGIC_LEN + KEY_LEN) as int));
    }
    Some((PublicKey::new(key_bytes), sealed))
}

/// The big-endian bytes of `v`, `n` bytes long, truncating above
/// 256^n.
pub open spec fn be_bytes(v: int, n: nat) -> Seq<u8>
    decreases n,
{
    if n == 0 {
        Seq::empty()
    } else {
        be_bytes(v / 256, (n - 1) as nat).push((v % 256) as u8)
    }
}

/// The integer the big-endian bytes `s` encode.
pub open spec fn de_bytes(s: Seq<u8>) -> int
    decreases s.len(),
{
    if s.len() == 0 {
        0
    } else {
        de_bytes(s.drop_last()) * 256 + s.last()
    }
}

/// 256 to the `n`.
pub open spec fn pow256(n: nat) -> int
    decreases n,
{
    if n == 0 {
        1
    } else {
        256 * pow256((n - 1) as nat)
    }
}

/// Big-endian encodings have their stated length.
pub proof fn lemma_be_bytes_len(v: int, n: nat)
    ensures
        be_bytes(v, n).len() == n,
    decreases n,
{
    if n > 0 {
        lemma_be_bytes_len(v / 256, (n - 1) as nat);
    }
}

/// Decoding inverts encoding for values in range.
pub proof fn lemma_be_de(v: int, n: nat)
    requires
        0 <= v < pow256(n),
    ensures
        de_bytes(be_bytes(v, n)) == v,
    decreases n,
{
    if n == 0 {
    } else {
        let hi = v / 256;
        let lo = v % 256;
        assert(0 <= hi < pow256((n - 1) as nat)) by (nonlinear_arith)
            requires 0 <= v < 256 * pow256((n - 1) as nat) && hi == v / 256 && pow256((n - 1) as nat) > 0;
        lemma_be_de(hi, (n - 1) as nat);
        lemma_be_bytes_len(hi, (n - 1) as nat);
        let b = be_bytes(v, n);
        assert(b.drop_last() =~= be_bytes(hi, (n - 1) as nat));
        assert(hi * 256 + lo == v) by (nonlinear_arith)
            requires hi == v / 256 && lo == v % 256 && v >= 0;
    }
}

/// Every decoded value is in range.
pub proof fn lemma_de_bytes_bound(s: Seq<u8>)
    ensures
        0 <= de_bytes(s) < pow256(s.len()),
    decreases s.len(),
{
    if s.len() == 0 {
    } else {
        lemma_de_bytes_bound(s.drop_last());
        assert(de_bytes(s.drop_last()) * 256 + s.last() < pow256(s.len())) by (nonlinear_arith)
            requires 0 <= de_bytes(s.drop_last()) < pow256((s.len() - 1) as nat) && s.last() < 256
                && pow256(s.len()) == 256 * pow256((s.len() - 1) as nat);
    }
}

/// Appends the `n`-byte big-endian form of `v`.
fn push_be(out: &mut Vec<u8>, v: u128, n: usize)
    requires
        n <= 16,
    ensures
        final(out)@ == old(out)@ + be_bytes(v as int, n as nat),
    decreases n,
{
    if n == 0 {
        proof {
            assert(final(out)@ =~= old(out)@ + be_bytes(v as int, 0));
        }
        return ;
    }
    push_be(out, v / 256, n - 1);
    out.push((v % 256) as u8);
    proof {
        assert(final(out)@ =~= old(out)@ + be_bytes(v as int, n as nat));
    }
}

/// Reads the `n`-byte big-endian integer at `start`.
#[verifier::loop_isolation(false)]
fn read_be(data: &Vec<u8>, start: usize, n: usize) -> (r: u128)
    requires
        n <= 16,
        start + n <= data@.len(),
    ensures
        r as int == de_bytes(data@.subrange(start as int, (start + n) as int)),
{
    let mut acc: u128 = 0;
    let mut i: usize = 0;
    proof {
        vstd::std_specs::vec::axiom_spec_len(data);
        assert(data@.subrange(start as int, start as int) =~= Seq::<u8>::empty());
        reveal_with_fuel(pow256, 17);
    }
    while i < n
        invariant
            i <= n,
            acc as int == de_bytes(data@.subrange(start as int, (start + i) as int)),
            (acc as int) < pow256(i as nat),
        decreases n - i,
    {
        proof {
            lemma_de_bytes_bound(data@.subrange(start as int, (start + i) as int));
            let sub2 = data@.subrange(start as int, (start + i + 1) as int);
            assert(sub2.drop_last() =~= data@.subrange(start as int, (start + i) as int));
            assert(sub2.last() == data@[(start + i) as int]);
            assert((acc as int) * 256 + data@[(start + i) as int] < pow256((i + 1) as nat)) by (nonlinear_arith)
                requires 0 <= (acc as int) && (acc as int) < pow256(i as nat) && data@[(start
                    + i) as int] < 256 && pow256((i + 1) as nat) == 256 * pow256(i as nat);
            assert(pow256((i + 1) as nat) <= pow256(16)) by {
                lemma_pow256_increases((i + 1) as nat, 16);
            }
            assert(pow256(16) == 0x1_0000_0000_0000_0000_0000_0000_0000_0000) by {
                reveal_with_fuel(pow256, 17);
            }
        }
        acc = acc * 256 + (data[start + i] as u128);
        i += 1;
    }
    acc
}

/// Larger exponents give no smaller powers.
pub proof fn lemma_pow256_increases(a: nat, b: nat)
    requires
        a <= b,
    ensures
        pow256(a) <= pow256(b),
    decreases b,
{
    if a < b {
        lemma_pow256_increases(a, (b - 1) as nat);
        lemma_pow256_pos((b - 1) as nat);
        assert(pow256(b) == 256 * pow256((b - 1) as nat));
        assert(pow256((b - 1) as nat) <= 256 * pow256((b - 1) as nat)) by (nonlinear_arith)
            requires pow256((b - 1) as nat) >= 1;
    }
}

/// Powers of 256 are positive.
pub proof fn lemma_pow256_pos(n: nat)
    ensures
        pow256(n) >= 1,
    decreases n,
{
    if n > 0 {
        lemma_pow256_pos((n - 1) as nat);
    }
}

/// The wire form of one socket address: a family tag, the address
/// bytes big-endian, then the port big-endian.
pub open spec fn enc_addr(a: SockAddr) -> Seq<u8> {
    match a.ip {
        IpAddr::V4(v) => seq![4u8] + be_bytes(v as int, 4) + be_bytes(a.port as int, 2),
        IpAddr::V6(v) => seq![6u8] + be_bytes(v as int, 16) + be_bytes(a.port as int, 2),
    }
}

/// The wire form of an address list: the concatenation of the
/// addresses.
pub open spec fn enc_addrs(s: Seq<SockAddr>) -> Seq<u8>
    decreases s.len(),
{
    if s.len() == 0 {
        Seq::empty()
    } else {
        enc_addr(s[0]) + enc_addrs(s.drop_first())
    }
}

/// Message type tags.
pub const TAG_PING: u8 = 1;

pub const TAG_PONG: u8 = 2;

pub const TAG_CALL_ME_MAYBE: u8 = 3;

/// The wire version every message carries.
pub const MSG_VERSION: u8 = 0;

/// The wire form of a message: its type tag and version, then the
/// payload — the transaction id for a ping; the transaction id and
/// observed address for a pong; the candidate addresses for a
/// call-me-maybe.
pub open spec fn enc_msg(m: Message) -> Seq<u8> {
    match m {
        Message::Ping(p) => seq![TAG_PING, MSG_VERSION] + p.tx_id@,
        Message::Pong(p) => seq![TAG_PONG, MSG_VERSION] + p.tx_id@ + enc_addr(p.src),
        Message::CallMeMaybe(cm) => seq![TAG_CALL_ME_MAYBE, MSG_VERSION] + enc_addrs(
            cm.my_number@,
        ),
    }
}

/// A message whose transaction id, if it has one, is well formed.
pub open spec fn msg_wf(m: Message) -> bool {
    match m {
        Message::Ping(p) => p.tx_id.wf(),
        Message::Pong(p) => p.tx_id.wf(),
        Message::CallMeMaybe(_) => true,
    }
}

impl Message {
    /// Serialises the message for sealing.
    pub fn as_bytes(&self) -> (r: Vec<u8>)
        requires
            msg_wf(*self),
        ensures
            r@ == enc_msg(*self),
    {
        let mut out: Vec<u8> = Vec::new();
        match self {
            Message::Ping(p) => {
                out.push(TAG_PING);
                out.push(MSG_VERSION);
                push_tx(&mut out, &p.tx_id);
                proof {
                    assert(out@ =~= enc_msg(*self));
                }
            },
            Message::Pong(p) => {
                out.push(TAG_PONG);
                out.push(MSG_VERSION);
                push_tx(&mut out, &p.tx_id);
                push_addr(&mut out, p.src);
                proof {
                    assert(out@ =~= enc_msg(*self));
                }
            },
            Message::CallMeMaybe(cm) => {
                out.push(TAG_CALL_ME_MAYBE);
                out.push(MSG_VERSION);
                push_addrs(&mut out, &cm.my_number, 0);
                proof {
                    assert(cm.my_number@.skip(0) =~= cm.my_number@);
                    assert(out@ =~= enc_msg(*self));
                }
            },
        }
        out
    }
}

/// Appends a transaction id.
fn push_tx(out: &mut Vec<u8>, tx: &TransactionId)
    ensures
        final(out)@ == old(out)@ + tx@,
{
    let mut i: usize = 0;
    while i < tx.bytes.len()
        invariant
            i <= tx.bytes@.len(),
            out@ == old(out)@ + tx.bytes@.subrange(0, i as int),
        decreases tx.bytes@.len() - i,
    {
        out.push(tx.bytes[i]);
        i += 1;
        proof {
            assert(out@ =~= old(out)@ + tx.bytes@.subrange(0, i as int));
        }
    }
    proof {
        assert(final(out)@ =~= old(out)@ + tx@);
    }
}

/// Appends the wire form of one address.
fn push_addr(out: &mut Vec<u8>, a: SockAddr)
    ensures
        final(out)@ == old(out)@ + enc_addr(a),
{
    match a.ip {
        IpAddr::V4(v) => {
            out.push(4);
            push_be(out, v as u128, 4);
            push_be(out, a.port as u128, 2);
            proof {
                assert(be_bytes(v as u128 as int, 4) == be_bytes(v as int, 4));
                assert(final(out)@ =~= old(out)@ + enc_addr(a));
            }
        },
        IpAddr::V6(v) => {
            out.push(6);
            push_be(out, v, 16);
            push_be(out, a.port as u128, 2);
            proof {
                assert(final(out)@ =~= old(out)@ + enc_addr(a));
            }
        },
    }
}

/// Appends the wire form of `addrs[i..]`.
fn push_addrs(out: &mut Vec<u8>, addrs: &Vec<SockAddr>, i: usize)
    requires
        i <= addrs@.len(),
    ensures
        final(out)@ == old(out)@ + enc_addrs(addrs@.skip(i as int)),
    decreases addrs@.len() - i,
{
    if i == addrs.len() {
        proof {
            assert(final(out)@ =~= old(out)@ + enc_addrs(addrs@.skip(i as int)));
        }
        return ;
    }
    proof {
        assert(addrs@.skip(i as int).drop_first() =~= addrs@.skip(i + 1));
        assert(addrs@.skip(i as int)[0] == addrs@[i as int]);
    }
    push_addr(out, addrs[i]);
    push_addrs(out, addrs, i + 1);
    proof {
        assert(final(out)@ =~= old(out)@ + enc_addrs(addrs@.skip(i as int)));
    }
}

/// Encoding inverts decoding: any byte string is the encoding of its
/// decoded value.
pub proof fn lemma_de_be(s: Seq<u8>)
    ensures
        be_bytes(de_bytes(s), s.len()) == s,
    decreases s.len(),
{
    if s.len() == 0 {
        assert(be_bytes(de_bytes(s), 0) =~= s);
    } else {
        let v = de_bytes(s);
        let a = de_bytes(s.drop_last());
        lemma_de_bytes_bound(s.drop_last());
        assert(v / 256 == a && v % 256 == s.last()) by (nonlinear_arith)
            requires v == a * 256 + s.last() && 0 <= s.last() < 256 && a >= 0;
        lemma_de_be(s.drop_last());
        assert(be_bytes(v, s.len()) =~= s);
    }
}

/// What the start of an address-list encoding determines: the first
/// address and where the rest begins are fixed by the bytes alone.
pub proof fn lemma_enc_addrs_head(s: Seq<SockAddr>, t: Seq<u8>)
    requires
        s.len() > 0,
        enc_addrs(s) == t,
    ensures
        t.len() >= 7,
        t[0] == 4 || t[0] == 6,
        t[0] == 4 ==> s[0] == (SockAddr {
            ip: IpAddr::V4(de_bytes(t.subrange(1, 5)) as u32),
            port: de_bytes(t.subrange(5, 7)) as u16,
        }) && enc_addrs(s.drop_first()) == t.skip(7),
        t[0] == 6 ==> t.len() >= 19 && s[0] == (SockAddr {
            ip: IpAddr::V6(de_bytes(t.subrange(1, 17)) as u128),
            port: de_bytes(t.subrange(17, 19)) as u16,
        }) && enc_addrs(s.drop_first()) == t.skip(19),
{
    let rest = enc_addrs(s.drop_first());
    match s[0].ip {
        IpAddr::V4(v) => {
            lemma_be_bytes_len(v as int, 4);
            lemma_be_bytes_len(s[0].port as int, 2);
            assert(t =~= seq![4u8] + be_bytes(v as int, 4) + be_bytes(s[0].port as int, 2)
                + rest);
            assert(t.subrange(1, 5) =~= be_bytes(v as int, 4));
            assert(t.subrange(5, 7) =~= be_bytes(s[0].port as int, 2));
            assert(pow256(4) == 0x1_0000_0000 && pow256(2) == 0x1_0000) by {
                reveal_with_fuel(pow256, 5);
            }
            lemma_be_de(v as int, 4);
            lemma_be_de(s[0].port as int, 2);
            assert(t.skip(7) =~= rest);
        },
        IpAddr::V6(v) => {
            lemma_be_bytes_len(v as int, 16);
            lemma_be_bytes_len(s[0].port as int, 2);
            assert(t =~= seq![6u8] + be_bytes(v as int, 16) + be_bytes(s[0].port as int, 2)
                + rest);
            assert(t.subrange(1, 17) =~= be_bytes(v as int, 16));
            assert(t.subrange(17, 19) =~= be_bytes(s[0].port as int, 2));
            assert(pow256(16) == 0x1_0000_0000_0000_0000_0000_0000_0000_0000 && pow256(2)
                == 0x1_0000) by {
                reveal_with_fuel(pow256, 17);
            }
            lemma_be_de(v as int, 16);
            lemma_be_de(s[0].port as int, 2);
            assert(t.skip(19) =~= rest);
        },
    }
}

/// Copies `data[start..start + n]` out.
#[verifier::loop_isolation(false)]
fn copy_range(data: &Vec<u8>, start: usize, n: usize) -> (r: Vec<u8>)
    requires
        start + n <= data@.len(),
    ensures
        r@ == data@.subrange(start as int, (start + n) as int),
{
    let mut out: Vec<u8> = Vec::new();
    let mut i: usize = 0;
    proof {
        vstd::std_specs::vec::axiom_spec_len(data);
    }
    while i < n
        invariant
            i <= n,
            out@ == data@.subrange(start as int, (start + i) as int),
        decreases n - i,
    {
        out.push(data[start + i]);
        i += 1;
        proof {
            assert(out@ =~= data@.subrange(start as int, (start + i) as int));
        }
    }
    out
}

/// Parses a serialised message.  The result, when there is one, is a
/// well-formed message that re-encodes to exactly the input; when
/// there is none, no well-formed message encodes to the input — a
/// malformed payload is dropped, never misread.
#[verifier::loop_isolation(false)]
#[verifier::rlimit(100)]
pub fn parse_message(data: &Vec<u8>) -> (r: Option<Message>)
    ensures
        match r {
            Some(m) => msg_wf(m) && enc_msg(m) == data@,
            None => forall|m: Message| msg_wf(m) ==> #[trigger] enc_msg(m) != data@,
        },
{
    proof {
        vstd::std_specs::vec::axiom_spec_len(data);
    }
    if data.len() < 2 {
        proof {
            assert forall|m: Message| msg_wf(m) implies #[trigger] enc_msg(m) != data@ by {
                lemma_enc_msg_len(m);
            }
        }
        return None;
    }
    let tag = data[0];
    let version = data[1];
    if version != MSG_VERSION {
        proof {
            assert forall|m: Message| msg_wf(m) implies #[trigger] enc_msg(m) != data@ by {
                assert(enc_msg(m)[1] == MSG_VERSION);
            }
        }
        return None;
    }
    if tag == TAG_PING {
        if data.len() != 2 + TX_LEN {
            proof {
                assert forall|m: Message| msg_wf(m) implies #[trigger] enc_msg(m) != data@ by {
                    lemma_enc_msg_len(m);
                    assert(enc_msg(m)[0] == TAG_PING ==> enc_msg(m).len() == 2 + TX_LEN);
                }
            }
            return None;
        }
        let tx = TransactionId::new(copy_range(data, 2, TX_LEN));
        let m = Message::Ping(Ping { tx_id: tx });
        proof {
            assert(enc_msg(m) =~= data@);
        }
        return Some(m);
    }
    if tag == TAG_PONG {
        if data.len() < 2 + TX_LEN + 7 {
            proof {
                assert forall|m: Message| msg_wf(m) implies #[trigger] enc_msg(m) != data@ by {
                    lemma_enc_msg_len(m);
                }
            }
            return None;
        }
        let tx = TransactionId::new(copy_range(data, 2, TX_LEN));
        let atag = data[2 + TX_LEN];
        if atag == 4 {
            if data.len() != 2 + TX_LEN + 7 {
                proof {
                    assert forall|m: Message| msg_wf(m) implies #[trigger] enc_msg(m)
                        != data@ by {
                        lemma_enc_msg_len(m);
                        match m {
                            Message::Pong(p) => {
                                if enc_msg(m) == data@ {
                                    lemma_pong_shape(p, data@);
                                }
                            },
                            _ => {
                            },
                        }
                    }
                }
                return None;
            }
            let ip = read_be(data, 2 + TX_LEN + 1, 4) as u32;
            let port = read_be(data, 2 + TX_LEN + 5, 2) as u16;
            let src = SockAddr { ip: IpAddr::V4(ip), port };
            let m = Message::Pong(Pong { tx_id: tx, src });
            proof {
                assert(pow256(4) == 0x1_0000_0000 && pow256(2) == 0x1_0000) by {
                    reveal_with_fuel(pow256, 5);
                }
                lemma_de_bytes_bound(data@.subrange(15, 19));
                lemma_de_bytes_bound(data@.subrange(19, 21));
                lemma_de_be(data@.subrange(15, 19));
                lemma_de_be(data@.subrange(19, 21));
                assert(enc_msg(m) =~= data@);
            }
            return Some(m);
        }
        if atag == 6 {
            if data.len() != 2 + TX_LEN + 19 {
                proof {
                    assert forall|m: Message| msg_wf(m) implies #[trigger] enc_msg(m)
                        != data@ by {
                        lemma_enc_msg_len(m);
                        match m {
                            Message::Pong(p) => {
                                if enc_msg(m) == data@ {
                                    lemma_pong_shape(p, data@);
                                }
                            },
                            _ => {
                            },
                        }
                    }
                }
                return None;
            }
            let ip = read_be(data, 2 + TX_LEN + 1, 16);
            let port = read_be(data, 2 + TX_LEN + 17, 2) as u16;
            let src = SockAddr { ip: IpAddr::V6(ip), port };
            let m = Message::Pong(Pong { tx_id: tx, src });
            proof {
                assert(pow256(16) == 0x1_0000_0000_0000_0000_0000_0000_0000_0000 && pow256(2)
                    == 0x1_0000) by {
                    reveal_with_fuel(pow256, 17);
                }
                lemma_de_bytes_bound(data@.subrange(15, 31));
                lemma_de_bytes_bound(data@.subrange(31, 33));
                lemma_de_be(data@.subrange(15, 31));
                lemma_de_be(data@.subrange(31, 33));
                assert(enc_msg(m) =~= data@);
            }
            return Some(m);
        }
        proof {
            assert forall|m: Message| msg_wf(m) implies #[trigger] enc_msg(m) != data@ by {
                lemma_enc_msg_len(m);
                match m {
                    Message::Pong(p) => {
                        if enc_msg(m) == data@ {
                            lemma_pong_shape(p, data@);
                        }
                    },
                    _ => {
                    },
                }
            }
        }
        return None;
    }
    if tag == TAG_CALL_ME_MAYBE {
        let mut addrs: Vec<SockAddr> = Vec::new();
        let mut pos: usize = 2;
        proof {
            assert(enc_addrs(addrs@) =~= data@.subrange(2, 2));
            assert forall|s2: Seq<SockAddr>| #[trigger] enc_addrs(s2) == data@.skip(2) implies
                s2.len() >= addrs@.len() && s2.subrange(0, addrs@.len() as int) == addrs@
                && enc_addrs(s2.skip(addrs@.len() as int)) == data@.skip(2) by {
                assert(s2.skip(0) =~= s2);
                assert(s2.subrange(0, 0) =~= addrs@);
            }
        }
        loop
            invariant
                2 <= pos <= data@.len(),
                data@.len() >= 2,
                data@[0] == TAG_CALL_ME_MAYBE,
                data@[1] == MSG_VERSION,
                enc_addrs(addrs@) == data@.subrange(2, pos as int),
                forall|s: Seq<SockAddr>| #[trigger] enc_addrs(s) == data@.skip(2) ==> s.len()
                    >= addrs@.len() && s.subrange(0, addrs@.len() as int) == addrs@ && enc_addrs(
                    s.skip(addrs@.len() as int),
                ) == data@.skip(pos as int),
            decreases data@.len() - pos,
        {
            if pos == data.len() {
                let m = Message::CallMeMaybe(CallMeMaybe { my_number: addrs });
                proof {
                    assert(data@.subrange(2, pos as int) =~= data@.skip(2));
                    assert(enc_msg(m) =~= data@);
                }
                return Some(m);
            }
            let atag = data[pos];
            let room = data.len() - pos;
            if atag == 4 && room >= 7 {
                let ip = read_be(data, pos + 1, 4) as u32;
                let port = read_be(data, pos + 5, 2) as u16;
                let a = SockAddr { ip: IpAddr::V4(ip), port };
                proof {
                    lemma_cmm_step(data@, pos as int, addrs@, a);
                }
                addrs.push(a);
                pos = pos + 7;
            } else if atag == 6 && room >= 19 {
                let ip = read_be(data, pos + 1, 16);
                let port = read_be(data, pos + 17, 2) as u16;
                let a = SockAddr { ip: IpAddr::V6(ip), port };
                proof {
                    lemma_cmm_step(data@, pos as int, addrs@, a);
                }
                addrs.push(a);
                pos = pos + 19;
            } else {
                proof {
                    assert forall|m: Message| msg_wf(m) implies #[trigger] enc_msg(m)
                        != data@ by {
                        match m {
                            Message::CallMeMaybe(cm) => {
                                if enc_msg(m) == data@ {
                                    assert(enc_addrs(cm.my_number@) =~= data@.skip(2));
                                    let s2 = cm.my_number@.skip(addrs@.len() as int);
                                    assert(enc_addrs(s2) == data@.skip(pos as int));
                                    if s2.len() > 0 {
                                        lemma_enc_addrs_head(s2, data@.skip(pos as int));
                                        assert(data@.skip(pos as int)[0] == data@[pos as int]);
                                    } else {
                                        assert(enc_addrs(s2).len() == 0);
                                        assert(data@.skip(pos as int).len() > 0);
                                    }
                                }
                            },
                            _ => {
                            },
                        }
                    }
                }
                return None;
            }
        }
    }
    proof {
        assert forall|m: Message| msg_wf(m) implies #[trigger] enc_msg(m) != data@ by {
            assert(enc_msg(m)[0] == TAG_PING || enc_msg(m)[0] == TAG_PONG || enc_msg(m)[0]
                == TAG_CALL_ME_MAYBE);
        }
    }
    None
}

/// The length every message kind encodes to: at least the tag and
/// version; exactly the header and id for a ping; the header, id and
/// one address form for a pong.
proof fn lemma_enc_msg_len(m: Message)
    requires
        msg_wf(m),
    ensures
        enc_msg(m).len() >= 2,
        enc_msg(m)[1] == MSG_VERSION,
        m matches Message::Ping(_) ==> enc_msg(m).len() == 2 + TX_LEN && enc_msg(m)[0]
            == TAG_PING,
        m matches Message::Pong(_) ==> (enc_msg(m).len() == 2 + TX_LEN + 7 || enc_msg(m).len()
            == 2 + TX_LEN + 19) && enc_msg(m)[0] == TAG_PONG,
        m matches Message::CallMeMaybe(_) ==> enc_msg(m)[0] == TAG_CALL_ME_MAYBE,
{
    match m {
        Message::Ping(p) => {
        },
        Message::Pong(p) => {
            match p.src.ip {
                IpAddr::V4(v) => {
                    lemma_be_bytes_len(v as int, 4);
                    lemma_be_bytes_len(p.src.port as int, 2);
                },
                IpAddr::V6(v) => {
                    lemma_be_bytes_len(v as int, 16);
                    lemma_be_bytes_len(p.src.port as int, 2);
                },
            }
        },
        Message::CallMeMaybe(_) => {
        },
    }
}

/// The family tag of an encoded pong pins its length and address.
proof fn lemma_pong_shape(p: Pong, data: Seq<u8>)
    requires
        p.tx_id.wf(),
        enc_msg(Message::Pong(p)) == data,
    ensures
        data.len() >= 2 + TX_LEN + 7,
        data[(2 + TX_LEN) as int] == 4 ==> data.len() == 2 + TX_LEN + 7 && p.src.ip is V4,
        data[(2 + TX_LEN) as int] == 6 ==> data.len() == 2 + TX_LEN + 19 && p.src.ip is V6,
        data[(2 + TX_LEN) as int] == 4 || data[(2 + TX_LEN) as int] == 6,
{
    match p.src.ip {
        IpAddr::V4(v) => {
            lemma_be_bytes_len(v as int, 4);
            lemma_be_bytes_len(p.src.port as int, 2);
            assert(data[(2 + TX_LEN) as int] == enc_addr(p.src)[0]);
        },
        IpAddr::V6(v) => {
            lemma_be_bytes_len(v as int, 16);
            lemma_be_bytes_len(p.src.port as int, 2);
            assert(data[(2 + TX_LEN) as int] == enc_addr(p.src)[0]);
        },
    }
}

/// One parsing step of a call-me-maybe address list: the decoded
/// address extends both the soundness and the completeness facts.
#[verifier::rlimit(100)]
proof fn lemma_cmm_step(data: Seq<u8>, pos: int, addrs: Seq<SockAddr>, a: SockAddr)
    requires
        2 <= pos < data.len(),
        enc_addrs(addrs) == data.subrange(2, pos),
        forall|s: Seq<SockAddr>| #[trigger] enc_addrs(s) == data.skip(2) ==> s.len()
            >= addrs.len() && s.subrange(0, addrs.len() as int) == addrs && enc_addrs(
            s.skip(addrs.len() as int),
        ) == data.skip(pos),
        (a.ip is V4 && data[pos] == 4 && data.len() - pos >= 7 && a == (SockAddr {
            ip: IpAddr::V4(de_bytes(data.subrange(pos + 1, pos + 5)) as u32),
            port: de_bytes(data.subrange(pos + 5, pos + 7)) as u16,
        })) || (a.ip is V6 && data[pos] == 6 && data.len() - pos >= 19 && a == (SockAddr {
            ip: IpAddr::V6(de_bytes(data.subrange(pos + 1, pos + 17)) as u128),
            port: de_bytes(data.subrange(pos + 17, pos + 19)) as u16,
        })),
    ensures
        a.ip is V4 ==> enc_addrs(addrs.push(a)) == data.subrange(2, pos + 7),
        a.ip is V6 ==> enc_addrs(addrs.push(a)) == data.subrange(2, pos + 19),
        forall|s: Seq<SockAddr>| #[trigger] enc_addrs(s) == data.skip(2) ==> s.len() >= addrs.len()
            + 1 && s.subrange(0, addrs.len() as int + 1) == addrs.push(a) && enc_addrs(
            s.skip(addrs.len() as int + 1),
        ) == data.skip(pos + (if a.ip is V4 { 7int } else { 19 })),
{
    let step: int = if a.ip is V4 {
        7
    } else {
        19
    };
    let tail = data.skip(pos);
    assert(enc_addr(a) =~= tail.subrange(0, step)) by {
        if a.ip is V4 {
            let v = de_bytes(data.subrange(pos + 1, pos + 5));
            let pt = de_bytes(data.subrange(pos + 5, pos + 7));
            lemma_de_bytes_bound(data.subrange(pos + 1, pos + 5));
            lemma_de_bytes_bound(data.subrange(pos + 5, pos + 7));
            assert(pow256(4) == 0x1_0000_0000 && pow256(2) == 0x1_0000) by {
                reveal_with_fuel(pow256, 5);
            }
            lemma_de_be(data.subrange(pos + 1, pos + 5));
            lemma_de_be(data.subrange(pos + 5, pos + 7));
            assert(tail.subrange(0, 7) =~= seq![data[pos]] + data.subrange(pos + 1, pos + 5)
                + data.subrange(pos + 5, pos + 7));
        } else {
            let v = de_bytes(data.subrange(pos + 1, pos + 17));
            let pt = de_bytes(data.subrange(pos + 17, pos + 19));
            lemma_de_bytes_bound(data.subrange(pos + 1, pos + 17));
            lemma_de_bytes_bound(data.subrange(pos + 17, pos + 19));
            assert(pow256(16) == 0x1_0000_0000_0000_0000_0000_0000_0000_0000 && pow256(2)
                == 0x1_0000) by {
                reveal_with_fuel(pow256, 17);
            }
            lemma_de_be(data.subrange(pos + 1, pos + 17));
            lemma_de_be(data.subrange(pos + 17, pos + 19));
            assert(tail.subrange(0, 19) =~= seq![data[pos]] + data.subrange(pos + 1, pos + 17)
                + data.subrange(pos + 17, pos + 19));
        }
    }
    lemma_enc_addrs_snoc(addrs, a);
    assert(enc_addrs(addrs.push(a)) =~= data.subrange(2, pos + step));
    assert forall|s: Seq<SockAddr>| #[trigger] enc_addrs(s) == data.skip(2) implies s.len()
        >= addrs.len() + 1 && s.subrange(0, addrs.len() as int + 1) == addrs.push(a) && enc_addrs(
        s.skip(addrs.len() as int + 1),
    ) == data.skip(pos + step) by {
        let s2 = s.skip(addrs.len() as int);
        assert(enc_addrs(s2) == data.skip(pos));
        assert(tail.len() > 0);
        if s2.len() == 0 {
            assert(enc_addrs(s2).len() == 0);
            assert(false);
        }
        lemma_enc_addrs_head(s2, tail);
        assert(tail[0] == data[pos]);
        if a.ip is V4 {
            assert(tail.subrange(1, 5) =~= data.subrange(pos + 1, pos + 5));
            assert(tail.subrange(5, 7) =~= data.subrange(pos + 5, pos + 7));
        } else {
            assert(tail.subrange(1, 17) =~= data.subrange(pos + 1, pos + 17));
            assert(tail.subrange(17, 19) =~= data.subrange(pos + 17, pos + 19));
        }
        assert(s2[0] == a);
        assert(enc_addrs(s2.drop_first()) == tail.skip(step));
        assert(tail.skip(step) =~= data.skip(pos + step));
        assert(s2.drop_first() =~= s.skip(addrs.len() as int + 1));
        assert(s.subrange(0, addrs.len() as int + 1) =~= addrs.push(a)) by {
            assert(s.subrange(0, addrs.len() as int) == addrs);
            assert(s[addrs.len() as int] == s2[0]);
        }
    }
}

/// Appending one address appends its encoding.
proof fn lemma_enc_addrs_snoc(s: Seq<SockAddr>, a: SockAddr)
    ensures
        enc_addrs(s.push(a)) == enc_addrs(s) + enc_addr(a),
    decreases s.len(),
{
    if s.len() == 0 {
        assert(s.push(a)[0] == a);
        assert(s.push(a).drop_first() =~= Seq::<SockAddr>::empty());
        assert(enc_addrs(s.push(a)) == enc_addr(a) + enc_addrs(Seq::<SockAddr>::empty()));
        assert(enc_addrs(s.push(a)) =~= enc_addrs(s) + enc_addr(a));
    } else {
        assert(s.push(a)[0] == s[0]);
        assert(s.push(a).drop_first() =~= s.drop_first().push(a));
        lemma_enc_addrs_snoc(s.drop_first(), a);
        assert(enc_addrs(s.push(a)) =~= enc_addrs(s) + enc_addr(a));
    }
}

} // verus!
