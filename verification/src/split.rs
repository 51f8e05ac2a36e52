//! Splitting relay frames into datagrams.
//!
//! A frame received from a relay carries several UDP-sized items, each
//! prefixed with its length as a little-endian 16-bit integer.  The
//! splitter yields each item exactly once in order; a length that runs
//! past the end of the frame is a protocol error that ends the
//! iteration with exactly one terminal error.

use vstd::prelude::*;

use crate::buf::{bytes_at, bytes_clear, bytes_data, bytes_len, bytes_split_to};

verus! {

/// The integer a little-endian two-byte length prefix encodes.
pub open spec fn le16(lo: u8, hi: u8) -> int {
    lo + 256 * hi
}

/// The items that splitting `data` yields, in order.  A trailing
/// fragment that no complete item covers yields nothing further.
pub open spec fn split_items(data: Seq<u8>) -> Seq<Seq<u8>>
    decreases data.len(),
{
    if data.len() < 2 {
        Seq::empty()
    } else {
        let n = le16(data[0], data[1]);
        if data.len() - 2 < n {
            Seq::empty()
        } else {
            seq![data.subrange(2, 2 + n)] + split_items(data.skip(2 + n))
        }
    }
}

/// Whether `data` is a clean concatenation of length-prefixed items,
/// with no truncated tail.
pub open spec fn split_ok(data: Seq<u8>) -> bool
    decreases data.len(),
{
    if data.len() == 0 {
        true
    } else if data.len() < 2 {
        false
    } else {
        let n = le16(data[0], data[1]);
        if data.len() - 2 < n {
            false
        } else {
            split_ok(data.skip(2 + n))
        }
    }
}

/// The terminal error of the splitter: a length prefix ran past the end
/// of the frame.
#[derive(Clone, Copy, PartialEq, Eq, Structural, Debug)]
pub struct UnexpectedEnd;

/// Splits a relay frame into its component items.
pub struct PacketSplitIter {
    pub bytes: bytes::Bytes,
}

impl PacketSplitIter {
    /// Starts splitting `bytes`.
    pub fn new(bytes: bytes::Bytes) -> (r: PacketSplitIter)
        ensures
            bytes_data(r.bytes) == bytes_data(bytes),
    {
        Self { bytes }
    }

    fn fail(&mut self) -> (r: Option<Result<bytes::Bytes, UnexpectedEnd>>)
        ensures
            bytes_data(final(self).bytes).len() == 0,
            r matches Some(res) && res matches Err(e) && e == UnexpectedEnd,
    {
        bytes_clear(&mut self.bytes);
        Some(Err(UnexpectedEnd))
    }

    /// Takes the next item off the front, or reports the end of the
    /// frame, or ends with the terminal error after which nothing more
    /// is yielded.
    pub fn next(&mut self) -> (r: Option<Result<bytes::Bytes, UnexpectedEnd>>)
        ensures
            ({
                let d = bytes_data(old(self).bytes);
                let dl = bytes_data(final(self).bytes);
                match r {
                    None => d.len() == 0 && dl == d,
                    Some(res) => match res {
                        Ok(item) => {
                            &&& d.len() >= 2
                            &&& le16(d[0], d[1]) <= d.len() - 2
                            &&& bytes_data(item) == d.subrange(2, 2 + le16(d[0], d[1]))
                            &&& dl == d.skip(2 + le16(d[0], d[1]))
                            &&& split_items(d) == seq![bytes_data(item)] + split_items(dl)
                            &&& split_ok(d) == split_ok(dl)
                        },
                        Err(_) => {
                            &&& d.len() > 0
                            &&& (d.len() < 2 || le16(d[0], d[1]) > d.len() - 2)
                            &&& split_items(d).len() == 0
                            &&& !split_ok(d)
                            &&& dl.len() == 0
                        },
                    },
                }
            }),
    {
        let rem = bytes_len(&self.bytes);
        if rem == 0 {
            return None;
        }
        if rem < 2 {
            return self.fail();
        }
        let lo = bytes_at(&self.bytes, 0);
        let hi = bytes_at(&self.bytes, 1);
        let len: usize = lo as usize + 256 * (hi as usize);
        if rem - 2 < len {
            return self.fail();
        }
        let ghost d = bytes_data(self.bytes);
        let _header = bytes_split_to(&mut self.bytes, 2);
        let item = bytes_split_to(&mut self.bytes, len);
        proof {
            assert(bytes_data(item) =~= d.subrange(2, 2 + le16(d[0], d[1])));
            assert(bytes_data(self.bytes) =~= d.skip(2 + le16(d[0], d[1])));
        }
        Some(Ok(item))
    }
}

/// The little-endian length prefix followed by the item itself.
pub open spec fn encode_item(item: Seq<u8>) -> Seq<u8> {
    seq![(item.len() % 256) as u8, ((item.len() / 256) % 256) as u8] + item
}

/// The concatenation of the encodings of `items`.
pub open spec fn encode_items(items: Seq<Seq<u8>>) -> Seq<u8>
    decreases items.len(),
{
    if items.len() == 0 {
        Seq::empty()
    } else {
        encode_item(items[0]) + encode_items(items.drop_first())
    }
}

/// Splitting the concatenation of length-prefixed items, followed by
/// `tail`, yields each item exactly once in order and then behaves as
/// splitting `tail` alone: with an empty tail the split is clean; with
/// a truncated tail it ends in the one terminal error.
pub proof fn lemma_split_of_encoded(items: Seq<Seq<u8>>, tail: Seq<u8>)
    requires
        forall|i: int| 0 <= i < items.len() ==> (#[trigger] items[i]).len() <= 0xffff,
    ensures
        split_items(encode_items(items) + tail) == items + split_items(tail),
        split_ok(encode_items(items) + tail) == split_ok(tail),
    decreases items.len(),
{
    if items.len() == 0 {
        assert(encode_items(items) + tail =~= tail);
        assert(split_items(encode_items(items) + tail) =~= items + split_items(tail));
    } else {
        let head = items[0];
        let data = encode_items(items) + tail;
        let n = head.len() as int;
        assert(n % 256 + 256 * ((n / 256) % 256) == n) by (nonlinear_arith)
            requires 0 <= n <= 0xffff;
        assert(data.len() >= 2);
        assert(data[0] == (n % 256) as u8);
        assert(data[1] == ((n / 256) % 256) as u8);
        assert(le16(data[0], data[1]) == n);
        assert(data.len() - 2 >= n);
        assert(data.subrange(2, 2 + n) =~= head);
        assert(data.skip(2 + n) =~= encode_items(items.drop_first()) + tail);
        lemma_split_of_encoded(items.drop_first(), tail);
        assert(split_items(data) =~= items + split_items(tail));
    }
}

} // verus!
