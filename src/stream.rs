//! Splitting a buffer into fixed-size records, and putting decoded records back in order.
use crate::packet::packet_size;
use crate::types::LayoutPacketDef;
use vstd::prelude::*;
use vstd::slice::slice_subrange;

verus! {

/// Successive `R`-byte records of a buffer; a trailing part shorter than `R` is dropped.
#[derive(Debug)]
pub struct PacketStream<'a> {
    bytes: &'a Vec<u8>,
    position: usize,
    num_bytes: usize,
}

impl<'a> PacketStream<'a> {
    pub closed spec fn buffer(&self) -> Seq<u8> {
        self.bytes@
    }

    /// Where the next record starts.
    pub closed spec fn position(&self) -> nat {
        self.position as nat
    }

    /// The record size `R`.
    pub closed spec fn record_size(&self) -> nat {
        self.num_bytes as nat
    }

    pub closed spec fn wf(&self) -> bool {
        &&& self.num_bytes > 0
        &&& self.position <= self.bytes@.len()
        &&& self.position % self.num_bytes == 0
    }

    /// How many records were yielded so far.
    pub open spec fn index(&self) -> nat {
        (self.position() / self.record_size()) as nat
    }

    /// How many whole records are left.
    pub open spec fn remaining(&self) -> nat {
        ((self.buffer().len() - self.position()) / (self.record_size() as int)) as nat
    }

    /// A stream over `bytes` in records of the definition's static size; none where that
    /// size is unknown, zero or past `usize::MAX`.
    pub fn new(packet: &LayoutPacketDef, bytes: &'a Vec<u8>) -> (r: Option<PacketStream<'a>>)
        ensures
            r is Some <==> (packet_size(*packet) matches Some(k) && 0 < k <= usize::MAX),
            r matches Some(st) ==> {
                &&& st.wf()
                &&& st.buffer() == bytes@
                &&& st.position() == 0
                &&& packet_size(*packet) == Some(st.record_size() as int)
            },
    {
        match packet.num_bytes() {
            Some(k) => {
                if k == 0 || k > usize::MAX as u64 {
                    None
                } else {
                    proof {
                        vstd::arithmetic::div_mod::lemma_small_mod(0, k as nat);
                    }
                    Some(PacketStream { bytes: bytes, position: 0, num_bytes: k as usize })
                }
            },
            None => None,
        }
    }

    /// A stream over `bytes` in records of `num_bytes` bytes; none for a zero size.
    pub fn with_size(num_bytes: usize, bytes: &'a Vec<u8>) -> (r: Option<PacketStream<'a>>)
        ensures
            r is Some <==> num_bytes > 0,
            r matches Some(st) ==> {
                &&& st.wf()
                &&& st.buffer() == bytes@
                &&& st.position() == 0
                &&& st.record_size() == num_bytes
            },
    {
        if num_bytes == 0 {
            None
        } else {
            proof {
                vstd::arithmetic::div_mod::lemma_small_mod(0, num_bytes as nat);
            }
            Some(PacketStream { bytes: bytes, position: 0, num_bytes: num_bytes })
        }
    }

    /// How many bytes at the end are too few for a record, and will be dropped.
    pub fn trailing_bytes(&self) -> (r: usize)
        requires
            self.wf(),
        ensures
            r == (self.buffer().len() - self.position()) % (self.record_size() as int),
    {
        (self.bytes.len() - self.position) % self.num_bytes
    }

    /// The next record, while a whole one is left.
    pub fn next(&mut self) -> (r: Option<&'a [u8]>)
        requires
            old(self).wf(),
        ensures
            final(self).wf(),
            final(self).buffer() == old(self).buffer(),
            final(self).record_size() == old(self).record_size(),
            old(self).remaining() > 0 ==> (r matches Some(rec) && rec@ == old(self).buffer().subrange(
                old(self).position() as int,
                (old(self).position() + old(self).record_size()) as int,
            ) && final(self).position() == old(self).position() + old(self).record_size()
                && final(self).remaining() == old(self).remaining() - 1),
            old(self).remaining() > 0 ==> (r matches Some(rec) && rec@ == old(self).buffer().subrange(
                (old(self).index() * old(self).record_size()) as int,
                ((old(self).index() + 1) * old(self).record_size()) as int,
            ) && final(self).index() == old(self).index() + 1),
            old(self).remaining() == 0 ==> r is None && final(self).position() == old(self).position(),
    {
        let len = self.bytes.len();
        if self.num_bytes <= len - self.position {
            let start = self.position;
            let rec = slice_subrange(self.bytes.as_slice(), start, start + self.num_bytes);
            self.position = start + self.num_bytes;
            proof {
                let n = self.num_bytes as int;
                let q = start as int / n;
                vstd::arithmetic::div_mod::lemma_fundamental_div_mod(start as int, n);
                assert(start as int == n * q);
                assert(q * n == n * q) by (nonlinear_arith);
                assert((q + 1) * n == start + n) by (nonlinear_arith)
                    requires
                        start as int == n * q,
                ;
                vstd::arithmetic::div_mod::lemma_mod_multiples_basic(q + 1, n);
                vstd::arithmetic::div_mod::lemma_div_by_multiple(q + 1, n);
                assert(q * n == start);
                let before = len - start;
                assert((before - n) / n == before / n - 1) by {
                    vstd::arithmetic::div_mod::lemma_div_plus_one(before - n, n);
                }
            }
            Some(rec)
        } else {
            proof {
                vstd::arithmetic::div_mod::lemma_basic_div(len - self.position, self.num_bytes as int);
            }
            None
        }
    }
}

/// A buffer of `R·k + r` bytes with `r < R` holds exactly `k` whole records: a fresh
/// stream over it yields `k` of them and no partial one.
pub proof fn lemma_truncation_boundary(st: PacketStream, k: nat, r: nat)
    requires
        st.wf(),
        st.position() == 0,
        r < st.record_size(),
        st.buffer().len() == st.record_size() * k + r,
    ensures
        st.remaining() == k,
{
    let n = st.record_size() as int;
    vstd::arithmetic::mul::lemma_mul_is_commutative(n, k as int);
    vstd::arithmetic::div_mod::lemma_fundamental_div_mod_converse(
        st.buffer().len() as int,
        n,
        k as int,
        r as int,
    );
}

} // verus!
