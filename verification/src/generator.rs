//! The sortable-identifier generator: mints 128-bit identifiers whose
//! successive outputs from one instance are strictly increasing under
//! big-endian byte-wise comparison.

use rand::Rng;
use rand::RngCore;
use vstd::prelude::*;

use crate::clock;
use crate::id128::{be_value, pow256, Id128};

verus! {

/// Relies on rand's `thread_rng` and `Rng::gen::<u16>`: a random 16-bit
/// value.  The result depends on the generator's hidden state, so nothing is
/// assumed of it.
#[verifier::external_body]
fn random_u16() -> u16 {
    rand::thread_rng().gen::<u16>()
}

/// Relies on rand's `thread_rng` and `RngCore::next_u64`: a random 64-bit
/// value.  The result depends on the generator's hidden state, so nothing is
/// assumed of it.
#[verifier::external_body]
fn random_u64() -> u64 {
    rand::thread_rng().next_u64()
}

/// The `width` big-endian bytes of `v`.
fn be_bytes(v: u64, width: usize) -> (r: Vec<u8>)
    requires
        width <= 8,
        v < pow256(width as nat),
    ensures
        r@.len() == width,
        be_value(r@) == v,
    decreases width,
{
    if width == 0 {
        let r: Vec<u8> = Vec::new();
        assert(be_value(r@) == 0);
        r
    } else {
        let b = (v % 256) as u8;
        proof {
            assert(pow256(width as nat) == 256 * pow256((width - 1) as nat));
            assert(v / 256 < pow256((width - 1) as nat)) by {
                assert(v == 256 * (v / 256) + v % 256);
                if v / 256 >= pow256((width - 1) as nat) {
                    assert(256 * (v / 256) >= 256 * pow256((width - 1) as nat));
                }
            }
        }
        let mut r = be_bytes(v / 256, width - 1);
        let ghost prefix = r@;
        r.push(b);
        proof {
            assert(r@.drop_last() =~= prefix);
            assert(r@.last() == b);
            assert(be_value(r@) == be_value(prefix) * 256 + b);
            assert((v / 256) * 256 + (v % 256) == v);
        }
        r
    }
}

/// Mutable state of one generator instance: the last recorded millisecond
/// and the sequence number within it, plus the instance's shard id.  The
/// (time, seq) pair never moves backward; callers hand out one instance per
/// shard behind a mutual-exclusion lock.
#[derive(Debug)]
pub struct SortableIdGenerator {
    seq: u16,
    shard: u16,
    time: u64,
}

impl SortableIdGenerator {
    /// The recorded time stays within the 48-bit layout field.
    #[verifier::type_invariant]
    spec fn wf(self) -> bool {
        self.time < 0x1000000000000
    }

    /// The 64-bit ordering stamp: the recorded milliseconds shifted past the
    /// 16-bit sequence number.
    pub closed spec fn stamp(self) -> int {
        self.time * 0x10000 + self.seq
    }

    /// The instance's shard id.
    pub closed spec fn shard_id(self) -> u16 {
        self.shard
    }

    pub fn new(shard: u16) -> (r: Self)
        ensures
            r.stamp() == 0,
            r.shard_id() == shard,
    {
        SortableIdGenerator { seq: 0, shard, time: 0 }
    }

    /// Mint one identifier.  The stamp in the top eight bytes strictly
    /// increases on every call while it has headroom, never moves backward,
    /// and is followed by 48 fresh random bits and the shard id; so
    /// successive outputs of one instance are strictly increasing under
    /// byte-wise comparison (see `lemma_id_order`).  Clock readings that
    /// move backward are clamped; within one recorded millisecond the
    /// sequence number counts up, and its overflow forces the recorded time
    /// one millisecond ahead; a strictly newer millisecond reseeds the
    /// sequence with a fresh 15-bit value.
    pub fn gen(&mut self) -> (r: Id128)
        ensures
            final(self).shard_id() == old(self).shard_id(),
            old(self).stamp() < 0xFFFFFFFFFFFFFFFF ==> final(self).stamp() > old(self).stamp(),
            final(self).stamp() >= old(self).stamp(),
            0 <= final(self).stamp() <= 0xFFFFFFFFFFFFFFFF,
            r.byte_seq().len() == 16,
            be_value(r.byte_seq().take(8)) == final(self).stamp(),
            be_value(r.byte_seq().skip(14)) == final(self).shard_id(),
    {
        proof {
            use_type_invariant(&*self);
        }
        let now = clock::now_millis();
        let now_u: u64 = if now < 0 {
            0
        } else {
            now as u64
        };
        let mut t: u64 = now_u % 0x1000000000000;
        let seq: u16;
        if t < self.time {
            t = self.time;
        }
        if t == self.time {
            if self.seq == 0xFFFF {
                if self.time == 0xFFFFFFFFFFFF {
                    // the whole 64-bit stamp space is exhausted; hold the
                    // last stamp rather than emit a smaller one
                    seq = 0xFFFF;
                } else {
                    t = self.time + 1;
                    seq = 0;
                }
            } else {
                seq = self.seq + 1;
            }
        } else {
            seq = random_u16() & 0x7FFF;
        }
        self.time = t;
        self.seq = seq;
        assert(t < 0x1000000000000);
        let hi: u64 = t * 65536 + (seq as u64);
        proof {
            reveal_with_fuel(pow256, 9);
            assert(pow256(8) == 0x10000000000000000);
            assert(pow256(6) == 0x1000000000000);
            assert(pow256(2) == 0x10000);
        }
        let hi_bytes = be_bytes(hi, 8);
        let rnd: u64 = random_u64() % 0x1000000000000;
        let mut rnd_bytes = be_bytes(rnd, 6);
        let mut shard_bytes = be_bytes(self.shard as u64, 2);
        let ghost hb = hi_bytes@;
        let ghost sbv = shard_bytes@;
        let mut bytes = hi_bytes;
        bytes.append(&mut rnd_bytes);
        bytes.append(&mut shard_bytes);
        let mut buf = [0u8; 16];
        let mut j: usize = 0;
        while j < 16
            invariant
                j <= 16,
                bytes@.len() == 16,
                buf@.len() == 16,
                forall|i: int| 0 <= i < j ==> buf@[i] == bytes@[i],
            decreases 16 - j,
        {
            buf[j] = bytes[j];
            j += 1;
        }
        proof {
            assert(buf@ =~= bytes@);
            assert(bytes@.take(8) =~= hb);
            assert(bytes@.skip(14) =~= sbv);
        }
        let r = Id128::new(buf);
        proof {
            assert(be_value(r.byte_seq().take(8)) == hi);
            assert(hi == self.stamp());
        }
        r
    }
}

} // verus!
