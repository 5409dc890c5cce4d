//! A stable 64-bit hash: FNV-1a over bytes. Its value depends on the bytes
//! alone, never on the platform or the toolchain, so fingerprints recorded
//! once keep matching.
use vstd::prelude::*;
use vstd::wrapping::u64_specs;

verus! {

/// The published FNV-1a 64-bit offset basis.
pub const FNV_OFFSET_BASIS: u64 = 0xcbf2_9ce4_8422_2325u64;

/// The published FNV-1a 64-bit prime.
pub const FNV_PRIME: u64 = 0x0000_0100_0000_01b3u64;

/// One step of FNV-1a: mix in a byte, then multiply by the prime modulo
/// 2^64.
pub open spec fn fnv_step(h: u64, b: u8) -> u64 {
    u64_specs::wrapping_mul(h ^ (b as u64), FNV_PRIME)
}

/// The state after absorbing the bytes, from state `h`.
pub open spec fn fnv_from(h: u64, bytes: Seq<u8>) -> u64
    decreases bytes.len(),
{
    if bytes.len() == 0 {
        h
    } else {
        fnv_step(fnv_from(h, bytes.drop_last()), bytes[bytes.len() - 1])
    }
}

/// The FNV-1a hash of the bytes.
pub open spec fn fnv1a(bytes: Seq<u8>) -> u64 {
    fnv_from(FNV_OFFSET_BASIS, bytes)
}

/// Writes in a row: the bytes of each, one after the other.
pub open spec fn concat_all(writes: Seq<Seq<u8>>) -> Seq<u8>
    decreases writes.len(),
{
    if writes.len() == 0 {
        Seq::empty()
    } else {
        concat_all(writes.drop_last()) + writes[writes.len() - 1]
    }
}

/// Writing one more piece appends its bytes.
pub proof fn lemma_concat_all_push(ws: Seq<Seq<u8>>, w: Seq<u8>)
    ensures
        concat_all(ws.push(w)) == concat_all(ws) + w,
        concat_all(Seq::<Seq<u8>>::empty()) == Seq::<u8>::empty(),
{
    assert(ws.push(w).drop_last() =~= ws);
}

/// The eight bytes of a number, most significant first.
pub open spec fn be_bytes(x: u64) -> Seq<u8> {
    seq![
        ((x >> 56u64) & 0xff) as u8,
        ((x >> 48u64) & 0xff) as u8,
        ((x >> 40u64) & 0xff) as u8,
        ((x >> 32u64) & 0xff) as u8,
        ((x >> 24u64) & 0xff) as u8,
        ((x >> 16u64) & 0xff) as u8,
        ((x >> 8u64) & 0xff) as u8,
        (x & 0xff) as u8,
    ]
}

/// Absorbing two pieces in turn is absorbing them joined.
pub proof fn lemma_fnv_concat(h: u64, a: Seq<u8>, b: Seq<u8>)
    ensures
        fnv_from(h, a + b) == fnv_from(fnv_from(h, a), b),
    decreases b.len(),
{
    if b.len() > 0 {
        lemma_fnv_concat(h, a, b.drop_last());
        assert((a + b).drop_last() =~= a + b.drop_last());
        assert((a + b)[(a + b).len() - 1] == b[b.len() - 1]);
    } else {
        assert(a + b =~= a);
    }
}

/// A running FNV-1a hash.
pub struct StableHasher {
    state: u64,
}

impl StableHasher {
    /// The hash of what has been written so far.
    pub closed spec fn value(&self) -> u64 {
        self.state
    }

    /// A hasher that has absorbed nothing.
    pub fn new() -> (r: StableHasher)
        ensures
            r.value() == FNV_OFFSET_BASIS,
    {
        StableHasher { state: FNV_OFFSET_BASIS }
    }

    /// Absorbs the bytes, in order.
    pub fn write_bytes(&mut self, bytes: &[u8])
        ensures
            final(self).value() == fnv_from(old(self).value(), bytes@),
    {
        let ghost start = self.state;
        let n = bytes.len();
        for i in 0..n
            invariant
                n == bytes@.len(),
                self.state == fnv_from(start, bytes@.take(i as int)),
        {
            proof {
                assert(bytes@.take(i + 1).drop_last() =~= bytes@.take(i as int));
            }
            self.state = (self.state ^ (bytes[i] as u64)).wrapping_mul(FNV_PRIME);
        }
        proof {
            assert(bytes@.take(n as int) =~= bytes@);
        }
    }

    /// Absorbs one byte.
    pub fn write_u8(&mut self, b: u8)
        ensures
            final(self).value() == fnv_from(old(self).value(), seq![b]),
    {
        let bytes: [u8; 1] = [b];
        proof {
            assert(bytes@ =~= seq![b]);
        }
        self.write_bytes(bytes.as_slice());
    }

    /// Absorbs a number as its eight bytes, most significant first, on every
    /// platform.
    pub fn write_u64(&mut self, x: u64)
        ensures
            final(self).value() == fnv_from(old(self).value(), be_bytes(x)),
    {
        let bytes: [u8; 8] = [
            ((x >> 56u64) & 0xff) as u8,
            ((x >> 48u64) & 0xff) as u8,
            ((x >> 40u64) & 0xff) as u8,
            ((x >> 32u64) & 0xff) as u8,
            ((x >> 24u64) & 0xff) as u8,
            ((x >> 16u64) & 0xff) as u8,
            ((x >> 8u64) & 0xff) as u8,
            (x & 0xff) as u8,
        ];
        proof {
            assert(bytes@ =~= be_bytes(x));
        }
        self.write_bytes(bytes.as_slice());
    }

    /// The hash of what has been written.
    pub fn finish(&self) -> (r: u64)
        ensures
            r == self.value(),
    {
        self.state
    }
}

impl Default for StableHasher {
    /// A hasher that has absorbed nothing, as [`StableHasher::new`] gives.
    fn default() -> (r: StableHasher)
        ensures
            r.value() == FNV_OFFSET_BASIS,
    {
        StableHasher::new()
    }
}

/// The FNV-1a hash of the bytes.
pub fn fnv1a_of(bytes: &[u8]) -> (r: u64)
    ensures
        r == fnv1a(bytes@),
{
    let mut h = StableHasher::new();
    h.write_bytes(bytes);
    h.finish()
}

} // verus!
