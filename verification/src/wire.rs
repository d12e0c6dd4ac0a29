//! Fixed-width big-endian encoding of 64-bit integers, the one integer
//! representation used everywhere in the transaction log.

use vstd::prelude::*;

verus! {

/// The eight bytes of `x` in big-endian order: most significant byte first.
pub closed spec fn u64_be_bytes(x: u64) -> Seq<u8> {
    seq![
        ((x >> 56) & 0xff) as u8,
        ((x >> 48) & 0xff) as u8,
        ((x >> 40) & 0xff) as u8,
        ((x >> 32) & 0xff) as u8,
        ((x >> 24) & 0xff) as u8,
        ((x >> 16) & 0xff) as u8,
        ((x >> 8) & 0xff) as u8,
        (x & 0xff) as u8,
    ]
}

/// The 64-bit integer read from eight bytes in big-endian order.
pub closed spec fn u64_from_be_bytes(s: Seq<u8>) -> u64
    recommends
        s.len() == 8,
{
    ((s[0] as u64) << 56 | (s[1] as u64) << 48 | (s[2] as u64) << 40 | (s[3] as u64) << 32 | (
    s[4] as u64) << 24 | (s[5] as u64) << 16 | (s[6] as u64) << 8 | (s[7] as u64))
}

pub broadcast proof fn lemma_u64_be_bytes_len(x: u64)
    ensures
        (#[trigger] u64_be_bytes(x)).len() == 8,
{
}

/// Decoding inverts encoding.
pub proof fn lemma_u64_be_round_trip(x: u64)
    ensures
        u64_be_bytes(x).len() == 8,
        u64_from_be_bytes(u64_be_bytes(x)) == x,
{
    assert(((((x >> 56) & 0xff) as u8) as u64) << 56 | ((((x >> 48) & 0xff) as u8) as u64) << 48 | (
    (((x >> 40) & 0xff) as u8) as u64) << 40 | ((((x >> 32) & 0xff) as u8) as u64) << 32 | ((((x
        >> 24) & 0xff) as u8) as u64) << 24 | ((((x >> 16) & 0xff) as u8) as u64) << 16 | ((((x
        >> 8) & 0xff) as u8) as u64) << 8 | (((x & 0xff) as u8) as u64) == x) by (bit_vector);
}

/// Distinct integers have distinct encodings.
pub proof fn lemma_u64_be_injective(x: u64, y: u64)
    requires
        u64_be_bytes(x) == u64_be_bytes(y),
    ensures
        x == y,
{
    lemma_u64_be_round_trip(x);
    lemma_u64_be_round_trip(y);
}

/// Appends the big-endian encoding of `x` to `out`.
pub fn append_u64_be(out: &mut Vec<u8>, x: u64)
    ensures
        final(out)@ == old(out)@ + u64_be_bytes(x),
{
    proof {
        assert(((x >> 56) & 0xff) < 256 && ((x >> 48) & 0xff) < 256 && ((x >> 40) & 0xff) < 256 && (
        (x >> 32) & 0xff) < 256 && ((x >> 24) & 0xff) < 256 && ((x >> 16) & 0xff) < 256 && ((x >> 8)
            & 0xff) < 256 && (x & 0xff) < 256) by (bit_vector);
    }
    out.push(((x >> 56) & 0xff) as u8);
    out.push(((x >> 48) & 0xff) as u8);
    out.push(((x >> 40) & 0xff) as u8);
    out.push(((x >> 32) & 0xff) as u8);
    out.push(((x >> 24) & 0xff) as u8);
    out.push(((x >> 16) & 0xff) as u8);
    out.push(((x >> 8) & 0xff) as u8);
    out.push((x & 0xff) as u8);
    proof {
        assert(out@ =~= old(out)@ + u64_be_bytes(x));
    }
}

/// Reads the big-endian integer stored at `pos`.
pub fn read_u64_be(s: &Vec<u8>, pos: usize) -> (x: u64)
    requires
        pos + 8 <= s@.len(),
    ensures
        x == u64_from_be_bytes(s@.subrange(pos as int, pos as int + 8)),
{
    // Observing the length bounds the index sums below.
    let _n = s.len();
    let x = (s[pos] as u64) << 56 | (s[pos + 1] as u64) << 48 | (s[pos + 2] as u64) << 40 | (s[pos
        + 3] as u64) << 32 | (s[pos + 4] as u64) << 24 | (s[pos + 5] as u64) << 16 | (s[pos
        + 6] as u64) << 8 | (s[pos + 7] as u64);
    proof {
        let sub = s@.subrange(pos as int, pos as int + 8);
        assert(sub[0] == s@[pos as int]);
        assert(sub[1] == s@[pos as int + 1]);
        assert(sub[2] == s@[pos as int + 2]);
        assert(sub[3] == s@[pos as int + 3]);
        assert(sub[4] == s@[pos as int + 4]);
        assert(sub[5] == s@[pos as int + 5]);
        assert(sub[6] == s@[pos as int + 6]);
        assert(sub[7] == s@[pos as int + 7]);
    }
    x
}

} // verus!
