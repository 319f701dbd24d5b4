//! Fixed-width big-endian framing of integers, used by every persisted record.

use byteorder::{BigEndian, ByteOrder};
use vstd::prelude::*;

verus! {

/// The eight bytes of `n`, most significant first.
pub open spec fn be_bytes(n: u64) -> Seq<u8> {
    seq![
        (n >> 56u64) as u8,
        (n >> 48u64) as u8,
        (n >> 40u64) as u8,
        (n >> 32u64) as u8,
        (n >> 24u64) as u8,
        (n >> 16u64) as u8,
        (n >> 8u64) as u8,
        n as u8,
    ]
}

/// The integer held by the first eight bytes of `b`, most significant first.
pub open spec fn be_value(b: Seq<u8>) -> u64
    recommends
        b.len() >= 8,
{
    ((b[0] as u64) << 56u64) | ((b[1] as u64) << 48u64) | ((b[2] as u64) << 40u64) | ((
    b[3] as u64) << 32u64) | ((b[4] as u64) << 24u64) | ((b[5] as u64) << 16u64) | ((
    b[6] as u64) << 8u64) | (b[7] as u64)
}

/// The concatenation of the big-endian bytes of each integer of `s`.
pub open spec fn u64s_bytes(s: Seq<u64>) -> Seq<u8>
    decreases s.len(),
{
    if s.len() == 0 {
        Seq::empty()
    } else {
        be_bytes(s[0]) + u64s_bytes(s.drop_first())
    }
}

/// Relies on byteorder's `BigEndian::write_u64`: it stores `n` in the first
/// eight bytes of the buffer, most significant first.
#[verifier::external_body]
pub(crate) fn be_bytes_of(n: u64) -> (r: Vec<u8>)
    ensures
        r@ == be_bytes(n),
{
    let mut buf = vec![0u8; 8];
    BigEndian::write_u64(&mut buf, n);
    buf
}

/// Relies on byteorder's `BigEndian::read_u64`: it reads the first eight
/// bytes, most significant first, and panics on a shorter buffer.
#[verifier::external_body]
pub(crate) fn be_read(b: &[u8]) -> (r: u64)
    requires
        b@.len() >= 8,
    ensures
        r == be_value(b@),
{
    BigEndian::read_u64(b)
}

pub proof fn lemma_be_round_trip(n: u64)
    ensures
        be_value(be_bytes(n)) == n,
{
    let b = be_bytes(n);
    let b0 = (n >> 56u64) as u8;
    let b1 = (n >> 48u64) as u8;
    let b2 = (n >> 40u64) as u8;
    let b3 = (n >> 32u64) as u8;
    let b4 = (n >> 24u64) as u8;
    let b5 = (n >> 16u64) as u8;
    let b6 = (n >> 8u64) as u8;
    let b7 = n as u8;
    assert(b[0] == b0 && b[1] == b1 && b[2] == b2 && b[3] == b3);
    assert(b[4] == b4 && b[5] == b5 && b[6] == b6 && b[7] == b7);
    assert(((b0 as u64) << 56u64) | ((b1 as u64) << 48u64) | ((b2 as u64) << 40u64) | ((
    b3 as u64) << 32u64) | ((b4 as u64) << 24u64) | ((b5 as u64) << 16u64) | ((b6 as u64)
        << 8u64) | (b7 as u64) == n) by (bit_vector)
        requires
            b0 == (n >> 56u64) as u8,
            b1 == (n >> 48u64) as u8,
            b2 == (n >> 40u64) as u8,
            b3 == (n >> 32u64) as u8,
            b4 == (n >> 24u64) as u8,
            b5 == (n >> 16u64) as u8,
            b6 == (n >> 8u64) as u8,
            b7 == n as u8,
    ;
}

/// Reading at offset `8 * k` of a framed list (followed by anything) gives
/// back its `k`-th integer.
pub proof fn lemma_u64s_at(s: Seq<u64>, rest: Seq<u8>, k: int)
    requires
        0 <= k < s.len(),
    ensures
        (u64s_bytes(s) + rest).len() == 8 * s.len() + rest.len(),
        be_value((u64s_bytes(s) + rest).subrange(8 * k, 8 * k + 8)) == s[k],
    decreases s.len(),
{
    lemma_u64s_len(s);
    let all = u64s_bytes(s) + rest;
    let tail = u64s_bytes(s.drop_first()) + rest;
    assert(all =~= be_bytes(s[0]) + tail);
    if k == 0 {
        assert(all.subrange(0, 8) =~= be_bytes(s[0]));
        lemma_be_round_trip(s[0]);
    } else {
        lemma_u64s_at(s.drop_first(), rest, k - 1);
        assert(all.subrange(8 * k, 8 * k + 8) =~= tail.subrange(8 * (k - 1), 8 * (k - 1) + 8));
    }
}

pub proof fn lemma_u64s_len(s: Seq<u64>)
    ensures
        u64s_bytes(s).len() == 8 * s.len(),
    decreases s.len(),
{
    if s.len() > 0 {
        lemma_u64s_len(s.drop_first());
    }
}

pub proof fn lemma_u64s_push(s: Seq<u64>, n: u64)
    ensures
        u64s_bytes(s.push(n)) == u64s_bytes(s) + be_bytes(n),
    decreases s.len(),
{
    if s.len() == 0 {
        assert(s.push(n).drop_first() =~= Seq::<u64>::empty());
        assert(s.push(n)[0] == n);
        assert(u64s_bytes(Seq::<u64>::empty()) =~= Seq::<u8>::empty());
        assert(u64s_bytes(s.push(n)) =~= be_bytes(n) + Seq::<u8>::empty());
        assert(u64s_bytes(s) + be_bytes(n) =~= be_bytes(n));
    } else {
        lemma_u64s_push(s.drop_first(), n);
        assert(s.push(n).drop_first() =~= s.drop_first().push(n));
        assert(u64s_bytes(s.push(n)) =~= be_bytes(s[0]) + (u64s_bytes(s.drop_first())
            + be_bytes(n)));
    }
}

/// Frames a list of integers, eight big-endian bytes each.
pub fn encode_u64s(s: &Vec<u64>) -> (r: Vec<u8>)
    ensures
        r@ == u64s_bytes(s@),
{
    let mut out: Vec<u8> = Vec::new();
    let mut i: usize = 0;
    while i < s.len()
        invariant
            i <= s@.len(),
            out@ == u64s_bytes(s@.subrange(0, i as int)),
        decreases s@.len() - i,
    {
        let b = be_bytes_of(s[i]);
        proof {
            lemma_u64s_push(s@.subrange(0, i as int), s@[i as int]);
            assert(s@.subrange(0, i as int).push(s@[i as int]) =~= s@.subrange(0, i + 1));
        }
        let mut j: usize = 0;
        let ghost before = out@;
        while j < 8
            invariant
                j <= 8,
                b@ == be_bytes(s@[i as int]),
                out@ == before + b@.subrange(0, j as int),
            decreases 8 - j,
        {
            out.push(b[j]);
            proof {
                assert(b@.subrange(0, j + 1) =~= b@.subrange(0, j as int).push(b@[j as int]));
            }
            j = j + 1;
        }
        proof {
            assert(b@.subrange(0, 8) =~= b@);
        }
        i = i + 1;
    }
    proof {
        assert(s@.subrange(0, s@.len() as int) =~= s@);
    }
    out
}

/// The integer at byte offset `at` of `b`.
pub fn read_u64_at(b: &Vec<u8>, at: usize) -> (r: u64)
    requires
        at + 8 <= b@.len(),
    ensures
        r == be_value(b@.subrange(at as int, at + 8)),
{
    let len = b.len();
    let part = vstd::slice::slice_subrange(b.as_slice(), at, at + 8);
    be_read(part)
}

/// The bytes of `b` from offset `at` on.
pub fn bytes_from(b: &Vec<u8>, at: usize) -> (r: Vec<u8>)
    requires
        at <= b@.len(),
    ensures
        r@ == b@.subrange(at as int, b@.len() as int),
{
    let mut out: Vec<u8> = Vec::new();
    let mut i: usize = at;
    while i < b.len()
        invariant
            at <= i <= b@.len(),
            out@ == b@.subrange(at as int, i as int),
        decreases b@.len() - i,
    {
        out.push(b[i]);
        proof {
            assert(b@.subrange(at as int, i + 1) =~= b@.subrange(at as int, i as int).push(
                b@[i as int],
            ));
        }
        i = i + 1;
    }
    out
}

/// Appends the bytes of `tail` to `out`.
pub fn append_bytes(out: &mut Vec<u8>, tail: &Vec<u8>)
    ensures
        final(out)@ == old(out)@ + tail@,
{
    let mut i: usize = 0;
    while i < tail.len()
        invariant
            i <= tail@.len(),
            out@ == old(out)@ + tail@.subrange(0, i as int),
        decreases tail@.len() - i,
    {
        out.push(tail[i]);
        proof {
            assert(tail@.subrange(0, i + 1) =~= tail@.subrange(0, i as int).push(tail@[i as int]));
        }
        i = i + 1;
    }
    proof {
        assert(tail@.subrange(0, tail@.len() as int) =~= tail@);
    }
}

} // verus!
