//! Little-endian byte layout for the wire encoding.
//!
//! The model encoding is a fixed header of two 64-bit dimensions followed by
//! one 32-bit word per parameter, all little-endian.  This module gives the
//! byte-level primitives: the specification of a word's bytes, executable
//! readers and writers proved against it, and the recovery lemmas that the
//! encode/decode round trip rests on.

use vstd::prelude::*;
use vstd::slice::slice_index_get;

verus! {

/// The four little-endian bytes of a 32-bit word.
pub open spec fn u32_le(v: u32) -> Seq<u8> {
    seq![
        (v & 0xff) as u8,
        ((v >> 8) & 0xff) as u8,
        ((v >> 16) & 0xff) as u8,
        ((v >> 24) & 0xff) as u8,
    ]
}

/// The eight little-endian bytes of a 64-bit word.
pub open spec fn u64_le(v: u64) -> Seq<u8> {
    seq![
        (v & 0xff) as u8,
        ((v >> 8) & 0xff) as u8,
        ((v >> 16) & 0xff) as u8,
        ((v >> 24) & 0xff) as u8,
        ((v >> 32) & 0xff) as u8,
        ((v >> 40) & 0xff) as u8,
        ((v >> 48) & 0xff) as u8,
        ((v >> 56) & 0xff) as u8,
    ]
}

/// A word sequence encoded as four bytes per word, in order.
pub open spec fn words_le(s: Seq<u32>) -> Seq<u8>
    decreases s.len(),
{
    if s.len() == 0 {
        Seq::empty()
    } else {
        words_le(s.drop_last()) + u32_le(s.last())
    }
}

/// The 32-bit word read little-endian from `b` at offset `pos`.
pub open spec fn u32_at(b: Seq<u8>, pos: int) -> u32 {
    (b[pos] as u32) | ((b[pos + 1] as u32) << 8) | ((b[pos + 2] as u32) << 16) | ((b[pos
        + 3] as u32) << 24)
}

/// The 64-bit word read little-endian from `b` at offset `pos`.
pub open spec fn u64_at(b: Seq<u8>, pos: int) -> u64 {
    (b[pos] as u64) | ((b[pos + 1] as u64) << 8) | ((b[pos + 2] as u64) << 16) | ((b[pos
        + 3] as u64) << 24) | ((b[pos + 4] as u64) << 32) | ((b[pos + 5] as u64) << 40) | ((b[pos
        + 6] as u64) << 48) | ((b[pos + 7] as u64) << 56)
}

pub proof fn lemma_words_le_len(s: Seq<u32>)
    ensures
        words_le(s).len() == 4 * s.len(),
    decreases s.len(),
{
    if s.len() > 0 {
        lemma_words_le_len(s.drop_last());
    }
}

/// Reading back the four bytes of a word yields the word.
pub proof fn lemma_u32_le_at(v: u32)
    ensures
        u32_at(u32_le(v), 0) == v,
{
    assert((((v & 0xff) as u8) as u32) | (((((v >> 8) & 0xff) as u8) as u32) << 8) | (((((v >> 16)
        & 0xff) as u8) as u32) << 16) | (((((v >> 24) & 0xff) as u8) as u32) << 24) == v)
        by (bit_vector);
}

/// Reading back the eight bytes of a 64-bit word yields the word.
pub proof fn lemma_u64_le_at(v: u64)
    ensures
        u64_at(u64_le(v), 0) == v,
{
    assert((((v & 0xff) as u8) as u64) | (((((v >> 8) & 0xff) as u8) as u64) << 8) | (((((v >> 16)
        & 0xff) as u8) as u64) << 16) | (((((v >> 24) & 0xff) as u8) as u64) << 24) | (((((v >> 32)
        & 0xff) as u8) as u64) << 32) | (((((v >> 40) & 0xff) as u8) as u64) << 40) | (((((v >> 48)
        & 0xff) as u8) as u64) << 48) | (((((v >> 56) & 0xff) as u8) as u64) << 56) == v)
        by (bit_vector);
}

/// Each word of an encoded sequence can be read back at its own offset.
pub proof fn lemma_words_le_at(s: Seq<u32>, k: int)
    requires
        0 <= k < s.len(),
    ensures
        u32_at(words_le(s), 4 * k) == s[k],
    decreases s.len(),
{
    lemma_words_le_len(s.drop_last());
    if k == s.len() - 1 {
        lemma_u32_le_at(s.last());
        assert(words_le(s)[4 * k] == u32_le(s.last())[0]);
        assert(words_le(s)[4 * k + 1] == u32_le(s.last())[1]);
        assert(words_le(s)[4 * k + 2] == u32_le(s.last())[2]);
        assert(words_le(s)[4 * k + 3] == u32_le(s.last())[3]);
    } else {
        lemma_words_le_at(s.drop_last(), k);
        assert(words_le(s)[4 * k] == words_le(s.drop_last())[4 * k]);
        assert(words_le(s)[4 * k + 1] == words_le(s.drop_last())[4 * k + 1]);
        assert(words_le(s)[4 * k + 2] == words_le(s.drop_last())[4 * k + 2]);
        assert(words_le(s)[4 * k + 3] == words_le(s.drop_last())[4 * k + 3]);
    }
}

/// Appends the eight little-endian bytes of `v`.
pub fn push_u64_le(out: &mut Vec<u8>, v: u64)
    ensures
        final(out)@ == old(out)@ + u64_le(v),
{
    out.push((v & 0xff) as u8);
    out.push(((v >> 8) & 0xff) as u8);
    out.push(((v >> 16) & 0xff) as u8);
    out.push(((v >> 24) & 0xff) as u8);
    out.push(((v >> 32) & 0xff) as u8);
    out.push(((v >> 40) & 0xff) as u8);
    out.push(((v >> 48) & 0xff) as u8);
    out.push(((v >> 56) & 0xff) as u8);
    proof {
        assert(out@ =~= old(out)@ + u64_le(v));
    }
}

/// Appends four little-endian bytes per word, in order.
pub fn push_words_le(out: &mut Vec<u8>, words: &Vec<u32>)
    ensures
        final(out)@ == old(out)@ + words_le(words@),
{
    let n = words.len();
    let mut k: usize = 0;
    while k < n
        invariant
            k <= n,
            n == words@.len(),
            out@ == old(out)@ + words_le(words@.take(k as int)),
        decreases n - k,
    {
        let w = words[k];
        out.push((w & 0xff) as u8);
        out.push(((w >> 8) & 0xff) as u8);
        out.push(((w >> 16) & 0xff) as u8);
        out.push(((w >> 24) & 0xff) as u8);
        proof {
            let t = words@.take(k + 1 as int);
            assert(t.drop_last() =~= words@.take(k as int));
            assert(t.last() == words@[k as int]);
            assert(out@ =~= old(out)@ + words_le(t));
        }
        k = k + 1;
    }
    proof {
        assert(words@.take(n as int) =~= words@);
    }
}

/// Reads the 64-bit word stored little-endian at `pos`.
pub fn read_u64_le(b: &[u8], pos: usize) -> (r: u64)
    requires
        pos + 8 <= b@.len(),
    ensures
        r == u64_at(b@, pos as int),
{
    let n = b.len();
    let b0 = *slice_index_get(b, pos);
    let b1 = *slice_index_get(b, pos + 1);
    let b2 = *slice_index_get(b, pos + 2);
    let b3 = *slice_index_get(b, pos + 3);
    let b4 = *slice_index_get(b, pos + 4);
    let b5 = *slice_index_get(b, pos + 5);
    let b6 = *slice_index_get(b, pos + 6);
    let b7 = *slice_index_get(b, pos + 7);
    (b0 as u64) | ((b1 as u64) << 8) | ((b2 as u64) << 16) | ((b3 as u64) << 24) | ((b4 as u64)
        << 32) | ((b5 as u64) << 40) | ((b6 as u64) << 48) | ((b7 as u64) << 56)
}

/// Reads the 32-bit word stored little-endian at `pos`.
pub fn read_u32_le(b: &[u8], pos: usize) -> (r: u32)
    requires
        pos + 4 <= b@.len(),
    ensures
        r == u32_at(b@, pos as int),
{
    let n = b.len();
    let b0 = *slice_index_get(b, pos);
    let b1 = *slice_index_get(b, pos + 1);
    let b2 = *slice_index_get(b, pos + 2);
    let b3 = *slice_index_get(b, pos + 3);
    (b0 as u32) | ((b1 as u32) << 8) | ((b2 as u32) << 16) | ((b3 as u32) << 24)
}

} // verus!
