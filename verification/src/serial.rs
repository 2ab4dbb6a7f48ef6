//! The byte-level encoding shared by model and sample blobs.
//!
//! A blob is a sequence of 64-bit words, each laid out as eight
//! little-endian bytes. Encoding and decoding are exact inverses, proved
//! here once for the word layer; the model and sample formats build on it.

use vstd::prelude::*;

verus! {

/// The eight little-endian bytes of a word.
pub open spec fn le8_s(w: u64) -> Seq<u8> {
    Seq::new(8, |i: int| ((w >> (8 * i)) & 0xff) as u8)
}

/// The word read back from eight little-endian bytes.
pub open spec fn from8_s(b: Seq<u8>) -> u64 {
    ((b[0] as u64) | ((b[1] as u64) << 8) | ((b[2] as u64) << 16) | ((b[3] as u64) << 24)
        | ((b[4] as u64) << 32) | ((b[5] as u64) << 40) | ((b[6] as u64) << 48)
        | ((b[7] as u64) << 56)) as u64
}

/// Reading back the eight bytes of a word gives the word.
pub proof fn lemma_le8_from8(w: u64)
    ensures
        from8_s(le8_s(w)) == w,
{
    assert(((((w >> 0) & 0xff) as u8) as u64) | (((((w >> 8) & 0xff) as u8) as u64) << 8)
        | (((((w >> 16) & 0xff) as u8) as u64) << 16) | (((((w >> 24) & 0xff) as u8) as u64) << 24)
        | (((((w >> 32) & 0xff) as u8) as u64) << 32) | (((((w >> 40) & 0xff) as u8) as u64) << 40)
        | (((((w >> 48) & 0xff) as u8) as u64) << 48) | (((((w >> 56) & 0xff) as u8) as u64) << 56)
        == w) by (bit_vector);
}

/// A word survives the round trip through `i64`.
pub proof fn lemma_word_i64(v: i64)
    ensures
        ((v as u64) as i64) == v,
{
    assert(((v as u64) as i64) == v) by (bit_vector);
}

/// The little-endian bytes of a word sequence.
pub open spec fn wtb_s(ws: Seq<u64>) -> Seq<u8>
    decreases ws.len(),
{
    if ws.len() == 0 {
        Seq::empty()
    } else {
        wtb_s(ws.drop_last()) + le8_s(ws.last())
    }
}

/// The words read back from a byte sequence whose length is a multiple of
/// eight.
pub open spec fn btw_s(bs: Seq<u8>) -> Seq<u64>
    decreases bs.len(),
{
    if bs.len() < 8 {
        Seq::empty()
    } else {
        btw_s(bs.subrange(0, bs.len() - 8)).push(from8_s(bs.subrange(bs.len() - 8, bs.len() as int)))
    }
}

/// Word-to-byte encoding always yields eight bytes per word.
pub proof fn lemma_wtb_len(ws: Seq<u64>)
    ensures
        wtb_s(ws).len() == 8 * ws.len(),
    decreases ws.len(),
{
    if ws.len() > 0 {
        lemma_wtb_len(ws.drop_last());
    }
}

/// Reading the bytes of a word sequence gives the word sequence back.
pub proof fn lemma_words_round_trip(ws: Seq<u64>)
    ensures
        btw_s(wtb_s(ws)) =~= ws,
    decreases ws.len(),
{
    lemma_wtb_len(ws);
    if ws.len() > 0 {
        lemma_words_round_trip(ws.drop_last());
        lemma_wtb_len(ws.drop_last());
        let bs = wtb_s(ws);
        assert(bs.subrange(0, bs.len() - 8) =~= wtb_s(ws.drop_last()));
        assert(bs.subrange(bs.len() - 8, bs.len() as int) =~= le8_s(ws.last()));
        lemma_le8_from8(ws.last());
    }
}

/// A vector of signed values as unsigned words, bit for bit.
pub open spec fn words_of_s(s: Seq<i64>) -> Seq<u64> {
    s.map_values(|x: i64| x as u64)
}

/// Unsigned words as signed values, bit for bit.
pub open spec fn unwords_s(ws: Seq<u64>) -> Seq<i64> {
    ws.map_values(|w: u64| w as i64)
}

/// Words survive the round trip through signed values.
pub proof fn lemma_unwords_words(s: Seq<i64>)
    ensures
        unwords_s(words_of_s(s)) =~= s,
{
    assert forall|i: int| 0 <= i < s.len()
        implies unwords_s(words_of_s(s))[i] == s[i] by {
        lemma_word_i64(s[i]);
    }
}

/// Appends the words of a signed vector.
pub(crate) fn push_words(out: &mut Vec<u64>, v: &Vec<i64>)
    ensures
        final(out)@ == old(out)@ + words_of_s(v@),
{
    let mut i: usize = 0;
    while i < v.len()
        invariant
            0 <= i <= v@.len(),
            out@ =~= old(out)@ + words_of_s(v@.take(i as int)),
        decreases v@.len() - i,
    {
        proof {
            assert(words_of_s(v@.take(i as int + 1))
                =~= words_of_s(v@.take(i as int)).push(v@[i as int] as u64));
        }
        out.push(v[i] as u64);
        i = i + 1;
    }
    proof {
        assert(v@.take(v@.len() as int) =~= v@);
        assert(out@ =~= old(out)@ + words_of_s(v@));
    }
}

/// The little-endian bytes of a word vector.
pub fn words_to_bytes(ws: &Vec<u64>) -> (r: Vec<u8>)
    ensures
        r@ == wtb_s(ws@),
{
    let mut r: Vec<u8> = Vec::new();
    let mut i: usize = 0;
    while i < ws.len()
        invariant
            0 <= i <= ws@.len(),
            r@ =~= wtb_s(ws@.take(i as int)),
        decreases ws@.len() - i,
    {
        let w = ws[i];
        let mut k: u64 = 0;
        while k < 8
            invariant
                0 <= k <= 8,
                w == ws@[i as int],
                i < ws@.len(),
                r@ =~= wtb_s(ws@.take(i as int)) + le8_s(w).take(k as int),
            decreases 8 - k,
        {
            proof {
                assert(le8_s(w).take(k as int + 1)
                    =~= le8_s(w).take(k as int).push(le8_s(w)[k as int]));
            }
            r.push(((w >> (8 * k)) & 0xff) as u8);
            k = k + 1;
        }
        proof {
            assert(le8_s(w).take(8) =~= le8_s(w));
            assert(ws@.take(i as int + 1).drop_last() =~= ws@.take(i as int));
            assert(wtb_s(ws@.take(i as int + 1))
                == wtb_s(ws@.take(i as int)) + le8_s(w));
        }
        i = i + 1;
    }
    proof {
        assert(ws@.take(ws@.len() as int) =~= ws@);
    }
    r
}

/// The words of a byte vector whose length is a multiple of eight.
pub fn bytes_to_words(bs: &Vec<u8>) -> (r: Vec<u64>)
    requires
        bs@.len() % 8 == 0,
    ensures
        r@ == btw_s(bs@),
{
    let total = bs.len();
    let n = total / 8;
    let mut r: Vec<u64> = Vec::new();
    let mut i: usize = 0;
    while i < n
        invariant
            0 <= i <= n,
            n == bs@.len() / 8,
            bs@.len() % 8 == 0,
            total == bs@.len(),
            8 * n == total,
            r@ =~= btw_s(bs@.take(8 * i as int)),
        decreases n - i,
    {
        let base = 8 * i;
        let w: u64 = (bs[base] as u64) | ((bs[base + 1] as u64) << 8)
            | ((bs[base + 2] as u64) << 16) | ((bs[base + 3] as u64) << 24)
            | ((bs[base + 4] as u64) << 32) | ((bs[base + 5] as u64) << 40)
            | ((bs[base + 6] as u64) << 48) | ((bs[base + 7] as u64) << 56);
        proof {
            let hi = 8 * (i as int) + 8;
            assert(bs@.take(hi).subrange(0, hi - 8) =~= bs@.take(8 * i as int));
            assert(bs@.take(hi).subrange(hi - 8, hi) =~= bs@.subrange(8 * i as int, hi));
            assert(w == from8_s(bs@.subrange(8 * i as int, hi)));
            assert(btw_s(bs@.take(hi))
                == btw_s(bs@.take(8 * i as int)).push(from8_s(bs@.subrange(8 * i as int, hi))));
        }
        r.push(w);
        i = i + 1;
    }
    proof {
        assert(bs@.take(8 * n as int) =~= bs@);
    }
    r
}

} // verus!
