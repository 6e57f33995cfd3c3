//! Decoding of raw PCM bytes into 32-bit little-endian words.
//!
//! Clients send audio as a plain stream of 32-bit floats in little-endian
//! byte order. Each group of four bytes is one sample; a trailing group of
//! fewer than four bytes is ignored. The words produced here are the bit
//! patterns of the samples.

use vstd::prelude::*;
use vstd::arithmetic::div_mod::{
    lemma_fundamental_div_mod, lemma_fundamental_div_mod_converse, lemma_mod_bound,
};

verus! {

/// The word whose little-endian bytes are `b0, b1, b2, b3`.
pub open spec fn le_word(b0: u8, b1: u8, b2: u8, b3: u8) -> u32 {
    (b0 + 256 * b1 + 65536 * b2 + 16777216 * b3) as u32
}

/// The words of a byte stream: word `k` is made of bytes `4k .. 4k + 4`;
/// a trailing partial group is dropped.
pub open spec fn le_words_of(bytes: Seq<u8>) -> Seq<u32> {
    Seq::new(
        bytes.len() / 4,
        |k: int| le_word(bytes[4 * k], bytes[4 * k + 1], bytes[4 * k + 2], bytes[4 * k + 3]),
    )
}

/// Decodes a byte stream into its little-endian 32-bit words.
pub fn le_words(bytes: &[u8]) -> (words: Vec<u32>)
    ensures
        words@ == le_words_of(bytes@),
        words@.len() == bytes@.len() / 4,
        forall|k: int|
            0 <= k < words@.len() ==> {
                &&& #[trigger] words@[k] % 256 == bytes@[4 * k]
                &&& (words@[k] / 256) % 256 == bytes@[4 * k + 1]
                &&& (words@[k] / 65536) % 256 == bytes@[4 * k + 2]
                &&& words@[k] / 16777216 == bytes@[4 * k + 3]
            },
{
    let mut words: Vec<u32> = Vec::new();
    let mut i: usize = 0;
    let ghost mut k: int = 0;
    while bytes.len() - i >= 4
        invariant
            i <= bytes.len(),
            i == 4 * k,
            words@.len() == k,
            forall|q: int|
                0 <= q < k ==> #[trigger] words@[q] == le_word(
                    bytes@[4 * q],
                    bytes@[4 * q + 1],
                    bytes@[4 * q + 2],
                    bytes@[4 * q + 3],
                ),
        decreases bytes.len() - i,
    {
        let w: u32 = (bytes[i] as u32) + (bytes[i + 1] as u32) * 256 + (bytes[i + 2] as u32)
            * 65536 + (bytes[i + 3] as u32) * 16777216;
        words.push(w);
        i = i + 4;
        proof {
            k = k + 1;
        }
    }
    proof {
        lemma_fundamental_div_mod_converse(bytes.len() as int, 4, k, bytes.len() - i);
    }
    assert(words@ =~= le_words_of(bytes@));
    assert forall|k: int| 0 <= k < words@.len() implies {
        &&& #[trigger] words@[k] % 256 == bytes@[4 * k]
        &&& (words@[k] / 256) % 256 == bytes@[4 * k + 1]
        &&& (words@[k] / 65536) % 256 == bytes@[4 * k + 2]
        &&& words@[k] / 16777216 == bytes@[4 * k + 3]
    } by {
        lemma_le_word_bytes(bytes@, k);
    }
    words
}

/// Each decoded word gives back its four bytes, least significant first:
/// byte `4k` is the word's low byte and byte `4k + 3` its high byte, so the
/// sign and exponent bits of a float sample come from its last byte.
pub proof fn lemma_le_word_bytes(bytes: Seq<u8>, k: int)
    requires
        0 <= k < bytes.len() / 4,
    ensures
        le_words_of(bytes).len() == bytes.len() / 4,
        4 * k + 3 < bytes.len(),
        le_words_of(bytes)[k] % 256 == bytes[4 * k],
        (le_words_of(bytes)[k] / 256) % 256 == bytes[4 * k + 1],
        (le_words_of(bytes)[k] / 65536) % 256 == bytes[4 * k + 2],
        le_words_of(bytes)[k] / 16777216 == bytes[4 * k + 3],
{
    lemma_fundamental_div_mod(bytes.len() as int, 4);
    lemma_mod_bound(bytes.len() as int, 4);
    let b0 = bytes[4 * k] as int;
    let b1 = bytes[4 * k + 1] as int;
    let b2 = bytes[4 * k + 2] as int;
    let b3 = bytes[4 * k + 3] as int;
    let w = le_words_of(bytes)[k] as int;
    assert(w == b0 + 256 * b1 + 65536 * b2 + 16777216 * b3);
    lemma_fundamental_div_mod_converse(w, 256, b1 + 256 * b2 + 65536 * b3, b0);
    lemma_fundamental_div_mod_converse(w / 256, 256, b2 + 256 * b3, b1);
    lemma_fundamental_div_mod_converse(w, 65536, b2 + 256 * b3, b0 + 256 * b1);
    lemma_fundamental_div_mod_converse(w / 65536, 256, b3, b2);
    lemma_fundamental_div_mod_converse(w, 16777216, b3, b0 + 256 * b1 + 65536 * b2);
}

/// Decoding is compatible with splitting the stream at a word boundary: the
/// words of `a + b` are the words of `a` followed by the words of `b`.
pub proof fn lemma_le_words_append(a: Seq<u8>, b: Seq<u8>)
    requires
        a.len() % 4 == 0,
    ensures
        le_words_of(a + b) == le_words_of(a) + le_words_of(b),
{
    let qa = a.len() / 4;
    let qb = b.len() / 4;
    lemma_fundamental_div_mod_converse(a.len() as int, 4, qa as int, 0);
    lemma_fundamental_div_mod(b.len() as int, 4);
    lemma_mod_bound(b.len() as int, 4);
    lemma_fundamental_div_mod_converse(
        (a.len() + b.len()) as int,
        4,
        (qa + qb) as int,
        (b.len() % 4) as int,
    );
    let lhs = le_words_of(a + b);
    let rhs = le_words_of(a) + le_words_of(b);
    assert forall|k: int| 0 <= k < lhs.len() implies lhs[k] == rhs[k] by {
        if k >= qa {
            assert(4 * k - a.len() == 4 * (k - qa));
        }
    }
    assert(lhs =~= rhs);
}

} // verus!
