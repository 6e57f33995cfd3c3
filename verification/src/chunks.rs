//! Fixed-size input chunks for the resampler.
//!
//! A recorded file is fed to the resampler in chunks of a fixed number of
//! samples; the last, shorter chunk is completed with a fill value.

use vstd::prelude::*;
use vstd::arithmetic::div_mod::lemma_fundamental_div_mod_converse;
use crate::framing::nested_view;

verus! {

/// Samples in one resampler input chunk.
pub const INPUT_CHUNK_SIZE: usize = 4096;

/// The number of chunks of `size` samples needed to hold `n` samples.
pub open spec fn chunk_count(n: nat, size: nat) -> nat {
    ((n + size - 1) as nat / size) as nat
}

/// Chunk `k` of `s`: the samples `k * size .. (k + 1) * size`, with `fill`
/// in every place past the end of `s`.
pub open spec fn padded_chunk<T>(s: Seq<T>, size: nat, fill: T, k: int) -> Seq<T> {
    Seq::new(size, |j: int| if k * size + j < s.len() { s[k * size + j] } else { fill })
}

/// All chunks of `s`, in order.
pub open spec fn padded_chunks<T>(s: Seq<T>, size: nat, fill: T) -> Seq<Seq<T>> {
    Seq::new(chunk_count(s.len(), size), |k: int| padded_chunk(s, size, fill, k))
}

/// Cuts `samples` into chunks of `size`, completing the last one with `fill`.
pub fn pad_chunks<T: Copy>(samples: &[T], size: usize, fill: T) -> (chunks: Vec<Vec<T>>)
    requires
        size > 0,
    ensures
        nested_view(chunks@) == padded_chunks(samples@, size as nat, fill),
{
    let n = samples.len();
    let mut chunks: Vec<Vec<T>> = Vec::new();
    let mut start: usize = 0;
    let ghost mut k: int = 0;
    while start < n
        invariant
            n == samples.len(),
            size > 0,
            start <= n,
            chunks@.len() == k,
            0 <= k,
            start < n ==> start == k * size,
            start == n ==> n <= k * size && (k == 0 || (k - 1) * size < n),
            forall|q: int|
                0 <= q < k ==> #[trigger] nested_view(chunks@)[q] == padded_chunk(
                    samples@,
                    size as nat,
                    fill,
                    q,
                ),
        decreases n - start,
    {
        let mut chunk: Vec<T> = Vec::new();
        let mut j: usize = 0;
        while j < size
            invariant
                j <= size,
                start < n,
                n == samples.len(),
                start == k * size,
                chunk@ == padded_chunk(samples@, size as nat, fill, k).take(j as int),
            decreases size - j,
        {
            if j < n - start {
                chunk.push(samples[start + j]);
            } else {
                chunk.push(fill);
            }
            j = j + 1;
            assert(chunk@ =~= padded_chunk(samples@, size as nat, fill, k).take(j as int));
        }
        assert(chunk@ =~= padded_chunk(samples@, size as nat, fill, k));
        let ghost prior = nested_view(chunks@);
        chunks.push(chunk);
        assert(nested_view(chunks@) =~= prior.push(chunk@));
        assert(k * size + size == (k + 1) * size) by (nonlinear_arith);
        if n - start > size {
            start = start + size;
        } else {
            start = n;
        }
        proof {
            k = k + 1;
        }
    }
    proof {
        if k > 0 {
            assert((k - 1) * size + size == k * size) by (nonlinear_arith);
            lemma_fundamental_div_mod_converse(
                (n + size - 1) as int,
                size as int,
                k,
                n + size - 1 - k * size,
            );
        } else {
            lemma_fundamental_div_mod_converse((n + size - 1) as int, size as int, 0, (n + size
                - 1) as int);
        }
    }
    assert(nested_view(chunks@) =~= padded_chunks(samples@, size as nat, fill));
    chunks
}

/// Padding holds nothing but the fill value: every position of the chunks at
/// or past the end of the samples holds `fill`, and every chunk holds exactly
/// `size` items.
pub proof fn lemma_padding_is_fill<T>(s: Seq<T>, size: nat, fill: T, i: int)
    requires
        size > 0,
        s.len() <= i < padded_chunks(s, size, fill).len() * size,
    ensures
        0 <= i / (size as int) < padded_chunks(s, size, fill).len(),
        0 <= i % (size as int) < size,
        padded_chunks(s, size, fill)[i / (size as int)].len() == size,
        padded_chunks(s, size, fill)[i / (size as int)][i % (size as int)] == fill,
{
    let d = size as int;
    let c = padded_chunks(s, size, fill).len() as int;
    vstd::arithmetic::div_mod::lemma_fundamental_div_mod(i, d);
    vstd::arithmetic::div_mod::lemma_mod_bound(i, d);
    assert(0 <= i / d < c) by (nonlinear_arith)
        requires
            i == d * (i / d) + i % d,
            0 <= i % d < d,
            0 <= i < c * d,
            d > 0,
    ;
    assert((i / d) * d + i % d == i) by (nonlinear_arith)
        requires
            i == d * (i / d) + i % d,
    ;
}

/// Every sample lands in its chunk: sample `i` is element `i % size` of chunk
/// `i / size`; the chunks hold all samples and pad less than one chunk.
pub proof fn lemma_chunks_cover<T>(s: Seq<T>, size: nat, fill: T, i: int)
    requires
        size > 0,
        0 <= i < s.len(),
    ensures
        0 <= i / (size as int) < padded_chunks(s, size, fill).len(),
        0 <= i % (size as int) < size,
        padded_chunks(s, size, fill)[i / (size as int)][i % (size as int)] == s[i],
        s.len() <= padded_chunks(s, size, fill).len() * size < s.len() + size,
{
    let d = size as int;
    let n = s.len() as int;
    let c = chunk_count(s.len(), size) as int;
    vstd::arithmetic::div_mod::lemma_fundamental_div_mod(i, d);
    vstd::arithmetic::div_mod::lemma_mod_bound(i, d);
    vstd::arithmetic::div_mod::lemma_fundamental_div_mod(n + d - 1, d);
    vstd::arithmetic::div_mod::lemma_mod_bound(n + d - 1, d);
    assert(c * d <= n + d - 1 && n + d - 1 < c * d + d) by (nonlinear_arith)
        requires
            n + d - 1 == d * c + (n + d - 1) % d,
            0 <= (n + d - 1) % d < d,
    ;
    assert(i / d < c) by (nonlinear_arith)
        requires
            i == d * (i / d) + i % d,
            0 <= i % d < d,
            0 <= i < n,
            n <= c * d,
            d > 0,
    ;
    assert(0 <= i / d) by (nonlinear_arith)
        requires
            i == d * (i / d) + i % d,
            0 <= i % d < d,
            0 <= i,
            d > 0,
    ;
    assert((i / d) * d + i % d == i) by (nonlinear_arith)
        requires
            i == d * (i / d) + i % d,
    ;
}

} // verus!
