//! Triangular mel filterbank layout.
//!
//! Filter `i` rises linearly from zero at FFT bin `bins[i]` to one at
//! `bins[i + 1]` and falls back to zero at `bins[i + 2]`. The bin edges come
//! from the mel scale; this module lays the filters out over the spectrum and
//! gives every weight as an exact ratio of bin distances.

use vstd::prelude::*;

verus! {

/// Mel bands of the spectrogram.
pub const MEL_BINS: usize = 128;

/// A filter weight `num / den`; `den` is never zero.
#[derive(Clone, Copy, Debug, PartialEq, Eq, Structural)]
pub struct Weight {
    pub num: usize,
    pub den: usize,
}

/// The weight of filter `i` at spectrum bin `j`, as (numerator, denominator).
pub open spec fn filter_weight(bins: Seq<usize>, i: int, j: int) -> (nat, nat) {
    if bins[i] <= j < bins[i + 1] {
        ((j - bins[i]) as nat, (bins[i + 1] - bins[i]) as nat)
    } else if bins[i + 1] <= j < bins[i + 2] {
        ((bins[i + 2] - j) as nat, (bins[i + 2] - bins[i + 1]) as nat)
    } else {
        (0, 1)
    }
}

/// Every rising and falling edge lies within a spectrum of `width` bins.
pub open spec fn edges_fit(bins: Seq<usize>, width: nat) -> bool {
    forall|i: int|
        0 <= i < bins.len() - 2 ==> {
            &&& #[trigger] bins[i] < bins[i + 1] ==> bins[i + 1] <= width
            &&& bins[i + 1] < bins[i + 2] ==> bins[i + 2] <= width
        }
}

/// The filterbank: `bins.len() - 2` filters of `width` weights each.
pub open spec fn filterbank_of(bins: Seq<usize>, width: nat) -> Seq<Seq<(nat, nat)>> {
    Seq::new(
        (bins.len() - 2) as nat,
        |i: int| Seq::new(width, |j: int| filter_weight(bins, i, j)),
    )
}

/// A weight as a (numerator, denominator) pair.
pub open spec fn weight_view(w: Weight) -> (nat, nat) {
    (w.num as nat, w.den as nat)
}

/// The weights of one filter.
pub open spec fn weights_view(row: Seq<Weight>) -> Seq<(nat, nat)> {
    row.map_values(|w: Weight| weight_view(w))
}

/// The weights of each filter.
pub open spec fn filters_view(f: Seq<Vec<Weight>>) -> Seq<Seq<(nat, nat)>> {
    f.map_values(|row: Vec<Weight>| weights_view(row@))
}

/// Lays out the triangular filters with edges `bins` over a spectrum of
/// `width` bins.
pub fn triangular_filters(bins: &[usize], width: usize) -> (filters: Vec<Vec<Weight>>)
    requires
        bins.len() >= 2,
        edges_fit(bins@, width as nat),
    ensures
        filters_view(filters@) == filterbank_of(bins@, width as nat),
        filters@.len() == bins.len() - 2,
        forall|i: int|
            0 <= i < filters@.len() ==> (#[trigger] filters@[i])@.len() == width,
        forall|i: int, j: int|
            0 <= i < filters@.len() && 0 <= j < width ==> {
                let w = #[trigger] filters@[i]@[j];
                &&& w.den > 0
                &&& w.num <= w.den
                &&& bins@[i] <= j < bins@[i + 1] ==> w.num * (bins@[i + 1] - bins@[i]) == (j
                    - bins@[i]) * w.den
                &&& bins@[i + 1] <= j < bins@[i + 2] ==> w.num * (bins@[i + 2] - bins@[i + 1])
                    == (bins@[i + 2] - j) * w.den
                &&& !(bins@[i] <= j < bins@[i + 1]) && !(bins@[i + 1] <= j < bins@[i + 2])
                    ==> w.num == 0
            },
{
    let count = bins.len() - 2;
    let mut filters: Vec<Vec<Weight>> = Vec::new();
    let mut i: usize = 0;
    while i < count
        invariant
            count == bins.len() - 2,
            i <= count,
            filters@.len() == i,
            forall|q: int|
                0 <= q < i ==> #[trigger] filters_view(filters@)[q] == Seq::new(
                    width as nat,
                    |j: int| filter_weight(bins@, q, j),
                ),
        decreases count - i,
    {
        let lo = bins[i];
        let mid = bins[i + 1];
        let hi = bins[i + 2];
        let ghost target = Seq::new(width as nat, |j: int| filter_weight(bins@, i as int, j));
        let mut row: Vec<Weight> = Vec::new();
        let mut j: usize = 0;
        while j < width
            invariant
                j <= width,
                lo == bins@[i as int],
                mid == bins@[i + 1],
                hi == bins@[i + 2],
                target == Seq::new(width as nat, |j: int| filter_weight(bins@, i as int, j)),
                weights_view(row@) == target.take(j as int),
            decreases width - j,
        {
            let w = if lo <= j && j < mid {
                Weight { num: j - lo, den: mid - lo }
            } else if mid <= j && j < hi {
                Weight { num: hi - j, den: hi - mid }
            } else {
                Weight { num: 0, den: 1 }
            };
            assert(weight_view(w) == filter_weight(bins@, i as int, j as int));
            let ghost before = row@;
            row.push(w);
            assert(weights_view(row@) =~= weights_view(before).push(weight_view(w)));
            j = j + 1;
            assert(weights_view(row@) =~= target.take(j as int));
        }
        assert(weights_view(row@) =~= target);
        let ghost prior = filters@;
        filters.push(row);
        assert forall|q: int| 0 <= q < i + 1 implies #[trigger] filters_view(filters@)[q]
            == Seq::new(width as nat, |j: int| filter_weight(bins@, q, j)) by {
            if q < i {
                assert(filters@[q] == prior[q]);
                assert(filters_view(prior)[q] == Seq::new(
                    width as nat,
                    |j: int| filter_weight(bins@, q, j),
                ));
            }
        }
        i = i + 1;
    }
    assert(filters_view(filters@) =~= filterbank_of(bins@, width as nat));
    assert forall|i: int| 0 <= i < filters@.len() implies (#[trigger] filters@[i])@.len()
        == width by {
        assert(filters_view(filters@)[i] == weights_view(filters@[i]@));
        assert(filterbank_of(bins@, width as nat)[i].len() == width);
    }
    assert forall|i: int, j: int| 0 <= i < filters@.len() && 0 <= j < width implies {
        let w = #[trigger] filters@[i]@[j];
        &&& w.den > 0
        &&& w.num <= w.den
        &&& bins@[i] <= j < bins@[i + 1] ==> w.num * (bins@[i + 1] - bins@[i]) == (j - bins@[i])
            * w.den
        &&& bins@[i + 1] <= j < bins@[i + 2] ==> w.num * (bins@[i + 2] - bins@[i + 1]) == (
        bins@[i + 2] - j) * w.den
        &&& !(bins@[i] <= j < bins@[i + 1]) && !(bins@[i + 1] <= j < bins@[i + 2]) ==> w.num
            == 0
    } by {
        assert(filters_view(filters@)[i] == weights_view(filters@[i]@));
        lemma_filter_edges(bins@, width as nat, i, j);
        lemma_weight_in_unit_range(bins@, i, j);
        assert(weights_view(filters@[i]@)[j] == weight_view(filters@[i]@[j]));
    }
    filters
}

/// A filter is linear on each edge and zero elsewhere: on its rising edge
/// `[bins[i], bins[i + 1])` the weight at bin `j` is
/// `(j - bins[i]) / (bins[i + 1] - bins[i])`, on its falling edge
/// `[bins[i + 1], bins[i + 2])` it is `(bins[i + 2] - j) / (bins[i + 2] - bins[i + 1])`,
/// and it is zero at every other bin. Weights are compared as ratios.
pub proof fn lemma_filter_edges(bins: Seq<usize>, width: nat, i: int, j: int)
    requires
        0 <= i < bins.len() - 2,
        0 <= j < width,
    ensures
        filterbank_of(bins, width)[i].len() == width,
        filterbank_of(bins, width)[i][j].1 > 0,
        bins[i] <= j < bins[i + 1] ==> filterbank_of(bins, width)[i][j].0 * (bins[i + 1]
            - bins[i]) == (j - bins[i]) * filterbank_of(bins, width)[i][j].1,
        bins[i + 1] <= j < bins[i + 2] ==> filterbank_of(bins, width)[i][j].0 * (bins[i + 2]
            - bins[i + 1]) == (bins[i + 2] - j) * filterbank_of(bins, width)[i][j].1,
        !(bins[i] <= j < bins[i + 1]) && !(bins[i + 1] <= j < bins[i + 2])
            ==> filterbank_of(bins, width)[i][j].0 == 0,
{
}

/// Every weight lies between zero and one: its denominator is positive and
/// at least its numerator.
pub proof fn lemma_weight_in_unit_range(bins: Seq<usize>, i: int, j: int)
    requires
        0 <= i < bins.len() - 2,
    ensures
        filter_weight(bins, i, j).1 > 0,
        filter_weight(bins, i, j).0 <= filter_weight(bins, i, j).1,
{
}

/// A filter over ordered edges is zero outside `[bins[i], bins[i + 2])`.
pub proof fn lemma_weight_support(bins: Seq<usize>, i: int, j: int)
    requires
        0 <= i < bins.len() - 2,
        bins[i] <= bins[i + 1] <= bins[i + 2],
        j < bins[i] || j >= bins[i + 2],
    ensures
        filter_weight(bins, i, j).0 == 0,
{
}

/// A filter whose falling edge is not empty reaches one at its centre bin.
pub proof fn lemma_weight_peak(bins: Seq<usize>, i: int)
    requires
        0 <= i < bins.len() - 2,
        bins[i + 1] < bins[i + 2],
    ensures
        filter_weight(bins, i, bins[i + 1] as int).0 == filter_weight(
            bins,
            i,
            bins[i + 1] as int,
        ).1,
{
}

} // verus!
