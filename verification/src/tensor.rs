//! Model input layout, built on a four-axis `ndarray` array.
//!
//! The detector feeds its model a tensor of shape `[1, channels, rows, cols]`
//! in which every channel carries the same mel history: the value at
//! `[0, c, m, t]` is bin `m` of frame `t`, and cells with no frame behind them
//! stay zero. Elements are handled as 32-bit words (the bit patterns of the
//! samples), so the layout is exact whatever they encode.

use vstd::prelude::*;
use vstd::arithmetic::div_mod::lemma_fundamental_div_mod_converse;
use ndarray::Array4;
use crate::framing::nested_view;

verus! {

/// A four-axis array of 32-bit words, held in an `ndarray::Array4`.
#[verifier::external_body]
pub struct Tensor4 {
    array: Array4<u32>,
}

/// The elements of a four-axis array, in logical (row-major) order.
pub uninterp spec fn tensor4_elements(a: Tensor4) -> Seq<u32>;

/// The axis lengths of a four-axis array.
pub uninterp spec fn tensor4_shape(a: Tensor4) -> Seq<usize>;

/// Position of the element `[i0, i1, i2, i3]` in row-major order.
pub open spec fn row_major_index(shape: Seq<usize>, i0: int, i1: int, i2: int, i3: int) -> int {
    ((i0 * shape[1] + i1) * shape[2] + i2) * shape[3] + i3
}

/// `ndarray::Array4::zeros`: an array of the given axis lengths, every element
/// zero. The call panics when the product of the lengths overflows `isize`,
/// which `requires` rules out.
#[verifier::external_body]
fn zeros4(d0: usize, d1: usize, d2: usize, d3: usize) -> (a: Tensor4)
    requires
        d0 * d1 * d2 * d3 <= isize::MAX,
        1 <= d0,
        1 <= d1,
        1 <= d2,
        1 <= d3,
    ensures
        tensor4_shape(a) == seq![d0, d1, d2, d3],
        tensor4_elements(a) == Seq::new((d0 * d1 * d2 * d3) as nat, |i: int| 0u32),
{
    Tensor4 { array: Array4::<u32>::zeros((d0, d1, d2, d3)) }
}

/// `IndexMut` of `ndarray::ArrayBase` with a `[usize; 4]` index: writes one
/// element and leaves the shape and every other element as they were. It
/// panics on an index out of bounds, which `requires` rules out.
#[verifier::external_body]
fn set4(a: &mut Tensor4, i0: usize, i1: usize, i2: usize, i3: usize, value: u32)
    requires
        tensor4_shape(*old(a)).len() == 4,
        i0 < tensor4_shape(*old(a))[0],
        i1 < tensor4_shape(*old(a))[1],
        i2 < tensor4_shape(*old(a))[2],
        i3 < tensor4_shape(*old(a))[3],
    ensures
        tensor4_shape(*final(a)) == tensor4_shape(*old(a)),
        tensor4_elements(*final(a)) == tensor4_elements(*old(a)).update(
            row_major_index(tensor4_shape(*old(a)), i0 as int, i1 as int, i2 as int, i3 as int),
            value,
        ),
{
    a.array[[i0, i1, i2, i3]] = value;
}

/// `ndarray::ArrayBase::iter`, collected: the elements in logical order.
#[verifier::external_body]
fn elements4(a: &Tensor4) -> (v: Vec<u32>)
    ensures
        v@ == tensor4_elements(*a),
{
    a.array.iter().copied().collect()
}

/// `ndarray::ArrayBase::shape`, copied into a vector.
#[verifier::external_body]
fn shape4(a: &Tensor4) -> (v: Vec<usize>)
    ensures
        v@ == tensor4_shape(*a),
{
    a.array.shape().to_vec()
}

/// Bin `m` of frame `t`, or zero where there is no such frame or bin.
pub open spec fn frame_cell(frames: Seq<Seq<u32>>, m: int, t: int) -> u32 {
    if 0 <= t < frames.len() && 0 <= m < frames[t].len() {
        frames[t][m]
    } else {
        0
    }
}

/// The row-major contents of the model input of shape
/// `[1, channels, rows, cols]` for the given frames.
pub open spec fn model_input(frames: Seq<Seq<u32>>, channels: nat, rows: nat, cols: nat) -> Seq<u32> {
    Seq::new(
        channels * rows * cols,
        |i: int| frame_cell(frames, (i / cols as int) % rows as int, i % cols as int),
    )
}

/// Which frame and bin stand at a position of the model input.
proof fn lemma_position(k: int, c: int, m: int, t: int, rows: int, cols: int)
    requires
        0 <= m < rows,
        0 <= t < cols,
        0 <= c,
        k == (c * rows + m) * cols + t,
    ensures
        k % cols == t,
        (k / cols) % rows == m,
{
    lemma_fundamental_div_mod_converse(k, cols, c * rows + m, t);
    lemma_fundamental_div_mod_converse(c * rows + m, rows, c, m);
}

/// The model input holds bin `m` of frame `t` at `[0, c, m, t]`, in every
/// channel `c`, and zero where no frame or bin stands behind the cell.
pub proof fn lemma_model_input_cell(
    frames: Seq<Seq<u32>>,
    channels: usize,
    rows: usize,
    cols: usize,
    c: int,
    m: int,
    t: int,
)
    requires
        0 <= c < channels,
        0 <= m < rows,
        0 <= t < cols,
    ensures
        model_input(frames, channels as nat, rows as nat, cols as nat).len() == channels * rows
            * cols,
        ({
            let k = (c * rows + m) * cols + t;
            &&& k == row_major_index(seq![1usize, channels, rows, cols], 0, c, m, t)
            &&& 0 <= k < model_input(frames, channels as nat, rows as nat, cols as nat).len()
            &&& model_input(frames, channels as nat, rows as nat, cols as nat)[k] == if t
                < frames.len() && m < frames[t].len() {
                frames[t][m]
            } else {
                0u32
            }
        }),
{
    let k = (c * rows + m) * cols + t;
    assert(row_major_index(seq![1usize, channels, rows, cols], 0, c, m, t) == k);
    lemma_position(k, c, m, t, rows as int, cols as int);
    assert(0 <= k < channels * rows * cols) by (nonlinear_arith)
        requires
            0 <= c < channels,
            0 <= m < rows,
            0 <= t < cols,
            k == (c * rows + m) * cols + t,
    ;
}

/// Lays the frames out as the model input of shape
/// `[1, channels, rows, cols]`: frame `t`, bin `m` goes to `[0, c, m, t]` for
/// every channel `c`; cells without a frame stay zero. Returns the shape and
/// the elements in row-major order.
pub fn model_input_layout(frames: &Vec<Vec<u32>>, channels: usize, rows: usize, cols: usize) -> (res: (
    Vec<usize>,
    Vec<u32>,
))
    requires
        1 <= channels,
        1 <= rows,
        1 <= cols,
        channels * rows * cols <= isize::MAX,
        frames.len() <= cols,
        forall|t: int| 0 <= t < frames.len() ==> #[trigger] frames[t].len() <= rows,
    ensures
        res.0@ == seq![1usize, channels, rows, cols],
        res.1@ == model_input(nested_view(frames@), channels as nat, rows as nat, cols as nat),
{
    let ghost fv = nested_view(frames@);
    let ghost spec = model_input(fv, channels as nat, rows as nat, cols as nat);
    assert(1 * channels * rows * cols == channels * rows * cols) by (nonlinear_arith);
    assert(channels * rows <= channels * rows * cols) by (nonlinear_arith)
        requires
            1 <= cols,
            1 <= channels,
            1 <= rows,
    ;
    let mut a = zeros4(1, channels, rows, cols);
    let total: usize = channels * rows * cols;
    let mut k: usize = 0;
    let mut c: usize = 0;
    let mut m: usize = 0;
    let mut t: usize = 0;
    while k < total
        invariant
            total == channels * rows * cols,
            total <= isize::MAX,
            1 <= rows,
            1 <= cols,
            t < cols,
            m < rows,
            k == (c * rows + m) * cols + t,
            k < total ==> c < channels,
            k <= total,
            frames.len() <= cols,
            forall|t: int| 0 <= t < frames.len() ==> #[trigger] frames[t].len() <= rows,
            fv == nested_view(frames@),
            spec == model_input(fv, channels as nat, rows as nat, cols as nat),
            tensor4_shape(a) == seq![1usize, channels, rows, cols],
            tensor4_elements(a).len() == total,
            forall|i: int|
                0 <= i < total ==> #[trigger] tensor4_elements(a)[i] == if i < k {
                    spec[i]
                } else {
                    0u32
                },
        decreases total - k,
    {
        let ghost before = tensor4_elements(a);
        proof {
            lemma_position(k as int, c as int, m as int, t as int, rows as int, cols as int);
        }
        assert(row_major_index(tensor4_shape(a), 0, c as int, m as int, t as int) == k);
        if t < frames.len() && m < frames[t].len() {
            set4(&mut a, 0, c, m, t, frames[t][m]);
        }
        assert(spec[k as int] == frame_cell(fv, m as int, t as int));
        assert(forall|i: int|
            0 <= i < total ==> #[trigger] tensor4_elements(a)[i] == if i <= k {
                spec[i]
            } else {
                0u32
            });
        let ghost k_old = k as int;
        k = k + 1;
        if t + 1 < cols {
            t = t + 1;
        } else {
            t = 0;
            assert((c * rows + m) * cols + cols == (c * rows + m + 1) * cols) by (nonlinear_arith);
            if m + 1 < rows {
                m = m + 1;
            } else {
                m = 0;
                assert(c * rows + rows == (c + 1) * rows) by (nonlinear_arith);
                if k < total {
                    assert((c + 1) * rows * cols <= total) by (nonlinear_arith)
                        requires
                            k == (c + 1) * rows * cols,
                            k < total,
                    ;
                    assert(c + 1 < channels) by (nonlinear_arith)
                        requires
                            (c + 1) * rows * cols < channels * rows * cols,
                            1 <= rows,
                            1 <= cols,
                    ;
                }
                c = c + 1;
            }
        }
    }
    let data = elements4(&a);
    let shape = shape4(&a);
    assert(data@ =~= spec);
    (shape, data)
}

}
