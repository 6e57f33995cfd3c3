use vorsana::filterbank::{triangular_filters, Weight, MEL_BINS};
use vorsana::framing::{HISTORY_FRAMES, WINDOW_SIZE};
use vorsana::model::MODEL_CHANNELS;
use vorsana::tensor::model_input_layout;

fn w(num: usize, den: usize) -> Weight {
    Weight { num, den }
}

#[test]
fn triangular_filters_rise_and_fall() {
    let filters = triangular_filters(&[0, 2, 4, 4, 6], 7);
    assert_eq!(filters.len(), 3);
    assert_eq!(
        filters[0],
        vec![w(0, 2), w(1, 2), w(2, 2), w(1, 2), w(0, 1), w(0, 1), w(0, 1)]
    );
    assert_eq!(
        filters[1],
        vec![w(0, 1), w(0, 1), w(0, 2), w(1, 2), w(0, 1), w(0, 1), w(0, 1)]
    );
    assert_eq!(
        filters[2],
        vec![w(0, 1), w(0, 1), w(0, 1), w(0, 1), w(2, 2), w(1, 2), w(0, 1)]
    );
}

#[test]
fn filterbank_of_mel_size() {
    let width = WINDOW_SIZE / 2 + 1;
    let bins: Vec<usize> = (0..MEL_BINS + 2).map(|i| i * 200 / (MEL_BINS + 1)).collect();
    let filters = triangular_filters(&bins, width);
    assert_eq!(filters.len(), MEL_BINS);
    for (i, f) in filters.iter().enumerate() {
        assert_eq!(f.len(), width);
        assert!(f.iter().all(|x| x.den > 0 && x.num <= x.den));
        if bins[i + 1] < bins[i + 2] {
            assert_eq!(f[bins[i + 1]].num, f[bins[i + 1]].den);
        }
    }
}

#[test]
fn model_input_replicates_frames_across_channels() {
    let frames = vec![vec![1, 2], vec![3]];
    let (shape, data) = model_input_layout(&frames, 2, 2, 3);
    assert_eq!(shape, vec![1, 2, 2, 3]);
    assert_eq!(data, vec![1, 3, 0, 2, 0, 0, 1, 3, 0, 2, 0, 0]);
}

#[test]
fn model_input_of_full_history() {
    let rows = 128;
    let frames: Vec<Vec<u32>> = (0..HISTORY_FRAMES as u32)
        .map(|t| (0..rows as u32).map(|m| t * 1000 + m).collect())
        .collect();
    let (shape, data) = model_input_layout(&frames, MODEL_CHANNELS, rows, HISTORY_FRAMES);
    assert_eq!(shape, vec![1, MODEL_CHANNELS, rows, HISTORY_FRAMES]);
    assert_eq!(data.len(), MODEL_CHANNELS * rows * HISTORY_FRAMES);
    for c in 0..MODEL_CHANNELS {
        for (m, t) in [(0usize, 0usize), (5, 7), (127, 400)] {
            let idx = (c * rows + m) * HISTORY_FRAMES + t;
            assert_eq!(data[idx], (t * 1000 + m) as u32);
        }
    }
}

#[test]
fn model_input_bits_round_trip_floats() {
    let frames = vec![vec![0.5f32.to_bits(), (-1.25f32).to_bits()]];
    let (_, data) = model_input_layout(&frames, 1, 2, 1);
    let values: Vec<f32> = data.into_iter().map(f32::from_bits).collect();
    assert_eq!(values, vec![0.5, -1.25]);
}
