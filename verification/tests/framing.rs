use vorsana::framing::{SlidingWindow, HISTORY_FRAMES, HISTORY_HOP, HOP_LENGTH, WINDOW_SIZE};

fn ramp(n: u32) -> Vec<u32> {
    (0..n).collect()
}

#[test]
fn spectrogram_windows_start_one_hop_apart() {
    let mut w: SlidingWindow<u32> = SlidingWindow::spectrogram();
    let frames = w.push(&ramp(1000));
    assert_eq!(frames.len(), 4);
    for (k, frame) in frames.iter().enumerate() {
        assert_eq!(frame.len(), WINDOW_SIZE);
        assert_eq!(frame[0], (k * HOP_LENGTH) as u32);
        assert_eq!(frame[WINDOW_SIZE - 1], (k * HOP_LENGTH + WINDOW_SIZE - 1) as u32);
    }
    assert_eq!(w.pending_len(), 1000 - 4 * HOP_LENGTH);
}

#[test]
fn short_input_waits_for_a_whole_window() {
    let mut w: SlidingWindow<u32> = SlidingWindow::spectrogram();
    assert!(w.push(&ramp(399)).is_empty());
    assert_eq!(w.pending_len(), 399);
    let frames = w.push(&[399]);
    assert_eq!(frames.len(), 1);
    assert_eq!(frames[0], ramp(400));
    assert_eq!(w.pending_len(), 400 - HOP_LENGTH);
}

#[test]
fn pieces_give_the_same_frames_as_one_push() {
    let data = ramp(2345);
    let mut whole: SlidingWindow<u32> = SlidingWindow::spectrogram();
    let expected = whole.push(&data);

    let mut pieces: SlidingWindow<u32> = SlidingWindow::spectrogram();
    let mut got = Vec::new();
    for piece in [&data[..7], &data[7..700], &data[700..701], &data[701..]] {
        got.extend(pieces.push(piece));
    }
    assert_eq!(got, expected);
    assert_eq!(pieces.pending_len(), whole.pending_len());
}

#[test]
fn clear_drops_pending_samples() {
    let mut w: SlidingWindow<u32> = SlidingWindow::spectrogram();
    w.push(&ramp(300));
    w.clear();
    assert_eq!(w.pending_len(), 0);
    assert!(w.push(&ramp(300)).is_empty());
}

#[test]
fn mel_history_emits_a_segment_every_forty_frames() {
    let mut h: SlidingWindow<u32> = SlidingWindow::mel_history();
    let mut segments = Vec::new();
    for frame in 0..500u32 {
        let out = h.push(&[frame]);
        assert!(out.len() <= 1);
        segments.extend(out);
    }
    assert_eq!(segments.len(), (500 - HISTORY_FRAMES) / HISTORY_HOP + 1);
    for (k, seg) in segments.iter().enumerate() {
        assert_eq!(seg.len(), HISTORY_FRAMES);
        assert_eq!(seg[0], (k * HISTORY_HOP) as u32);
    }
    assert_eq!(h.pending_len(), 500 - 3 * HISTORY_HOP);
}

#[test]
fn custom_geometry_with_hop_equal_to_window() {
    let mut w: SlidingWindow<u8> = SlidingWindow::new(3, 3);
    let frames = w.push(&[1, 2, 3, 4, 5, 6, 7]);
    assert_eq!(frames, vec![vec![1, 2, 3], vec![4, 5, 6]]);
    assert_eq!(w.pending_len(), 1);
}

#[test]
fn float_samples_are_framed_unchanged() {
    let samples: Vec<f32> = (0..400).map(|i| i as f32 * 0.5).collect();
    let mut w: SlidingWindow<f32> = SlidingWindow::spectrogram();
    let frames = w.push(&samples);
    assert_eq!(frames.len(), 1);
    assert_eq!(frames[0], samples);
}
