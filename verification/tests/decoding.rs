use vorsana::chunks::{pad_chunks, INPUT_CHUNK_SIZE};
use vorsana::pcm::le_words;

#[test]
fn le_words_reads_four_bytes_per_word() {
    let bytes = [1u8, 0, 0, 0, 0, 0, 128, 63, 0xff, 0xff, 0xff, 0xff, 9];
    let words = le_words(&bytes);
    assert_eq!(words, vec![1, 0x3F80_0000, u32::MAX]);
    assert_eq!(f32::from_bits(words[1]), 1.0);
}

#[test]
fn le_words_ignores_a_partial_tail() {
    assert!(le_words(&[]).is_empty());
    assert!(le_words(&[1, 2, 3]).is_empty());
    assert_eq!(le_words(&[0x78, 0x56, 0x34, 0x12, 7, 7]), vec![0x1234_5678]);
}

#[test]
fn le_words_matches_f32_from_le_bytes() {
    let values = [0.25f32, -3.5, 1e-7, 12345.678];
    let mut bytes = Vec::new();
    for v in values {
        bytes.extend_from_slice(&v.to_le_bytes());
    }
    let decoded: Vec<f32> = le_words(&bytes).into_iter().map(f32::from_bits).collect();
    assert_eq!(decoded, values.to_vec());
}

#[test]
fn le_words_of_joined_streams() {
    let a = [1u8, 2, 3, 4, 5, 6, 7, 8];
    let b = [9u8, 10, 11, 12, 13];
    let mut joined = a.to_vec();
    joined.extend_from_slice(&b);
    let mut expected = le_words(&a);
    expected.extend(le_words(&b));
    assert_eq!(le_words(&joined), expected);
}

#[test]
fn pad_chunks_fills_the_last_chunk() {
    let chunks = pad_chunks(&[1, 2, 3, 4, 5], 2, 0);
    assert_eq!(chunks, vec![vec![1, 2], vec![3, 4], vec![5, 0]]);
}

#[test]
fn pad_chunks_exact_multiple_and_empty() {
    assert_eq!(pad_chunks(&[1, 2, 3, 4], 2, 9), vec![vec![1, 2], vec![3, 4]]);
    assert!(pad_chunks::<u8>(&[], 3, 0).is_empty());
}

#[test]
fn pad_chunks_of_a_recording() {
    let samples: Vec<f32> = (0..10_000).map(|i| i as f32).collect();
    let chunks = pad_chunks(&samples, INPUT_CHUNK_SIZE, 0.0);
    assert_eq!(chunks.len(), 3);
    assert!(chunks.iter().all(|c| c.len() == INPUT_CHUNK_SIZE));
    assert_eq!(chunks[2][10_000 - 2 * INPUT_CHUNK_SIZE - 1], 9999.0);
    assert_eq!(chunks[2][10_000 - 2 * INPUT_CHUNK_SIZE], 0.0);
    assert_eq!(chunks[1][0], INPUT_CHUNK_SIZE as f32);
}
