use vorsana::model::{output_layout, ModelInfo, OutputLayout, TensorDetails};
use vorsana::service::{
    check_segments, socket_action, validate_upload, AnalyzeError, Preview, SocketAction,
    SocketEvent, Verdict, STREAM_CHUNK_BYTES,
};

#[test]
fn health_report_is_happy() {
    let info = ModelInfo::healthy(
        vec![TensorDetails::new("mel_spectrogram".to_string(), "Float32".to_string())],
        vec![],
    );
    assert_eq!(info.status, "Happy");
    assert_eq!(info.inputs.len(), 1);
    assert_eq!(info.inputs[0].name, "mel_spectrogram");
    assert_eq!(info.inputs[0].data_type, "Float32");
    assert!(info.outputs.is_empty());
}

#[test]
fn output_layout_by_count() {
    assert_eq!(output_layout(0), OutputLayout::Missing);
    assert_eq!(output_layout(1), OutputLayout::Single);
    assert_eq!(output_layout(2), OutputLayout::TwoClass);
    assert_eq!(output_layout(7), OutputLayout::TwoClass);
}

#[test]
fn upload_validation() {
    assert_eq!(validate_upload(0, 100), Err(AnalyzeError::ZeroSampleRate));
    assert_eq!(validate_upload(0, 0), Err(AnalyzeError::ZeroSampleRate));
    assert_eq!(validate_upload(44100, 3), Err(AnalyzeError::BodyTooSmall));
    assert_eq!(validate_upload(44100, 0), Err(AnalyzeError::BodyTooSmall));
    assert_eq!(validate_upload(44100, 4), Ok(1));
    assert_eq!(validate_upload(16000, 4099), Ok(1024));
}

#[test]
fn error_answers() {
    assert_eq!(AnalyzeError::ZeroSampleRate.status_code(), 400);
    assert_eq!(AnalyzeError::BodyTooSmall.status_code(), 400);
    assert_eq!(AnalyzeError::NoSamples.status_code(), 400);
    assert_eq!(AnalyzeError::InferenceFailed.status_code(), 500);
    assert_eq!(AnalyzeError::TooShort.status_code(), 422);
    assert_eq!(
        AnalyzeError::ZeroSampleRate.message(),
        "sample_rate must be greater than zero"
    );
    assert_eq!(
        AnalyzeError::BodyTooSmall.message(),
        "Request body is empty or too small"
    );
    assert_eq!(
        AnalyzeError::NoSamples.message(),
        "No valid Float32 samples found in request body"
    );
    assert_eq!(
        AnalyzeError::InferenceFailed.message(),
        "Inference failed while analyzing uploaded audio"
    );
    assert_eq!(
        AnalyzeError::TooShort.message(),
        "Audio is too short or did not produce enough mel frames for inference"
    );
}

#[test]
fn segments_are_required() {
    assert_eq!(check_segments(0), Err(AnalyzeError::TooShort));
    assert_eq!(check_segments(3), Ok(()));
}

#[test]
fn preview_keeps_the_first_items() {
    let mut p = Preview::new(5);
    let kept: Vec<bool> = (0..8).map(|i| p.offer(i)).collect();
    assert_eq!(kept, vec![true, true, true, true, true, false, false, false]);
    assert_eq!(p.len(), 5);
    assert_eq!(p.into_items(), vec![0, 1, 2, 3, 4]);
}

#[test]
fn preview_of_fewer_items_keeps_all() {
    let mut p = Preview::new(10);
    p.offer(vec![0.5f32]);
    p.offer(vec![0.25f32, 0.75]);
    assert_eq!(p.into_items(), vec![vec![0.5], vec![0.25, 0.75]]);
    let mut none: Preview<u8> = Preview::new(0);
    assert!(!none.offer(1));
    assert!(none.into_items().is_empty());
}

#[test]
fn socket_steps() {
    assert_eq!(
        socket_action(SocketEvent::Binary { len: STREAM_CHUNK_BYTES }),
        SocketAction::Analyze
    );
    assert_eq!(socket_action(SocketEvent::Binary { len: 16383 }), SocketAction::RejectMalformed);
    assert_eq!(socket_action(SocketEvent::Binary { len: 0 }), SocketAction::RejectMalformed);
    assert_eq!(socket_action(SocketEvent::Close), SocketAction::Stop);
    assert_eq!(socket_action(SocketEvent::Failure), SocketAction::Stop);
    assert_eq!(socket_action(SocketEvent::Other), SocketAction::Ignore);
}

#[test]
fn verdict_labels() {
    assert_eq!(Verdict::Ai.label(), "ai");
    assert_eq!(Verdict::Human.label(), "human");
}
