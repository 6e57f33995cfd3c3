# vorsana

A service that tells AI-generated voices from human ones. Audio arrives as
little-endian 32-bit float samples, over a WebSocket (live microphone) or an
HTTP upload; it is resampled to 16 kHz, cut into 400-sample windows with a hop
of 160, turned into a log-mel spectrogram of 128 bands, and fed to an ONNX
model in segments of 401 frames, one segment every 40 frames.

Layout:

- `src/` is the verified library (Verus):
  - `framing`: the sliding-window framer used for spectrogram windows and for
    the model's mel history, with the laws that pieces of a stream are framed
    exactly as the whole stream, and the closed form of every window;
  - `pcm`: decoding of little-endian sample words;
  - `chunks`: fixed-size, padded resampler input chunks;
  - `filterbank`: the triangular mel filter layout, with exact weights;
  - `tensor`: the `[1, 3, 128, 401]` model input layout, built on `ndarray`;
  - `model`: the model health report and the reading of raw outputs;
  - `service`: upload validation, error answers, previews, socket steps.
- `app/` is the program: the HTTP/WebSocket server (axum, tokio), the
  floating-point signal processing (rubato, rustfft) and inference (ort).
- `tests/` exercises the library on concrete values.
