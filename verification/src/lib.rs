//! Verified core of an AI-voice detector: framing of audio streams,
//! decoding of little-endian sample words, triangular mel filterbank layout,
//! model input layout, and the request decisions of the analysis service.

pub mod chunks;
pub mod filterbank;
pub mod framing;
pub mod model;
pub mod pcm;
pub mod service;
pub mod tensor;
