//! The decisions of the analysis service: which uploads are accepted, what
//! each failure is answered, which previews are kept, and what the live
//! socket does with each message.

use vstd::prelude::*;

verus! {

/// Bytes of one live microphone chunk: 4096 samples of four bytes.
pub const STREAM_CHUNK_BYTES: usize = 16384;

/// Sample rate of the live microphone stream.
pub const STREAM_SAMPLE_RATE: usize = 48000;

/// Sample rate the model expects.
pub const TARGET_HZ: usize = 16000;

/// Segments whose raw outputs are echoed in an analysis response.
pub const RAW_PREVIEW_LIMIT: usize = 5;

/// Segment probabilities echoed in an analysis response.
pub const PROBABILITY_PREVIEW_LIMIT: usize = 10;

/// Why an uploaded recording is not analysed.
#[derive(Clone, Copy, Debug, PartialEq, Eq, Structural)]
pub enum AnalyzeError {
    /// The sample rate is zero.
    ZeroSampleRate,
    /// The body holds fewer than four bytes.
    BodyTooSmall,
    /// The body holds no whole sample.
    NoSamples,
    /// The model failed on a segment.
    InferenceFailed,
    /// The recording is too short for a single segment.
    TooShort,
}

/// The HTTP status that answers an error.
pub open spec fn status_of(e: AnalyzeError) -> u16 {
    match e {
        AnalyzeError::ZeroSampleRate => 400,
        AnalyzeError::BodyTooSmall => 400,
        AnalyzeError::NoSamples => 400,
        AnalyzeError::InferenceFailed => 500,
        AnalyzeError::TooShort => 422,
    }
}

/// The message that answers an error.
pub open spec fn message_of(e: AnalyzeError) -> Seq<char> {
    match e {
        AnalyzeError::ZeroSampleRate => "sample_rate must be greater than zero"@,
        AnalyzeError::BodyTooSmall => "Request body is empty or too small"@,
        AnalyzeError::NoSamples => "No valid Float32 samples found in request body"@,
        AnalyzeError::InferenceFailed => "Inference failed while analyzing uploaded audio"@,
        AnalyzeError::TooShort => "Audio is too short or did not produce enough mel frames for inference"@,
    }
}

impl AnalyzeError {
    /// The HTTP status code of the answer.
    pub fn status_code(&self) -> (code: u16)
        ensures
            code == status_of(*self),
            *self == AnalyzeError::ZeroSampleRate ==> code == 400,
            *self == AnalyzeError::BodyTooSmall ==> code == 400,
            *self == AnalyzeError::NoSamples ==> code == 400,
            *self == AnalyzeError::InferenceFailed ==> code == 500,
            *self == AnalyzeError::TooShort ==> code == 422,
    {
        match self {
            AnalyzeError::ZeroSampleRate => 400,
            AnalyzeError::BodyTooSmall => 400,
            AnalyzeError::NoSamples => 400,
            AnalyzeError::InferenceFailed => 500,
            AnalyzeError::TooShort => 422,
        }
    }

    /// The error text of the answer.
    pub fn message(&self) -> (text: String)
        ensures
            text@ == message_of(*self),
            *self == AnalyzeError::ZeroSampleRate ==> text@
                == "sample_rate must be greater than zero"@,
            *self == AnalyzeError::BodyTooSmall ==> text@ == "Request body is empty or too small"@,
            *self == AnalyzeError::NoSamples ==> text@
                == "No valid Float32 samples found in request body"@,
            *self == AnalyzeError::InferenceFailed ==> text@
                == "Inference failed while analyzing uploaded audio"@,
            *self == AnalyzeError::TooShort ==> text@
                == "Audio is too short or did not produce enough mel frames for inference"@,
    {
        match self {
            AnalyzeError::ZeroSampleRate => "sample_rate must be greater than zero".to_owned(),
            AnalyzeError::BodyTooSmall => "Request body is empty or too small".to_owned(),
            AnalyzeError::NoSamples => "No valid Float32 samples found in request body".to_owned(),
            AnalyzeError::InferenceFailed => "Inference failed while analyzing uploaded audio".to_owned(),
            AnalyzeError::TooShort => "Audio is too short or did not produce enough mel frames for inference".to_owned(),
        }
    }
}

/// Checks an upload of `body_len` bytes at `sample_rate` Hz, and gives the
/// number of whole four-byte samples it holds.
pub fn validate_upload(sample_rate: usize, body_len: usize) -> (res: Result<usize, AnalyzeError>)
    ensures
        sample_rate == 0 ==> res == Err::<usize, AnalyzeError>(AnalyzeError::ZeroSampleRate),
        sample_rate != 0 && body_len < 4 ==> res == Err::<usize, AnalyzeError>(
            AnalyzeError::BodyTooSmall,
        ),
        sample_rate != 0 && body_len >= 4 ==> res == Ok::<usize, AnalyzeError>(body_len / 4),
        res matches Ok(n) ==> n >= 1,
{
    if sample_rate == 0 {
        return Err(AnalyzeError::ZeroSampleRate);
    }
    if body_len < 4 {
        return Err(AnalyzeError::BodyTooSmall);
    }
    let samples = body_len / 4;
    if samples == 0 {
        return Err(AnalyzeError::NoSamples);
    }
    Ok(samples)
}

/// An analysis needs at least one segment.
pub fn check_segments(segments: usize) -> (res: Result<(), AnalyzeError>)
    ensures
        segments == 0 <==> res == Err::<(), AnalyzeError>(AnalyzeError::TooShort),
        segments > 0 <==> res == Ok::<(), AnalyzeError>(()),
{
    if segments == 0 {
        Err(AnalyzeError::TooShort)
    } else {
        Ok(())
    }
}

/// The verdict on a recording.
#[derive(Clone, Copy, Debug, PartialEq, Eq, Structural)]
pub enum Verdict {
    Ai,
    Human,
}

impl Verdict {
    /// The label of the verdict in responses: `ai` or `human`.
    pub fn label(&self) -> (text: String)
        ensures
            *self == Verdict::Ai ==> text@ == "ai"@,
            *self == Verdict::Human ==> text@ == "human"@,
    {
        match self {
            Verdict::Ai => "ai".to_owned(),
            Verdict::Human => "human".to_owned(),
        }
    }
}

/// The first `limit` items of `items`, or all of them if there are fewer.
pub open spec fn first_items<T>(items: Seq<T>, limit: nat) -> Seq<T> {
    if items.len() <= limit {
        items
    } else {
        items.take(limit as int)
    }
}

/// A preview that keeps the first `limit` items offered to it.
pub struct Preview<T> {
    items: Vec<T>,
    limit: usize,
}

impl<T> Preview<T> {
    #[verifier::type_invariant]
    spec fn within_limit(self) -> bool {
        self.items.len() <= self.limit
    }

    /// The items kept so far.
    pub closed spec fn kept(self) -> Seq<T> {
        self.items@
    }

    /// The number of items the preview keeps at most.
    pub closed spec fn capacity(self) -> nat {
        self.limit as nat
    }

    /// An empty preview of at most `limit` items.
    pub fn new(limit: usize) -> (p: Self)
        ensures
            p.kept() == Seq::<T>::empty(),
            p.capacity() == limit,
    {
        Preview { items: Vec::new(), limit }
    }

    /// Offers an item: it is kept if fewer than `limit` items are kept.
    /// Returns whether it was kept.
    pub fn offer(&mut self, item: T) -> (kept: bool)
        ensures
            kept == (old(self).kept().len() < old(self).capacity()),
            final(self).kept() == if kept {
                old(self).kept().push(item)
            } else {
                old(self).kept()
            },
            final(self).capacity() == old(self).capacity(),
            final(self).kept().len() <= final(self).capacity(),
    {
        proof {
            use_type_invariant(&*self);
        }
        if self.items.len() < self.limit {
            let mut items: Vec<T> = Vec::new();
            std::mem::swap(&mut items, &mut self.items);
            items.push(item);
            self.items = items;
            true
        } else {
            false
        }
    }

    /// The number of items kept.
    pub fn len(&self) -> (n: usize)
        ensures
            n == self.kept().len(),
            n <= self.capacity(),
    {
        proof {
            use_type_invariant(self);
        }
        self.items.len()
    }

    /// The items kept, in the order they were offered.
    pub fn into_items(self) -> (items: Vec<T>)
        ensures
            items@ == self.kept(),
    {
        self.items
    }
}

/// Offering items one by one keeps exactly the first `limit` of them: if
/// the preview holds the first items of `xs`, offering `x` leaves it holding
/// the first items of `xs.push(x)`.
pub proof fn lemma_preview_keeps_prefix<T>(xs: Seq<T>, x: T, limit: nat)
    ensures
        first_items(xs.push(x), limit) == if first_items(xs, limit).len() < limit {
            first_items(xs, limit).push(x)
        } else {
            first_items(xs, limit)
        },
{
    if xs.len() < limit {
        assert(first_items(xs.push(x), limit) =~= xs.push(x));
    } else {
        assert(xs.push(x).take(limit as int) =~= first_items(xs, limit));
    }
}

/// What arrives on the live socket.
#[derive(Clone, Copy, Debug, PartialEq, Eq, Structural)]
pub enum SocketEvent {
    /// A binary message of `len` bytes.
    Binary { len: usize },
    /// The client closed the connection.
    Close,
    /// Receiving failed.
    Failure,
    /// Any other message.
    Other,
}

/// What the live socket handler does next.
#[derive(Clone, Copy, Debug, PartialEq, Eq, Structural)]
pub enum SocketAction {
    /// Decode and analyse the chunk.
    Analyze,
    /// Log a malformed chunk and go on.
    RejectMalformed,
    /// Leave the receive loop.
    Stop,
    /// Go on with the next message.
    Ignore,
}

/// The step of the live socket handler for one event: chunks of exactly
/// 16384 bytes are analysed, other binary messages are rejected, a close or
/// a failure ends the session, anything else is ignored.
pub fn socket_action(event: SocketEvent) -> (action: SocketAction)
    ensures
        action == match event {
            SocketEvent::Binary { len } => if len == STREAM_CHUNK_BYTES {
                SocketAction::Analyze
            } else {
                SocketAction::RejectMalformed
            },
            SocketEvent::Close => SocketAction::Stop,
            SocketEvent::Failure => SocketAction::Stop,
            SocketEvent::Other => SocketAction::Ignore,
        },
{
    match event {
        SocketEvent::Binary { len } => {
            if len == STREAM_CHUNK_BYTES {
                SocketAction::Analyze
            } else {
                SocketAction::RejectMalformed
            }
        },
        SocketEvent::Close => SocketAction::Stop,
        SocketEvent::Failure => SocketAction::Stop,
        SocketEvent::Other => SocketAction::Ignore,
    }
}

} // verus!
