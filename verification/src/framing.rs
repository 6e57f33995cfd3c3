//! Sliding-window framing of a stream.
//!
//! Samples arrive in pieces of any length. A [`SlidingWindow`] keeps what it
//! has not yet consumed and cuts the stream into windows of `window` items
//! whose starts lie `hop` items apart, exactly as if the whole stream had been
//! cut at once: how the stream is split into pieces never changes the frames.
//! The spectrogram framing uses 400-sample windows with a hop of 160; the
//! model's mel history uses 401-frame segments with a hop of 40.

use vstd::prelude::*;
use vstd::arithmetic::div_mod::{
    lemma_fundamental_div_mod, lemma_fundamental_div_mod_converse, lemma_mod_bound,
};

verus! {

/// Samples per spectrogram window.
pub const WINDOW_SIZE: usize = 400;

/// Samples between the starts of successive spectrogram windows.
pub const HOP_LENGTH: usize = 160;

/// Mel frames in one model segment.
pub const HISTORY_FRAMES: usize = 401;

/// Mel frames between the starts of successive model segments.
pub const HISTORY_HOP: usize = 40;

/// The contents of each inner vector.
pub open spec fn nested_view<T>(v: Seq<Vec<T>>) -> Seq<Seq<T>> {
    v.map_values(|f: Vec<T>| f@)
}

/// Whether a stream holds at least one more window at its start.
pub open spec fn has_window<T>(s: Seq<T>, window: nat, hop: nat) -> bool {
    0 < hop <= window <= s.len()
}

/// The windows cut from a stream: `s[0..window]`, `s[hop..hop + window]`, ...,
/// as long as a whole window fits.
pub open spec fn frames_of<T>(s: Seq<T>, window: nat, hop: nat) -> Seq<Seq<T>>
    decreases s.len(),
{
    if has_window(s, window, hop) {
        seq![s.take(window as int)] + frames_of(s.skip(hop as int), window, hop)
    } else {
        Seq::empty()
    }
}

/// What remains of a stream once every whole window has been cut and the
/// stream advanced by `hop` after each.
pub open spec fn leftover<T>(s: Seq<T>, window: nat, hop: nat) -> Seq<T>
    decreases s.len(),
{
    if has_window(s, window, hop) {
        leftover(s.skip(hop as int), window, hop)
    } else {
        s
    }
}

/// The number of windows that fit in a stream of length `n`.
pub open spec fn frame_count(n: nat, window: nat, hop: nat) -> nat {
    if 0 < hop <= window <= n {
        ((n - window) as nat / hop + 1) as nat
    } else {
        0
    }
}

/// Cutting a stream in two pieces changes nothing: the windows of `a + b` are
/// the windows of `a` followed by the windows of what `a` left over with `b`
/// appended, and both end with the same leftover.
pub proof fn lemma_frames_split<T>(a: Seq<T>, b: Seq<T>, window: nat, hop: nat)
    ensures
        frames_of(a + b, window, hop) == frames_of(a, window, hop) + frames_of(
            leftover(a, window, hop) + b,
            window,
            hop,
        ),
        leftover(a + b, window, hop) == leftover(leftover(a, window, hop) + b, window, hop),
    decreases a.len(),
{
    if has_window(a, window, hop) {
        let rest = a.skip(hop as int);
        assert((a + b).take(window as int) =~= a.take(window as int));
        assert((a + b).skip(hop as int) =~= rest + b);
        lemma_frames_split(rest, b, window, hop);
        assert(frames_of(a + b, window, hop) =~= frames_of(a, window, hop) + frames_of(
            leftover(a, window, hop) + b,
            window,
            hop,
        ));
    } else {
        assert(frames_of(a, window, hop) + frames_of(a + b, window, hop) =~= frames_of(
            a + b,
            window,
            hop,
        ));
    }
}

/// Two successive pushes of `x` and then `y` into a framer holding `p` yield
/// the same windows, in the same order, and the same pending items as one
/// push of `x + y`.
pub proof fn lemma_push_twice<T>(p: Seq<T>, x: Seq<T>, y: Seq<T>, window: nat, hop: nat)
    ensures
        frames_of(p + x, window, hop) + frames_of(leftover(p + x, window, hop) + y, window, hop)
            == frames_of(p + (x + y), window, hop),
        leftover(leftover(p + x, window, hop) + y, window, hop) == leftover(
            p + (x + y),
            window,
            hop,
        ),
{
    assert(p + (x + y) =~= (p + x) + y);
    lemma_frames_split(p + x, y, window, hop);
}

/// Window `k` of a stream is `s[k * hop .. k * hop + window]`; there are
/// `frame_count` of them, and what is left over is the stream past
/// `frame_count * hop`, shorter than one window.
pub proof fn lemma_frames_closed_form<T>(s: Seq<T>, window: nat, hop: nat)
    requires
        0 < hop <= window,
    ensures
        frames_of(s, window, hop).len() == frame_count(s.len(), window, hop),
        forall|k: int|
            0 <= k < frames_of(s, window, hop).len() ==> #[trigger] frames_of(s, window, hop)[k]
                == s.subrange(k * hop, k * hop + window) && k * hop + window <= s.len(),
        frame_count(s.len(), window, hop) * hop <= s.len(),
        leftover(s, window, hop) == s.skip((frame_count(s.len(), window, hop) * hop) as int),
        leftover(s, window, hop).len() < window,
    decreases s.len(),
{
    if has_window(s, window, hop) {
        let rest = s.skip(hop as int);
        lemma_frames_closed_form(rest, window, hop);
        let n = s.len();
        let c1 = frame_count(rest.len(), window, hop);
        assert(frame_count(n, window, hop) == c1 + 1) by {
            if rest.len() >= window {
                let x = (n - hop - window) as int;
                lemma_fundamental_div_mod(x, hop as int);
                lemma_mod_bound(x, hop as int);
                assert((x / hop as int + 1) * hop == hop * (x / hop as int) + hop)
                    by (nonlinear_arith);
                lemma_fundamental_div_mod_converse(
                    (n - window) as int,
                    hop as int,
                    x / hop as int + 1,
                    x % hop as int,
                );
            } else {
                lemma_fundamental_div_mod_converse((n - window) as int, hop as int, 0, (n
                    - window) as int);
            }
        }
        assert(c1 * hop + hop == (c1 + 1) * hop) by (nonlinear_arith);
        assert forall|k: int|
            #![trigger frames_of(s, window, hop)[k]]
            0 <= k < frames_of(s, window, hop).len() implies {
                &&& k * hop + window <= s.len()
                &&& frames_of(s, window, hop)[k] == s.subrange(k * hop, k * hop + window)
            } by {
            if k == 0 {
                assert(s.take(window as int) =~= s.subrange(0, window as int));
            } else {
                assert((k - 1) * hop + hop == k * hop) by (nonlinear_arith);
                assert(frames_of(s, window, hop)[k] == frames_of(rest, window, hop)[k - 1]);
                assert((k - 1) * hop + window <= rest.len());
                assert(k * hop + window <= s.len());
                assert(rest.subrange((k - 1) * hop, (k - 1) * hop + window) =~= s.subrange(
                    k * hop,
                    k * hop + window,
                ));
            }
        }
        assert(rest.skip((c1 * hop) as int) =~= s.skip((frame_count(n, window, hop) * hop) as int));
    } else {
        assert(s.skip(0) =~= s);
    }
}

/// One item pushed into a framer that holds less than a window yields at
/// most one window: the mel history emits one segment at a time.
pub proof fn lemma_single_push_at_most_one<T>(p: Seq<T>, x: T, window: nat, hop: nat)
    requires
        0 < hop <= window,
        p.len() < window,
    ensures
        frames_of(p.push(x), window, hop).len() <= 1,
{
    lemma_frames_closed_form(p.push(x), window, hop);
    lemma_fundamental_div_mod_converse(0, hop as int, 0, 0);
}

/// A stream framer: the items not yet consumed, the window length and the hop.
pub struct SlidingWindow<T> {
    buffer: Vec<T>,
    window: usize,
    hop: usize,
}

impl<T> SlidingWindow<T> {
    #[verifier::type_invariant]
    spec fn well_formed(self) -> bool {
        &&& 0 < self.hop <= self.window
        &&& self.buffer.len() < self.window
    }

    /// The items received and not yet consumed.
    pub closed spec fn pending(self) -> Seq<T> {
        self.buffer@
    }

    /// The number of items in one window.
    pub closed spec fn window_len(self) -> nat {
        self.window as nat
    }

    /// The number of items between the starts of successive windows.
    pub closed spec fn hop_len(self) -> nat {
        self.hop as nat
    }
}

impl<T: Copy> SlidingWindow<T> {

    /// An empty framer with the given window length and hop.
    pub fn new(window: usize, hop: usize) -> (w: Self)
        requires
            0 < hop <= window,
        ensures
            w.pending() == Seq::<T>::empty(),
            w.window_len() == window,
            w.hop_len() == hop,
    {
        SlidingWindow { buffer: Vec::new(), window, hop }
    }

    /// The framer of the spectrogram: windows of 400 samples, hop 160.
    pub fn spectrogram() -> (w: Self)
        ensures
            w.pending() == Seq::<T>::empty(),
            w.window_len() == WINDOW_SIZE,
            w.hop_len() == HOP_LENGTH,
    {
        Self::new(WINDOW_SIZE, HOP_LENGTH)
    }

    /// The framer of the model's mel history: segments of 401 frames, hop 40.
    pub fn mel_history() -> (w: Self)
        ensures
            w.pending() == Seq::<T>::empty(),
            w.window_len() == HISTORY_FRAMES,
            w.hop_len() == HISTORY_HOP,
    {
        Self::new(HISTORY_FRAMES, HISTORY_HOP)
    }

    /// The number of items waiting for a whole window.
    pub fn pending_len(&self) -> (n: usize)
        ensures
            n == self.pending().len(),
            n < self.window_len(),
    {
        proof {
            use_type_invariant(self);
        }
        self.buffer.len()
    }

    /// Drops every pending item.
    pub fn clear(&mut self)
        ensures
            final(self).pending() == Seq::<T>::empty(),
            final(self).window_len() == old(self).window_len(),
            final(self).hop_len() == old(self).hop_len(),
    {
        proof {
            use_type_invariant(&*self);
        }
        self.buffer = Vec::new();
    }

    /// Appends `samples` to the pending items and cuts every whole window:
    /// returns the windows, in order, and keeps what follows the last cut.
    pub fn push(&mut self, samples: &[T]) -> (frames: Vec<Vec<T>>)
        ensures
            nested_view(frames@) == frames_of(
                old(self).pending() + samples@,
                old(self).window_len(),
                old(self).hop_len(),
            ),
            final(self).pending() == leftover(
                old(self).pending() + samples@,
                old(self).window_len(),
                old(self).hop_len(),
            ),
            final(self).pending().len() < final(self).window_len(),
            final(self).window_len() == old(self).window_len(),
            final(self).hop_len() == old(self).hop_len(),
    {
        proof {
            use_type_invariant(&*self);
        }
        let window = self.window;
        let hop = self.hop;
        let ghost whole = self.buffer@ + samples@;
        let mut stream: Vec<T> = Vec::new();
        let mut i: usize = 0;
        while i < self.buffer.len()
            invariant
                stream@ == self.buffer@.take(i as int),
                i <= self.buffer.len(),
            decreases self.buffer.len() - i,
        {
            stream.push(self.buffer[i]);
            i = i + 1;
        }
        assert(self.buffer@.take(self.buffer.len() as int) =~= self.buffer@);
        let mut j: usize = 0;
        while j < samples.len()
            invariant
                stream@ == self.buffer@ + samples@.take(j as int),
                j <= samples.len(),
            decreases samples.len() - j,
        {
            stream.push(samples[j]);
            j = j + 1;
            assert(self.buffer@ + samples@.take(j as int) =~= (self.buffer@ + samples@.take(
                j - 1,
            )).push(samples@[j - 1]));
        }
        assert(samples@.take(samples.len() as int) =~= samples@);
        assert(stream@ =~= whole);
        let mut frames: Vec<Vec<T>> = Vec::new();
        let mut start: usize = 0;
        assert(stream@.skip(0) =~= stream@);
        assert(nested_view(frames@) + frames_of(whole, window as nat, hop as nat) =~= frames_of(
            whole,
            window as nat,
            hop as nat,
        ));
        while stream.len() - start >= window
            invariant
                0 < hop <= window,
                start <= stream.len(),
                stream@ == whole,
                nested_view(frames@) + frames_of(stream@.skip(start as int), window as nat, hop as nat)
                    == frames_of(whole, window as nat, hop as nat),
                leftover(stream@.skip(start as int), window as nat, hop as nat) == leftover(
                    whole,
                    window as nat,
                    hop as nat,
                ),
            decreases stream.len() - start,
        {
            let ghost rest = stream@.skip(start as int);
            let mut frame: Vec<T> = Vec::new();
            let mut k: usize = 0;
            while k < window
                invariant
                    k <= window,
                    start + window <= stream.len(),
                    frame@ == stream@.subrange(start as int, start + k),
                decreases window - k,
            {
                frame.push(stream[start + k]);
                k = k + 1;
            }
            assert(frame@ =~= rest.take(window as int));
            assert(rest.skip(hop as int) =~= stream@.skip(start + hop));
            assert(has_window(rest, window as nat, hop as nat));
            let ghost prior = nested_view(frames@);
            frames.push(frame);
            assert(nested_view(frames@) =~= prior.push(frame@));
            assert(frames_of(rest, window as nat, hop as nat) == seq![rest.take(window as int)]
                + frames_of(rest.skip(hop as int), window as nat, hop as nat));
            assert(prior.push(frame@) + frames_of(rest.skip(hop as int), window as nat, hop as nat)
                =~= prior + frames_of(rest, window as nat, hop as nat));
            start = start + hop;
        }
        let ghost rest = stream@.skip(start as int);
        assert(!has_window(rest, window as nat, hop as nat));
        assert(frames_of(rest, window as nat, hop as nat) =~= Seq::<Seq<T>>::empty());
        assert(nested_view(frames@) + Seq::<Seq<T>>::empty() =~= nested_view(frames@));
        let mut remaining: Vec<T> = Vec::new();
        let mut r: usize = start;
        while r < stream.len()
            invariant
                start <= r <= stream.len(),
                remaining@ == stream@.subrange(start as int, r as int),
            decreases stream.len() - r,
        {
            remaining.push(stream[r]);
            r = r + 1;
        }
        assert(remaining@ =~= rest);
        self.buffer = remaining;
        frames
    }
}

} // verus!
