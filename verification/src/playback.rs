//! Audio buffer handling for playback: channel layout for the output device
//! and filling the device's buffers from the samples to play.
//!
//! The samples are of any copyable type; the player hands them over as they
//! come from the synthesizer and the device asks for them.

use vstd::prelude::*;

verus! {

/// Mono samples as interleaved stereo: each sample twice, left then right.
pub open spec fn stereo_of<T>(mono: Seq<T>) -> Seq<T> {
    Seq::new(2 * mono.len(), |i: int| mono[i / 2])
}

/// Expands mono to stereo by duplicating each sample.
pub fn mono_to_stereo<T: Copy>(samples: &[T]) -> (out: Vec<T>)
    requires
        2 * samples@.len() <= usize::MAX,
    ensures
        out@ == stereo_of(samples@),
        out@.len() == 2 * samples@.len(),
        forall|i: int|
            0 <= i < samples@.len() ==> out@[2 * i] == samples@[i] && out@[2 * i + 1] == samples@[i],
{
    let n = samples.len();
    let mut out: Vec<T> = Vec::with_capacity(n * 2);
    for k in 0..n
        invariant
            n == samples@.len(),
            out@ =~= stereo_of(samples@.take(k as int)),
    {
        let s: T = samples[k];
        out.push(s);
        out.push(s);
        assert(out@ =~= stereo_of(samples@.take(k + 1)));
    }
    assert(samples@.take(n as int) =~= samples@);
    out
}

/// Mono samples as frames of `channels` channels: each sample repeated on
/// every channel of its frame.
pub open spec fn channel_frames<T>(mono: Seq<T>, channels: nat) -> Seq<T> {
    Seq::new(channels * mono.len(), |i: int| mono[i / (channels as int)])
}

/// The index of channel `k` of frame `j` among frames of `channels`
/// channels.
pub open spec fn frame_slot(j: int, k: int, channels: int) -> int {
    j * channels + k
}

/// Within the frames of `channels` channels, slot `k` of frame `j` sits at
/// `j * channels + k`.
proof fn lemma_frame_slot(j: int, k: int, channels: int, n: int)
    requires
        channels > 0,
        0 <= j < n,
        0 <= k < channels,
    ensures
        (j * channels + k) / channels == j,
        0 <= j * channels + k < channels * n,
{
    vstd::arithmetic::div_mod::lemma_fundamental_div_mod_converse(j * channels + k, channels, j, k);
    assert(j * channels + k < channels * n) by (nonlinear_arith)
        requires
            0 <= j < n,
            0 <= k < channels,
    ;
    assert(0 <= j * channels) by (nonlinear_arith)
        requires
            0 <= j,
            0 < channels,
    ;
}

/// Repeats each mono sample on every one of `channels` channels.
pub fn spread_to_channels<T: Copy>(samples: &[T], channels: u16) -> (out: Vec<T>)
    requires
        channels * samples@.len() <= usize::MAX,
    ensures
        out@ == channel_frames(samples@, channels as nat),
        out@.len() == channels * samples@.len(),
        forall|j: int, k: int|
            0 <= j < samples@.len() && 0 <= k < channels ==> out@[#[trigger] frame_slot(
                j,
                k,
                channels as int,
            )] == samples@[j],
{
    let n = samples.len();
    let c = channels as usize;
    let mut out: Vec<T> = Vec::new();
    for j in 0..n
        invariant
            n == samples@.len(),
            c == channels,
            c * n <= usize::MAX,
            out@ =~= channel_frames(samples@.take(j as int), c as nat),
    {
        let s: T = samples[j];
        assert(c * j + c <= c * n) by (nonlinear_arith)
            requires
                j < n,
        ;
        for k in 0..c
            invariant
                n == samples@.len(),
                c == channels,
                j < n,
                c * j + c <= c * n,
                c * n <= usize::MAX,
                s == samples@[j as int],
                out@ =~= channel_frames(samples@.take(j as int), c as nat) + Seq::new(
                    k as nat,
                    |i: int| s,
                ),
        {
            out.push(s);
        }
        proof {
            let next = samples@.take(j + 1);
            let frames = channel_frames(next, c as nat);
            assert(c * (j + 1) == c * j + c) by (nonlinear_arith);
            assert forall|i: int| 0 <= i < frames.len() implies #[trigger] frames[i] == out@[i] by {
                let q = i / (c as int);
                let r = i % (c as int);
                vstd::arithmetic::div_mod::lemma_fundamental_div_mod(i, c as int);
                assert(i == c * q + r);
                assert(0 <= q <= j) by (nonlinear_arith)
                    requires
                        i == c * q + r,
                        0 <= r < c,
                        0 <= i < c * j + c,
                        c > 0,
                ;
                if q < j {
                    assert(i < c * j) by (nonlinear_arith)
                        requires
                            i == c * q + r,
                            0 <= r < c,
                            q < j,
                            q >= 0,
                    ;
                } else {
                    assert(i >= c * j) by (nonlinear_arith)
                        requires
                            i == c * q + r,
                            0 <= r,
                            q == j,
                    ;
                }
            }
            assert(out@ =~= frames);
        }
    }
    assert(samples@.take(n as int) =~= samples@);
    assert forall|j: int, k: int| 0 <= j < samples@.len() && 0 <= k < channels implies out@[
        #[trigger] frame_slot(j, k, channels as int)
    ] == samples@[j] by {
        lemma_frame_slot(j, k, channels as int, n as int);
    }
    out
}

/// The samples to send to a device with `device_channels` channels: the mono
/// samples as they are for a one-channel device, and for a device with more
/// channels one frame per sample that carries the sample on every channel.
pub open spec fn device_layout<T>(samples: Seq<T>, device_channels: u16) -> Seq<T> {
    if device_channels >= 2 {
        channel_frames(samples, device_channels as nat)
    } else {
        samples
    }
}

/// Lays the mono samples out for a device with `device_channels` channels.
pub fn layout_for_device<T: Copy>(samples: Vec<T>, device_channels: u16) -> (out: Vec<T>)
    requires
        device_channels >= 2 ==> device_channels * samples@.len() <= usize::MAX,
    ensures
        out@ == device_layout(samples@, device_channels),
{
    if device_channels >= 2 {
        spread_to_channels(samples.as_slice(), device_channels)
    } else {
        samples
    }
}

/// What a device buffer of `len` samples plays, starting at `position` in the
/// samples to play: the samples from `position` on, then `silence` past their
/// end.
pub open spec fn played<T>(source: Seq<T>, position: int, len: nat, silence: T) -> Seq<T> {
    Seq::new(len, |i: int| if position + i < source.len() { source[position + i] } else { silence })
}

/// What filling one device buffer gives: where playback continues, and
/// whether the buffer ran past the end of the samples (or playback was
/// stopped), so that playback is over.
#[derive(Debug, Clone, Copy, PartialEq, Eq, Structural)]
pub struct FillOutcome {
    pub next_position: usize,
    pub reached_end: bool,
}

/// Fills one device buffer.
///
/// When playback was stopped the buffer is silent, the position stays and
/// playback is over. Otherwise the buffer plays the samples from `position`
/// on, silence past their end, and the position advances by the buffer's
/// length; playback is over once a slot of the buffer lies past the end.
pub fn fill_buffer<T: Copy>(
    source: &[T],
    position: usize,
    stopped: bool,
    silence: T,
    buffer: &mut [T],
) -> (outcome: FillOutcome)
    requires
        !stopped ==> position + old(buffer)@.len() <= usize::MAX,
    ensures
        final(buffer)@.len() == old(buffer)@.len(),
        stopped ==> {
            &&& final(buffer)@ == Seq::new(old(buffer)@.len(), |i: int| silence)
            &&& outcome.next_position == position
            &&& outcome.reached_end
        },
        !stopped ==> {
            &&& final(buffer)@ == played(source@, position as int, old(buffer)@.len(), silence)
            &&& outcome.next_position == position + old(buffer)@.len()
            &&& outcome.reached_end == (old(buffer)@.len() > 0 && position + old(buffer)@.len()
                > source@.len())
        },
{
    let len = buffer.len();
    if stopped {
        for i in 0..len
            invariant
                len == buffer@.len(),
                forall|j: int| 0 <= j < i ==> buffer@[j] == silence,
        {
            buffer[i] = silence;
        }
        assert(buffer@ =~= Seq::new(len as nat, |i: int| silence));
        return FillOutcome { next_position: position, reached_end: true };
    }
    let mut reached_end = false;
    for i in 0..len
        invariant
            len == buffer@.len(),
            position + len <= usize::MAX,
            forall|j: int|
                0 <= j < i ==> buffer@[j] == (if position + j < source@.len() {
                    source@[position + j]
                } else {
                    silence
                }),
            reached_end == (i > 0 && position + i > source@.len()),
    {
        let idx = position + i;
        if idx < source.len() {
            buffer[i] = source[idx];
        } else {
            buffer[i] = silence;
            reached_end = true;
        }
    }
    assert(buffer@ =~= played(source@, position as int, len as nat, silence));
    FillOutcome { next_position: position + len, reached_end }
}

/// Consecutive buffers continue one another: playing a buffer of `a` samples
/// from `position` and then one of `b` samples from where it ended plays the
/// same as one buffer of `a + b` samples.
pub proof fn lemma_consecutive_buffers<T>(source: Seq<T>, position: int, a: nat, b: nat, silence: T)
    ensures
        played(source, position, a, silence) + played(source, position + a, b, silence) == played(
            source,
            position,
            a + b,
            silence,
        ),
{
    assert(played(source, position, a, silence) + played(source, position + a, b, silence) =~= played(
        source,
        position,
        a + b,
        silence,
    ));
}

/// Starting from the first sample, every sample is played exactly once and
/// in order: the first `source.len()` slots of the buffers played so far
/// are the samples, and any slots after them are silence.
pub proof fn lemma_playback_plays_all<T>(source: Seq<T>, len: nat, silence: T)
    ensures
        len >= source.len() ==> played(source, 0, len, silence) == source + Seq::new(
            (len - source.len()) as nat,
            |i: int| silence,
        ),
        len < source.len() ==> played(source, 0, len, silence) == source.take(len as int),
{
    if len >= source.len() {
        assert(played(source, 0, len, silence) =~= source + Seq::new(
            (len - source.len()) as nat,
            |i: int| silence,
        ));
    } else {
        assert(played(source, 0, len, silence) =~= source.take(len as int));
    }
}

/// Stereo of joined mono signals is the two stereo signals joined.
pub proof fn lemma_stereo_of_concat<T>(a: Seq<T>, b: Seq<T>)
    ensures
        stereo_of(a + b) == stereo_of(a) + stereo_of(b),
{
    let lhs = stereo_of(a + b);
    let rhs = stereo_of(a) + stereo_of(b);
    assert forall|i: int| 0 <= i < lhs.len() implies #[trigger] lhs[i] == rhs[i] by {
        if i >= 2 * a.len() {
            assert((i - 2 * a.len()) / 2 == i / 2 - a.len());
        }
    }
    assert(lhs =~= rhs);
}

/// Stereo is the two-channel case of the frame layout.
pub proof fn lemma_stereo_is_two_channels<T>(mono: Seq<T>)
    ensures
        stereo_of(mono) == channel_frames(mono, 2),
{
    assert(stereo_of(mono) =~= channel_frames(mono, 2));
}

/// Each slot of a played buffer holds the sample at its position, or silence
/// past the end of the samples; the buffer has the length asked for.
pub proof fn lemma_played_slots<T>(source: Seq<T>, position: int, len: nat, silence: T)
    ensures
        played(source, position, len, silence).len() == len,
        forall|i: int|
            0 <= i < len && 0 <= position + i < source.len() ==> #[trigger] played(
                source,
                position,
                len,
                silence,
            )[i] == source[position + i],
        forall|i: int|
            0 <= i < len && position + i >= source.len() ==> #[trigger] played(
                source,
                position,
                len,
                silence,
            )[i] == silence,
{
}

/// The layout for a device with several channels is built frame by frame: one
/// sample gives one frame that carries it on every channel, and joined
/// signals give their frames joined. For fewer than two channels the samples
/// stay as they are.
pub proof fn lemma_device_layout_frames<T>(a: Seq<T>, b: Seq<T>, x: T, channels: u16)
    ensures
        channels >= 2 ==> device_layout(seq![x], channels) == Seq::new(channels as nat, |k: int| x),
        channels >= 2 ==> device_layout(a + b, channels) == device_layout(a, channels)
            + device_layout(b, channels),
        channels >= 2 ==> device_layout(a, channels).len() == channels * a.len(),
        channels < 2 ==> device_layout(a, channels) == a,
{
    if channels >= 2 {
        let c = channels as int;
        let one = device_layout(seq![x], channels);
        assert forall|i: int| 0 <= i < one.len() implies #[trigger] one[i] == x by {
            assert(one.len() == c * 1);
            vstd::arithmetic::div_mod::lemma_fundamental_div_mod_converse(i, c, 0, i);
        }
        assert(one =~= Seq::new(channels as nat, |k: int| x));
        let lhs = device_layout(a + b, channels);
        let rhs = device_layout(a, channels) + device_layout(b, channels);
        assert(c * (a.len() + b.len()) == c * a.len() + c * b.len()) by (nonlinear_arith);
        assert forall|i: int| 0 <= i < lhs.len() implies #[trigger] lhs[i] == rhs[i] by {
            let q = i / c;
            let r = i % c;
            vstd::arithmetic::div_mod::lemma_fundamental_div_mod(i, c);
            assert(0 <= r < c);
            assert(i < c * (a.len() + b.len()));
            assert(q < a.len() + b.len()) by (nonlinear_arith)
                requires
                    i == c * q + r,
                    0 <= r,
                    i < c * (a.len() + b.len()),
                    c > 0,
            ;
            if i < c * a.len() {
                assert(q < a.len()) by (nonlinear_arith)
                    requires
                        i == c * q + r,
                        0 <= r,
                        i < c * a.len(),
                        c > 0,
                ;
                assert(q >= 0) by (nonlinear_arith)
                    requires
                        i == c * q + r,
                        r < c,
                        i >= 0,
                        c > 0,
                ;
                assert(lhs[i] == (a + b)[q]);
                assert(rhs[i] == device_layout(a, channels)[i]);
                assert(device_layout(a, channels)[i] == a[q]);
            } else {
                let i2 = i - c * a.len();
                assert(i2 == (q - a.len()) * c + r) by (nonlinear_arith)
                    requires
                        i == c * q + r,
                        i2 == i - c * a.len(),
                ;
                vstd::arithmetic::div_mod::lemma_fundamental_div_mod_converse(
                    i2,
                    c,
                    q - a.len(),
                    r,
                );
                assert(q >= a.len()) by (nonlinear_arith)
                    requires
                        i == c * q + r,
                        r < c,
                        i >= c * a.len(),
                        c > 0,
                ;
                assert(lhs[i] == (a + b)[q]);
                assert(rhs[i] == device_layout(b, channels)[i2]);
                assert(device_layout(b, channels)[i2] == b[q - a.len()]);
                assert(q >= a.len()) by (nonlinear_arith)
                    requires
                        i == c * q + r,
                        r < c,
                        i >= c * a.len(),
                        c > 0,
                ;
            }
        }
        assert(lhs =~= rhs);
    }
}

} // verus!
