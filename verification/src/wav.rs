//! The format of the WAV files the library's users save speech in.

use vstd::prelude::*;

verus! {

/// Bits per sample of the WAV output.
pub const BITS_PER_SAMPLE: u16 = 16;

/// How the samples of a WAV file are written.
#[derive(Debug, Clone, Copy, PartialEq, Eq, Structural)]
pub enum WavSampleFormat {
    /// IEEE floating-point samples.
    Float,
    /// Two's complement integer samples.
    Int,
}

/// The format of a WAV file of PCM samples.
#[derive(Debug, Clone, Copy, PartialEq, Eq, Structural)]
pub struct WavFormat {
    pub channels: u16,
    pub sample_rate: u32,
    pub bits_per_sample: u16,
    pub sample_format: WavSampleFormat,
}

/// The format speech is saved in: one channel of 16-bit integer samples, at
/// the sample rate of the synthesizer.
pub fn wav_format(sample_rate: u32) -> (format: WavFormat)
    ensures
        format.channels == 1,
        format.sample_rate == sample_rate,
        format.bits_per_sample == BITS_PER_SAMPLE,
        format.sample_format == WavSampleFormat::Int,
{
    WavFormat {
        channels: 1,
        sample_rate,
        bits_per_sample: BITS_PER_SAMPLE,
        sample_format: WavSampleFormat::Int,
    }
}

} // verus!
