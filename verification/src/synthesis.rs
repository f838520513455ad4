//! The synthesis protocol of the piper C API, as the library follows it.
//!
//! A synthesis starts with `piper_synthesize_start`, then calls
//! `piper_synthesize_next` until it reports that synthesis is done; every
//! successful call hands over one chunk of audio. The calls themselves go
//! through the C API; the library decides, from their return codes and the
//! chunks, whether to go on, what to keep and what to report.

use vstd::prelude::*;
use crate::text::{decimal, lemma_decimal_denotes, push_decimal};

verus! {

/// Return code of the C API: success.
pub const PIPER_OK: i32 = 0;

/// Return code of the C API: synthesis complete.
pub const PIPER_DONE: i32 = 1;

/// The part of an audio chunk from `piper_synthesize_next` that the
/// synthesis reads: its samples, absent where the chunk's sample pointer is
/// null, and its sample rate.
pub struct ChunkSamples<'a, T> {
    pub samples: Option<&'a [T]>,
    pub sample_rate: i32,
}

/// The samples a chunk contributes.
pub open spec fn chunk_samples<T>(chunk: ChunkSamples<'_, T>) -> Seq<T> {
    match chunk.samples {
        Some(s) => s@,
        None => Seq::empty(),
    }
}

/// A chunk contributes exactly its samples: all of them, in order, and none
/// where its sample pointer was null.
pub proof fn lemma_chunk_contributes_its_samples<T>(chunk: ChunkSamples<'_, T>)
    ensures
        chunk.samples matches Some(s) ==> chunk_samples(chunk) == s@ && chunk_samples(chunk).len()
            == s.len(),
        chunk.samples is None ==> chunk_samples(chunk).len() == 0,
{
}

/// The report of a failed `piper_synthesize_start`.
pub open spec fn start_failure(rc: i32) -> Seq<char> {
    "piper_synthesize_start failed: "@ + decimal(rc as int)
}

/// The report of a failed `piper_synthesize_next`.
pub open spec fn next_failure(rc: i32) -> Seq<char> {
    "piper_synthesize_next failed: "@ + decimal(rc as int)
}

/// A failure report names the return code: it ends with the code in decimal,
/// after the name of the failed call, so different codes give different
/// reports, and a failed start is never reported as a failed chunk.
pub proof fn lemma_failure_reports_name_the_code(rc: i32, other: i32)
    ensures
        start_failure(rc).skip(31) == decimal(rc as int),
        next_failure(rc).skip(30) == decimal(rc as int),
        rc != other ==> start_failure(rc) != start_failure(other),
        rc != other ==> next_failure(rc) != next_failure(other),
        start_failure(rc) != next_failure(other),
{
    reveal_strlit("piper_synthesize_start failed: ");
    reveal_strlit("piper_synthesize_next failed: ");
    lemma_decimal_denotes(rc as int, other as int);
    assert(start_failure(rc).skip(31) =~= decimal(rc as int));
    assert(start_failure(other).skip(31) =~= decimal(other as int));
    assert(next_failure(rc).skip(30) =~= decimal(rc as int));
    assert(next_failure(other).skip(30) =~= decimal(other as int));
    assert(start_failure(rc)[17] == 's' && next_failure(other)[17] == 'n');
}

/// What to do after a call of `piper_synthesize_next`.
#[derive(Debug)]
pub enum SynthesisStep {
    /// The chunk was taken in; call `piper_synthesize_next` again.
    Continue,
    /// Synthesis is complete.
    Finished,
    /// Synthesis failed, with this report.
    Failed(String),
}

/// A synthesis in progress: the samples received so far and the sample rate
/// of the last chunk.
pub struct PiperSynthesizer<T> {
    samples: Vec<T>,
    sample_rate: i32,
}

/// The state of a synthesis in progress.
pub struct SynthesisView<T> {
    pub samples: Seq<T>,
    pub sample_rate: i32,
}

impl<T> View for PiperSynthesizer<T> {
    type V = SynthesisView<T>;

    closed spec fn view(&self) -> SynthesisView<T> {
        SynthesisView { samples: self.samples@, sample_rate: self.sample_rate }
    }
}

impl<T: Copy> PiperSynthesizer<T> {
    /// Begins a synthesis after `piper_synthesize_start` returned `rc`: with no
    /// samples and a sample rate of 0 when it succeeded, with its report when
    /// it failed.
    pub fn start(rc: i32) -> (r: Result<Self, String>)
        ensures
            rc == PIPER_OK ==> (r matches Ok(s) && s@.samples == Seq::<T>::empty()
                && s@.sample_rate == 0),
            rc != PIPER_OK ==> (r matches Err(e) && e@ == start_failure(rc)),
    {
        if rc != PIPER_OK {
            let mut report = String::from_str("piper_synthesize_start failed: ");
            push_decimal(&mut report, rc);
            return Err(report);
        }
        let s = PiperSynthesizer { samples: Vec::new(), sample_rate: 0 };
        assert(s@.samples =~= Seq::<T>::empty());
        Ok(s)
    }

    /// Takes in the outcome of one call of `piper_synthesize_next`: its return
    /// code and the chunk it filled.
    ///
    /// When synthesis is done nothing changes. On another code than success
    /// the synthesis fails with its report. On success the chunk's sample rate
    /// becomes the synthesis's, and the chunk's samples are appended.
    pub fn next(&mut self, rc: i32, chunk: &ChunkSamples<'_, T>) -> (step: SynthesisStep)
        ensures
            rc == PIPER_DONE ==> step is Finished && final(self)@ == old(self)@,
            rc != PIPER_DONE && rc != PIPER_OK ==> (step matches SynthesisStep::Failed(e) && e@
                == next_failure(rc) && final(self)@ == old(self)@),
            rc == PIPER_OK ==> {
                &&& step is Continue
                &&& final(self)@.samples == old(self)@.samples + chunk_samples(*chunk)
                &&& final(self)@.sample_rate == chunk.sample_rate
            },
            rc == PIPER_OK && chunk.samples is None ==> final(self)@.samples == old(self)@.samples,
            rc == PIPER_OK ==> (chunk.samples matches Some(s) ==> final(self)@.samples
                == old(self)@.samples + s@ && final(self)@.samples.len() == old(self)@.samples.len()
                + s@.len()),
    {
        if rc == PIPER_DONE {
            return SynthesisStep::Finished;
        }
        if rc != PIPER_OK {
            let mut report = String::from_str("piper_synthesize_next failed: ");
            push_decimal(&mut report, rc);
            return SynthesisStep::Failed(report);
        }
        self.sample_rate = chunk.sample_rate;
        match chunk.samples {
            Some(s) => {
                let n = s.len();
                let ghost before = self.samples@;
                for i in 0..n
                    invariant
                        n == s@.len(),
                        before == old(self).samples@,
                        self.sample_rate == chunk.sample_rate,
                        self.samples@ =~= before + s@.take(i as int),
                {
                    let x: T = s[i];
                    self.samples.push(x);
                    assert(s@.take(i + 1) =~= s@.take(i as int).push(x));
                }
                assert(s@.take(n as int) =~= s@);
                assert(chunk_samples(*chunk) == s@);
            },
            None => {
                assert(self.samples@ =~= old(self).samples@ + chunk_samples(*chunk));
            },
        }
        SynthesisStep::Continue
    }

    /// The samples and the sample rate of the synthesis.
    pub fn finish(self) -> (r: (Vec<T>, i32))
        ensures
            r.0@ == self@.samples,
            r.1 == self@.sample_rate,
    {
        (self.samples, self.sample_rate)
    }
}

} // verus!
