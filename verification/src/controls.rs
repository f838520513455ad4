//! The decisions behind the user interface: which model a request uses and
//! what the status line says while a job runs and once it is over.

use vstd::prelude::*;

verus! {

/// The two jobs the interface starts: speaking the text aloud, or saving the
/// spoken text as a WAV file.
#[derive(Debug, PartialEq, Eq, Structural, Clone, Copy)]
pub enum JobKind {
    Speak,
    SaveWav,
}

/// What the interface does when a job is requested for an available voice.
#[derive(Debug)]
pub struct JobStart {
    /// The number of the selected voice among the voices on offer.
    pub voice: usize,
    /// The status line while the job runs.
    pub status: String,
    /// Whether an earlier request to stop playback is cleared before the job
    /// starts.
    pub clears_stop_request: bool,
}

/// The status line while a job runs.
pub open spec fn running_status(kind: JobKind) -> Seq<char> {
    match kind {
        JobKind::Speak => "Syntetiserer..."@,
        JobKind::SaveWav => "Gemmer WAV..."@,
    }
}

/// The status line once a job is over.
pub open spec fn finished_status(kind: JobKind, result: Result<(), Seq<char>>) -> Seq<char> {
    match result {
        Ok(()) => match kind {
            JobKind::Speak => "Klar"@,
            JobKind::SaveWav => "WAV gemt!"@,
        },
        Err(e) => "Fejl: "@ + e,
    }
}

/// A failed job is reported as failed, whatever its error: the status line is
/// `Fejl: ` followed by the error, never the status of a job that went well,
/// and different errors give different status lines.
pub proof fn lemma_failure_reports_the_error(kind: JobKind, e: Seq<char>, other: Seq<char>)
    ensures
        finished_status(kind, Err(e)).take(6) == seq!['F', 'e', 'j', 'l', ':', ' '],
        finished_status(kind, Err(e)).skip(6) == e,
        finished_status(kind, Err(e)) != finished_status(kind, Ok(())),
        finished_status(kind, Err(e)) == finished_status(kind, Err(other)) ==> e == other,
{
    reveal_strlit("Fejl: ");
    reveal_strlit("Klar");
    reveal_strlit("WAV gemt!");
    let f = finished_status(kind, Err(e));
    assert(f.take(6) =~= seq!['F', 'e', 'j', 'l', ':', ' ']);
    assert(f.skip(6) =~= e);
    assert(f[0] == 'F');
    assert(finished_status(kind, Ok(()))[0] != 'F' || finished_status(kind, Ok(())).len() < 6);
    if f == finished_status(kind, Err(other)) {
        assert(finished_status(kind, Err(other)).skip(6) =~= other);
    }
}

/// A job that went well is reported as ready: `Klar` after speaking,
/// `WAV gemt!` after saving.
pub proof fn lemma_success_reports_ready(kind: JobKind)
    ensures
        kind == JobKind::Speak ==> finished_status(kind, Ok(())) == seq!['K', 'l', 'a', 'r'],
        kind == JobKind::SaveWav ==> finished_status(kind, Ok(())) == seq![
            'W',
            'A',
            'V',
            ' ',
            'g',
            'e',
            'm',
            't',
            '!',
        ],
{
    reveal_strlit("Klar");
    reveal_strlit("WAV gemt!");
    assert("Klar"@ =~= seq!['K', 'l', 'a', 'r']);
    assert("WAV gemt!"@ =~= seq!['W', 'A', 'V', ' ', 'g', 'e', 'm', 't', '!']);
}

/// While a job runs the status line says what it does: synthesizing for
/// speech, saving for a WAV file; the two differ.
pub proof fn lemma_running_status_says_what_runs()
    ensures
        running_status(JobKind::Speak) == seq![
            'S',
            'y',
            'n',
            't',
            'e',
            't',
            'i',
            's',
            'e',
            'r',
            'e',
            'r',
            '.',
            '.',
            '.',
        ],
        running_status(JobKind::SaveWav) == seq![
            'G',
            'e',
            'm',
            'm',
            'e',
            'r',
            ' ',
            'W',
            'A',
            'V',
            '.',
            '.',
            '.',
        ],
        running_status(JobKind::Speak) != running_status(JobKind::SaveWav),
{
    reveal_strlit("Syntetiserer...");
    reveal_strlit("Gemmer WAV...");
    assert("Syntetiserer..."@ =~= seq![
        'S',
        'y',
        'n',
        't',
        'e',
        't',
        'i',
        's',
        'e',
        'r',
        'e',
        'r',
        '.',
        '.',
        '.',
    ]);
    assert("Gemmer WAV..."@ =~= seq!['G', 'e', 'm', 'm', 'e', 'r', ' ', 'W', 'A', 'V', '.', '.', '.']);
}

/// How a job that was requested with voice number `selected_voice` starts,
/// when `voice_count` voices are on offer; `None` when that number names no
/// voice, in which case the request is ignored.
///
/// Playing speech clears an earlier request to stop playback; saving does
/// not touch it.
pub fn start_job(kind: JobKind, voice_count: usize, selected_voice: i32) -> (r: Option<JobStart>)
    ensures
        r is Some <==> 0 <= selected_voice < voice_count,
        r matches Some(start) ==> {
            &&& start.voice == selected_voice
            &&& start.status@ == running_status(kind)
            &&& start.clears_stop_request == (kind == JobKind::Speak)
        },
{
    if selected_voice < 0 {
        return None;
    }
    let voice = selected_voice as usize;
    if voice >= voice_count {
        return None;
    }
    let status = match kind {
        JobKind::Speak => String::from_str("Syntetiserer..."),
        JobKind::SaveWav => String::from_str("Gemmer WAV..."),
    };
    let clears_stop_request = match kind {
        JobKind::Speak => true,
        JobKind::SaveWav => false,
    };
    Some(JobStart { voice, status, clears_stop_request })
}

/// The status line once a job is over: ready, or the error it ended with.
pub fn finish_status(kind: JobKind, result: &Result<(), String>) -> (status: String)
    ensures
        status@ == finished_status(
            kind,
            match result {
                Ok(()) => Ok(()),
                Err(e) => Err(e@),
            },
        ),
        result matches Err(e) ==> status@ == "Fejl: "@ + e@,
        result is Ok ==> status@ == (if kind == JobKind::Speak {
            "Klar"@
        } else {
            "WAV gemt!"@
        }),
{
    match result {
        Ok(()) => match kind {
            JobKind::Speak => String::from_str("Klar"),
            JobKind::SaveWav => String::from_str("WAV gemt!"),
        },
        Err(e) => {
            let mut status = String::from_str("Fejl: ");
            status.append(e.as_str());
            status
        },
    }
}

} // verus!
