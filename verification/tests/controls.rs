use piper_poc::controls::{finish_status, start_job, JobKind};

#[test]
fn speaking_starts_with_the_selected_voice() {
    let start = start_job(JobKind::Speak, 2, 1).unwrap();
    assert_eq!(start.voice, 1);
    assert_eq!(start.status, "Syntetiserer...");
    assert!(start.clears_stop_request);
}

#[test]
fn saving_starts_with_the_selected_voice() {
    let start = start_job(JobKind::SaveWav, 2, 0).unwrap();
    assert_eq!(start.voice, 0);
    assert_eq!(start.status, "Gemmer WAV...");
    assert!(!start.clears_stop_request);
}

#[test]
fn unknown_voice_is_ignored() {
    assert!(start_job(JobKind::Speak, 2, 2).is_none());
    assert!(start_job(JobKind::Speak, 2, -1).is_none());
    assert!(start_job(JobKind::SaveWav, 0, 0).is_none());
    assert!(start_job(JobKind::SaveWav, 2, i32::MIN).is_none());
}

#[test]
fn status_when_a_job_is_over() {
    assert_eq!(finish_status(JobKind::Speak, &Ok(())), "Klar");
    assert_eq!(finish_status(JobKind::SaveWav, &Ok(())), "WAV gemt!");
    assert_eq!(
        finish_status(JobKind::Speak, &Err("piper_create returned null".to_string())),
        "Fejl: piper_create returned null"
    );
    assert_eq!(
        finish_status(JobKind::SaveWav, &Err("failed to create WAV: x".to_string())),
        "Fejl: failed to create WAV: x"
    );
}
