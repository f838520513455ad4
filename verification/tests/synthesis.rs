use piper_poc::synthesis::{ChunkSamples, PiperSynthesizer, SynthesisStep, PIPER_DONE, PIPER_OK};

#[test]
fn start_codes() {
    assert!(PiperSynthesizer::<f32>::start(PIPER_OK).is_ok());
    match PiperSynthesizer::<f32>::start(-3) {
        Err(e) => assert_eq!(e, "piper_synthesize_start failed: -3"),
        Ok(_) => panic!("a failed start must be reported"),
    }
    match PiperSynthesizer::<f32>::start(2) {
        Err(e) => assert_eq!(e, "piper_synthesize_start failed: 2"),
        Ok(_) => panic!("a failed start must be reported"),
    }
    match PiperSynthesizer::<f32>::start(i32::MIN) {
        Err(e) => assert_eq!(e, "piper_synthesize_start failed: -2147483648"),
        Ok(_) => panic!("a failed start must be reported"),
    }
}

#[test]
fn fresh_synthesis_is_empty() {
    let s = PiperSynthesizer::<f32>::start(PIPER_OK).unwrap();
    let (samples, rate) = s.finish();
    assert!(samples.is_empty());
    assert_eq!(rate, 0);
}

#[test]
fn chunks_are_concatenated_and_last_rate_kept() {
    let mut s = PiperSynthesizer::start(PIPER_OK).unwrap();
    let first = [0.1f32, 0.2];
    let second = [0.3f32];
    assert!(matches!(
        s.next(PIPER_OK, &ChunkSamples { samples: Some(&first), sample_rate: 22050 }),
        SynthesisStep::Continue
    ));
    assert!(matches!(
        s.next(PIPER_OK, &ChunkSamples { samples: None, sample_rate: 16000 }),
        SynthesisStep::Continue
    ));
    assert!(matches!(
        s.next(PIPER_OK, &ChunkSamples { samples: Some(&second), sample_rate: 22050 }),
        SynthesisStep::Continue
    ));
    assert!(matches!(
        s.next(PIPER_DONE, &ChunkSamples { samples: Some(&[9.0]), sample_rate: 8000 }),
        SynthesisStep::Finished
    ));
    let (samples, rate) = s.finish();
    assert_eq!(samples, vec![0.1f32, 0.2, 0.3]);
    assert_eq!(rate, 22050);
}

#[test]
fn chunk_without_samples_still_sets_the_rate() {
    let mut s = PiperSynthesizer::<i16>::start(PIPER_OK).unwrap();
    let empty: [i16; 0] = [];
    s.next(PIPER_OK, &ChunkSamples { samples: Some(&empty), sample_rate: 44100 });
    let (samples, rate) = s.finish();
    assert!(samples.is_empty());
    assert_eq!(rate, 44100);
}

#[test]
fn failed_chunk_is_reported() {
    let mut s = PiperSynthesizer::start(PIPER_OK).unwrap();
    match s.next(-1, &ChunkSamples { samples: Some(&[1i16, 2]), sample_rate: 1 }) {
        SynthesisStep::Failed(e) => assert_eq!(e, "piper_synthesize_next failed: -1"),
        _ => panic!("a failed chunk must be reported"),
    }
    match s.next(42, &ChunkSamples { samples: None, sample_rate: 1 }) {
        SynthesisStep::Failed(e) => assert_eq!(e, "piper_synthesize_next failed: 42"),
        _ => panic!("a failed chunk must be reported"),
    }
    let (samples, rate) = s.finish();
    assert!(samples.is_empty());
    assert_eq!(rate, 0);
}
