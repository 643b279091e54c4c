use hellcall_core::speech::{
    passthrough_capacity, split_ready_chunks, AudioSpeechController, SampleQueue,
    SpeechDetector, SpeechState, MAX_MIC_BUFFER_MS, SAMPLES_PER_FRAME, VAD_LOOKBACK_SAMPLES,
};

fn idle() -> SpeechState {
    SpeechState { is_speaking: false, silence_start: None, is_finalized: false }
}

#[test]
fn constants() {
    assert_eq!(SAMPLES_PER_FRAME, 320);
    assert_eq!(VAD_LOOKBACK_SAMPLES, 1280);
    assert_eq!(MAX_MIC_BUFFER_MS, 500);
}

#[test]
fn sample_queue_keeps_the_newest_samples() {
    let mut q: SampleQueue<i16> = SampleQueue::new(3);
    q.push_samples(&[1, 2]);
    assert_eq!(q.len(), 2);
    q.push_samples(&[3, 4]);
    assert_eq!(q.len(), 3);
    assert_eq!(q.pop_front(), Some(2));
    assert_eq!(q.pop_front(), Some(3));
    assert_eq!(q.pop_front(), Some(4));
    assert_eq!(q.pop_front(), None);
    q.push_samples(&[5, 6, 7, 8, 9]);
    assert_eq!(q.pop_front(), Some(7));
}

#[test]
fn sample_queue_of_zero_capacity_keeps_one() {
    let mut q: SampleQueue<u8> = SampleQueue::new(0);
    q.push_samples(&[1, 2, 3]);
    assert_eq!(q.len(), 1);
    assert_eq!(q.pop_front(), Some(3));
}

#[test]
fn passthrough_holds_half_a_second() {
    assert_eq!(passthrough_capacity(48_000), 24_000);
    assert_eq!(passthrough_capacity(16_000), 8_000);
    assert_eq!(passthrough_capacity(1), 1);
    assert_eq!(passthrough_capacity(0), 1);
    assert_eq!(passthrough_capacity(3), 1);
}

#[test]
fn ready_chunks_are_split_off_in_order() {
    let mut buf = vec![1, 2, 3, 4, 5, 6, 7];
    let chunks = split_ready_chunks(&mut buf, 3);
    assert_eq!(chunks, vec![vec![1, 2, 3], vec![4, 5, 6]]);
    assert_eq!(buf, vec![7]);
    let mut small = vec![1, 2];
    assert!(split_ready_chunks(&mut small, 3).is_empty());
    assert_eq!(small, vec![1, 2]);
}

#[test]
fn silence_longer_than_the_limit_completes_an_utterance() {
    let mut d = SpeechDetector::new(false, 500, 1600);
    assert_eq!(d.state(), idle());
    d.update_speech_state(true, 1000);
    assert!(d.state().is_speaking);
    d.update_speech_state(false, 1100);
    assert_eq!(d.state().silence_start, Some(1100));
    d.update_speech_state(false, 1600);
    assert!(d.state().is_speaking);
    d.update_speech_state(false, 1601);
    assert_eq!(d.state(), SpeechState { is_speaking: false, silence_start: None, is_finalized: true });
    assert!(d.finalize());
    assert_eq!(d.state(), idle());
    assert!(!d.finalize());
}

#[test]
fn speech_restarts_the_silence_timer() {
    let mut d = SpeechDetector::new(false, 500, 1600);
    d.update_speech_state(true, 0);
    d.update_speech_state(false, 100);
    d.update_speech_state(true, 550);
    d.update_speech_state(false, 650);
    d.update_speech_state(false, 1000);
    assert!(d.state().is_speaking);
    assert!(!d.state().is_finalized);
}

#[test]
fn frame_runs_decide_speech() {
    let mut d = SpeechDetector::new(false, 0, 320);
    d.detect_speech(&[true, true, true], 10);
    assert!(!d.state().is_speaking);
    d.detect_speech(&[true, true, true, true], 10);
    assert!(d.state().is_speaking);
    d.detect_speech(&[false, false, false, false, false, false], 20);
    assert_eq!(d.state().silence_start, Some(20));
    d.detect_speech(&[false, false, false, false, false, false, false], 30);
    assert!(d.state().is_finalized);
}

#[test]
fn push_to_talk_ignores_frames() {
    let mut d = SpeechDetector::new(true, 0, 320);
    d.detect_speech(&[true; 10], 10);
    assert_eq!(d.state(), idle());
    let ptt = AudioSpeechController { attached: true };
    ptt.set_is_speaking(&mut d, true);
    assert!(d.state().is_speaking);
    ptt.set_is_speaking(&mut d, false);
    assert_eq!(d.state(), SpeechState { is_speaking: false, silence_start: None, is_finalized: true });
    let detached = AudioSpeechController { attached: false };
    let mut e = SpeechDetector::new(true, 0, 320);
    detached.set_is_speaking(&mut e, true);
    assert_eq!(e.state(), idle());
}

#[test]
fn audio_before_speech_is_kept_and_handed_over() {
    let mut d = SpeechDetector::new(false, 100, 2);
    let big: Vec<i16> = (0..1300).collect();
    assert_eq!(d.accept_chunk(&big), None);
    d.update_speech_state(true, 0);
    let kept = d.accept_chunk(&[9, 9]).expect("speech hands the kept audio over");
    assert_eq!(kept.len(), 1282);
    assert_eq!(kept[0], 18);
    assert_eq!(kept[1281], 1299);
    assert_eq!(d.accept_chunk(&[1]), Some(vec![]));
    d.reset();
    assert_eq!(d.state(), idle());
}
