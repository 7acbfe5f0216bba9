use openflow::services::audio::{
    encode_wav_in_memory, preferred_input_config, speech_span, AudioCapture, DemoAudioCapture,
};

#[test]
fn demo_capture_lifecycle() {
    let mut c = DemoAudioCapture::new();
    assert_eq!(c.end_capture().err(), Some("audio capture was not active".to_string()));
    assert_eq!(c.begin_capture(), Ok(()));
    assert_eq!(c.begin_capture(), Err("audio capture already active".to_string()));
    let b = c.end_capture().unwrap();
    assert_eq!(b.pcm_frames, 14_400);
    assert_eq!(b.duration_ms, 900);
    assert_eq!(b.sample_rate_hz, 16_000);
    assert_eq!(b.channels, 1);
    assert!(b.wav_bytes.is_empty());
}

#[test]
fn speech_span_pads_around_voiced_windows() {
    let voiced = vec![false, true, false, true, false];
    assert_eq!(speech_span(&voiced, 320, 1500, 100), Some((220, 1380)));
    assert_eq!(speech_span(&voiced, 320, 1500, 1600), Some((0, 1500)));
}

#[test]
fn speech_span_clips_a_partial_last_window() {
    assert_eq!(speech_span(&vec![false, false, true], 10, 25, 3), Some((17, 25)));
    assert_eq!(speech_span(&vec![true], 10, 4, 0), Some((0, 4)));
}

#[test]
fn silence_has_no_span() {
    assert_eq!(speech_span(&vec![false, false], 10, 20, 5), None);
    assert_eq!(speech_span(&vec![], 10, 0, 5), None);
}

#[test]
fn wav_file_holds_header_and_samples() {
    let bytes = encode_wav_in_memory(&[0, 1, -1, i16::MAX], 16_000).unwrap();
    assert_eq!(&bytes[0..4], b"RIFF");
    assert_eq!(&bytes[8..12], b"WAVE");
    assert_eq!(bytes.len(), 44 + 8);
    assert_eq!(&bytes[44..], &[0, 0, 1, 0, 0xff, 0xff, 0xff, 0x7f]);
    assert_eq!(u32::from_le_bytes([bytes[24], bytes[25], bytes[26], bytes[27]]), 16_000);
}

#[test]
fn the_first_mono_configuration_is_preferred() {
    assert_eq!(preferred_input_config(&vec![2, 1, 1]), Some(1));
    assert_eq!(preferred_input_config(&vec![1]), Some(0));
    assert_eq!(preferred_input_config(&vec![2, 6]), None);
    assert_eq!(preferred_input_config(&vec![]), None);
}
