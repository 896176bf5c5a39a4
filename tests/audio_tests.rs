use meeting_mind::audio::{calculate_rms, decimate, to_mono, AudioSegmenter, CaptureMode};

#[test]
fn decimate_integer_factor_keeps_every_kth() {
    let samples: Vec<i16> = (0..10).collect();
    let out = decimate(samples, 48000, 16000);
    assert_eq!(out, vec![0, 3, 6]);
}

#[test]
fn decimate_floor_length() {
    let samples: Vec<i16> = (0..7).collect();
    let out = decimate(samples, 32000, 16000);
    assert_eq!(out, vec![0, 2, 4]);
}

#[test]
fn decimate_non_integer_ratio_passes_through() {
    let samples: Vec<i16> = vec![5, 6, 7, 8];
    assert_eq!(decimate(samples.clone(), 44100, 16000), samples);
}

#[test]
fn decimate_same_rate_is_identity() {
    let samples: Vec<i16> = vec![1, -1, 2];
    assert_eq!(decimate(samples.clone(), 16000, 16000), samples);
}

#[test]
fn decimate_empty_input() {
    assert_eq!(decimate(Vec::new(), 48000, 16000), Vec::<i16>::new());
}

#[test]
fn to_mono_averages_frames() {
    let data: Vec<i16> = vec![10, 20, -3, -4, 7];
    assert_eq!(to_mono(&data, 2), vec![15, -3, 3]);
}

#[test]
fn to_mono_single_channel_unchanged() {
    let data: Vec<i16> = vec![1, 2, 3];
    assert_eq!(to_mono(&data, 1), vec![1, 2, 3]);
}

#[test]
fn rms_exact_values() {
    assert_eq!(calculate_rms(&[]), 0);
    assert_eq!(calculate_rms(&[3, 4]), 3);
    assert_eq!(calculate_rms(&[-1000, 1000, 1000, -1000]), 1000);
    assert_eq!(calculate_rms(&[32767, -32768]), 32767);
}

#[test]
fn capture_mode_names() {
    assert_eq!(CaptureMode::parse("mic"), Some(CaptureMode::MicOnly));
    assert_eq!(CaptureMode::parse("system"), Some(CaptureMode::SystemOnly));
    assert_eq!(CaptureMode::parse("both"), Some(CaptureMode::Both));
    assert_eq!(CaptureMode::parse("Mic"), None);
    assert!(CaptureMode::Both.uses_mic() && CaptureMode::Both.uses_system());
    assert!(!CaptureMode::SystemOnly.uses_mic());
    assert!(!CaptureMode::MicOnly.uses_system());
}

#[test]
fn segmenter_slices_micro_chunks_in_order() {
    let mut seg = AudioSegmenter::new();
    let frame: Vec<i16> = (0..400).map(|i| 1000 + i as i16).collect();
    let chunks = seg.process_frame(&frame, 1, 16000);
    assert_eq!(chunks.len(), 2);
    assert_eq!(chunks[0], frame[0..160].to_vec());
    assert_eq!(chunks[1], frame[160..320].to_vec());
    assert_eq!(seg.buffer, frame[320..400].to_vec());
    let more: Vec<i16> = vec![2000; 80];
    let chunks = seg.process_frame(&more, 1, 16000);
    assert_eq!(chunks.len(), 1);
    let mut expected = frame[320..400].to_vec();
    expected.extend(more);
    assert_eq!(chunks[0], expected);
    assert!(seg.buffer.is_empty());
}

#[test]
fn segmenter_ignores_empty_frames() {
    let mut seg = AudioSegmenter::new();
    let chunks = seg.process_frame(&[], 2, 48000);
    assert!(chunks.is_empty());
    assert_eq!(seg.silence_count, 0);
}

#[test]
fn segmenter_drops_silence_after_limit_and_resets_on_sound() {
    let mut seg = AudioSegmenter::new();
    let silent: Vec<i16> = vec![0; 160];
    for i in 0..30 {
        let chunks = seg.process_frame(&silent, 1, 16000);
        assert_eq!(chunks.len(), 1, "silent frame {} still passes", i);
    }
    let chunks = seg.process_frame(&silent, 1, 16000);
    assert!(chunks.is_empty());
    assert_eq!(seg.silence_count, 31);
    let loud: Vec<i16> = vec![5000; 160];
    let chunks = seg.process_frame(&loud, 1, 16000);
    assert_eq!(chunks.len(), 1);
    assert_eq!(seg.silence_count, 0);
    assert_eq!(seg.current_volume, 5000);
}

#[test]
fn segmenter_downmixes_and_decimates() {
    let mut seg = AudioSegmenter::new();
    let mut frame: Vec<i16> = Vec::new();
    for i in 0..960 {
        frame.push(i as i16);
        frame.push(i as i16);
    }
    let chunks = seg.process_frame(&frame, 2, 48000);
    assert_eq!(chunks.len(), 2);
    assert_eq!(chunks[0][1], 3);
    assert_eq!(chunks[1][0], 480);
}
