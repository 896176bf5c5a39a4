use meeting_mind::assembler::{TickOutcome, UtteranceAssembler, MAX_BATCH_SAMPLES, MIN_SPEECH_SAMPLES};

fn tone(n: usize, level: i16) -> Vec<i16> {
    (0..n).map(|i| if i % 2 == 0 { level } else { -level }).collect()
}

#[test]
fn speech_then_silence_emits_one_utterance() {
    let mut a = UtteranceAssembler::new();
    let mut dispatched: Vec<(u64, usize)> = Vec::new();
    let mut now: u64 = 0;
    while now < 3000 {
        if let TickOutcome::Dispatch(audio) = a.tick(now, tone(1600, 1000)) {
            dispatched.push((now, audio.len()));
        }
        now += 100;
    }
    while now < 8000 {
        match a.tick(now, vec![0; 1600]) {
            TickOutcome::Dispatch(audio) => {
                dispatched.push((now, audio.len()));
                a.finish_dispatch();
            }
            TickOutcome::Discarded => panic!("discarded"),
            _ => {}
        }
        now += 100;
    }
    assert_eq!(dispatched.len(), 1);
    let (at, len) = dispatched[0];
    assert_eq!(at, 4900);
    assert_eq!(len, 80000);
    let expected = (at as usize) * 16;
    assert!(len >= expected && len - expected <= 1600);
}

#[test]
fn short_utterance_is_discarded() {
    let mut a = UtteranceAssembler::new();
    let mut now: u64 = 0;
    let mut outcomes: Vec<&'static str> = Vec::new();
    while now < 1000 {
        a.tick(now, tone(1600, 1000));
        now += 100;
    }
    while now <= 3000 {
        match a.tick(now, vec![0; 160]) {
            TickOutcome::Dispatch(_) => outcomes.push("dispatch"),
            TickOutcome::Discarded => outcomes.push("discard"),
            _ => {}
        }
        now += 100;
    }
    assert_eq!(outcomes, vec!["discard"]);
    assert!(!a.speaking);
    assert!(a.buffer.is_empty());
    assert!(!a.processing);
}

#[test]
fn quiet_audio_does_not_start_an_utterance() {
    let mut a = UtteranceAssembler::new();
    for t in 0..50u64 {
        assert!(matches!(a.tick(t * 100, tone(1600, 10)), TickOutcome::Waiting));
    }
    assert!(!a.speaking);
    assert!(a.buffer.is_empty());
}

#[test]
fn still_talking_threshold_refreshes_last_speech() {
    let mut a = UtteranceAssembler::new();
    a.tick(0, tone(1600, 1000));
    a.tick(100, tone(1600, 20));
    assert_eq!(a.last_speech, Some(100));
    a.tick(200, tone(1600, 10));
    assert_eq!(a.last_speech, Some(100));
    assert_eq!(a.speech_start, Some(0));
    assert_eq!(a.buffer.len(), 4800);
}

#[test]
fn max_batch_duration_forces_emit() {
    let mut a = UtteranceAssembler::new();
    let mut got = None;
    let mut now: u64 = 0;
    while now <= 15000 {
        if let TickOutcome::Dispatch(audio) = a.tick(now, tone(1600, 1000)) {
            got = Some((now, audio.len()));
            break;
        }
        now += 100;
    }
    let (at, len) = got.expect("emitted");
    assert_eq!(at, 15000);
    assert_eq!(len, MAX_BATCH_SAMPLES + 1600);
    assert!(len >= MIN_SPEECH_SAMPLES);
    assert!(a.processing);
}

#[test]
fn busy_while_dispatch_outstanding() {
    let mut a = UtteranceAssembler::new();
    let mut now: u64 = 0;
    loop {
        if let TickOutcome::Dispatch(_) = a.tick(now, tone(1600, 1000)) {
            break;
        }
        now += 100;
    }
    assert!(matches!(a.tick(now + 100, tone(1600, 1000)), TickOutcome::Busy));
    assert_eq!(a.buffer.len(), 1600);
    assert!(a.processing);
    a.finish_dispatch();
    assert!(matches!(a.tick(now + 200, tone(1600, 1000)), TickOutcome::Waiting));
    assert!(a.speaking);
}

#[test]
fn empty_tick_before_timeout_waits() {
    let mut a = UtteranceAssembler::new();
    a.tick(0, tone(1600, 1000));
    assert!(matches!(a.tick(1000, Vec::new()), TickOutcome::Waiting));
    assert!(a.speaking);
    assert_eq!(a.buffer.len(), 1600);
    assert_eq!(a.last_level, 1000);
}

#[test]
fn empty_ticks_still_close_the_utterance() {
    let mut a = UtteranceAssembler::new();
    let mut now: u64 = 0;
    while now < 4000 {
        a.tick(now, tone(1600, 1000));
        now += 100;
    }
    let mut got = None;
    while now < 8000 {
        if let TickOutcome::Dispatch(audio) = a.tick(now, Vec::new()) {
            got = Some((now, audio.len()));
            break;
        }
        now += 100;
    }
    assert_eq!(got, Some((5900, 64000)));
}

#[test]
fn audio_while_busy_is_bounded() {
    let mut a = UtteranceAssembler::new();
    let mut now: u64 = 0;
    loop {
        if let TickOutcome::Dispatch(_) = a.tick(now, tone(1600, 1000)) {
            break;
        }
        now += 100;
    }
    for _ in 0..200 {
        now += 100;
        assert!(matches!(a.tick(now, tone(1600, 1000)), TickOutcome::Busy));
    }
    assert_eq!(a.buffer.len(), MAX_BATCH_SAMPLES);
}
