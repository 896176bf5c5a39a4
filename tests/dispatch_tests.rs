use meeting_mind::dispatch::{
    connection_verdict, encode_utterance, ConnectionVerdict, is_rate_limited, to_wav, DispatchError, Dispatcher, ResponseEnvelope,
};

fn no_envelope() -> ResponseEnvelope {
    ResponseEnvelope { error_message: None, first_text: None }
}

#[test]
fn backoff_doubles_to_maximum_then_resets() {
    let mut d = Dispatcher::new();
    let mut seen = Vec::new();
    for _ in 0..7 {
        let r = d.finish_request(429, "", no_envelope());
        match r {
            Err(DispatchError::RateLimited(b)) => seen.push(b),
            _ => panic!("expected rate limiting"),
        }
    }
    assert_eq!(seen, vec![5, 10, 20, 40, 60, 60, 60]);
    let r = d.finish_request(200, "plain", no_envelope());
    assert_eq!(r.ok(), Some("plain".to_string()));
    assert_eq!(d.backoff_secs, 0);
}

#[test]
fn rate_limit_markers_in_body() {
    assert!(is_rate_limited(429, ""));
    assert!(is_rate_limited(200, "{\"error\":{\"status\":\"RESOURCE_EXHAUSTED\"}}"));
    assert!(is_rate_limited(500, "code 429"));
    assert!(is_rate_limited(200, "please moderate your request rate"));
    assert!(!is_rate_limited(200, "{\"ok\":true}"));
    assert!(!is_rate_limited(503, "Service Unavailable"));
}

#[test]
fn requests_are_spaced_by_minimum_interval() {
    let mut d = Dispatcher::new();
    assert_eq!(d.request_delay_ms(1_000), 0);
    d.begin_request(1_000);
    assert_eq!(d.request_count, 1);
    assert_eq!(d.request_delay_ms(1_500), 2_500);
    assert_eq!(d.request_delay_ms(4_000), 0);
    assert_eq!(d.request_delay_ms(10_000), 0);
    let _ = d.finish_request(429, "", no_envelope());
    assert_eq!(d.request_delay_ms(2_000), 2_000 + 5_000);
    assert_eq!(d.request_delay_ms(9_000), 5_000);
}

#[test]
fn envelope_text_error_and_raw_fallback() {
    let mut d = Dispatcher::new();
    let ok = d.finish_request(
        200,
        "{...}",
        ResponseEnvelope { error_message: None, first_text: Some("hello".to_string()) },
    );
    assert_eq!(ok.ok(), Some("hello".to_string()));
    let api = d.finish_request(
        400,
        "{...}",
        ResponseEnvelope { error_message: Some("bad key".to_string()), first_text: None },
    );
    match api {
        Err(e) => assert_eq!(e.message(), "API: bad key"),
        Ok(_) => panic!("expected an API error"),
    }
    let raw = d.finish_request(200, "not json", no_envelope());
    assert_eq!(raw.ok(), Some("not json".to_string()));
}

#[test]
fn error_messages() {
    assert_eq!(DispatchError::RateLimited(20).message(), "Rate limited. Waiting 20s before retry.");
    assert_eq!(DispatchError::Network("timeout".to_string()).message(), "HTTP: timeout");
}

#[test]
fn wav_header_and_samples() {
    let wav = to_wav(&[1, -2]);
    assert_eq!(wav.len(), 48);
    assert_eq!(&wav[0..4], b"RIFF");
    assert_eq!(&wav[4..8], &40u32.to_le_bytes());
    assert_eq!(&wav[8..16], b"WAVEfmt ");
    assert_eq!(&wav[24..28], &16000u32.to_le_bytes());
    assert_eq!(&wav[36..40], b"data");
    assert_eq!(&wav[40..44], &4u32.to_le_bytes());
    assert_eq!(&wav[44..48], &[1, 0, 0xfe, 0xff]);
}

#[test]
fn utterance_payload_is_base64_wav() {
    assert_eq!(encode_utterance(&[]), "UklGRiQAAABXQVZFZm10IBAAAAABAAEAgD4AAAB9AAACABAAZGF0YQAAAAA=");
    assert_eq!(encode_utterance(&[1, -2]), "UklGRigAAABXQVZFZm10IBAAAAABAAEAgD4AAAB9AAACABAAZGF0YQQAAAABAP7/");
}

#[test]
fn connection_test_statuses() {
    assert_eq!(connection_verdict(200), ConnectionVerdict::Connected);
    assert_eq!(connection_verdict(204), ConnectionVerdict::Connected);
    assert_eq!(connection_verdict(429), ConnectionVerdict::RateLimited);
    assert_eq!(connection_verdict(403), ConnectionVerdict::QuotaExhausted);
    assert_eq!(connection_verdict(500), ConnectionVerdict::HttpError);
    assert_eq!(connection_verdict(301), ConnectionVerdict::HttpError);
}
