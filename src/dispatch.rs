//! The request dispatcher: request spacing, exponential backoff on rate
//! limiting, response interpretation, and the WAV/base64 audio payload.

use vstd::prelude::*;
use base64::Engine as _;
use crate::text::{has_substring, str_contains, push_str, push_decimal, decimal};

verus! {

/// Least time between the starts of two requests, in milliseconds.
pub const MIN_REQUEST_INTERVAL_MS: u64 = 3000;

/// Backoff after the first rate-limited response, in seconds.
pub const INITIAL_BACKOFF_SECS: u64 = 5;

/// Largest backoff, in seconds.
pub const MAX_BACKOFF_SECS: u64 = 60;

/// HTTP status of a rate-limited response.
pub const RATE_LIMIT_STATUS: u16 = 429;

/// Sample rate written into the WAV header.
pub const WAV_SAMPLE_RATE: u32 = 16000;

/// The backoff after a response: on rate limiting, double it, at least the
/// initial value and at most the maximum; otherwise zero.
pub open spec fn next_backoff(backoff: u64, rate_limited: bool) -> u64 {
    if !rate_limited {
        0
    } else if 2 * backoff < INITIAL_BACKOFF_SECS {
        INITIAL_BACKOFF_SECS
    } else if 2 * backoff > MAX_BACKOFF_SECS {
        MAX_BACKOFF_SECS
    } else {
        (2 * backoff) as u64
    }
}

/// The backoff after `k` rate-limited responses in a row, from none.
pub open spec fn backoff_after(k: nat) -> u64
    decreases k,
{
    if k == 0 {
        0
    } else {
        next_backoff(backoff_after((k - 1) as nat), true)
    }
}

/// Consecutive rate-limited responses set the backoff to the initial value,
/// then double it each time until it reaches the maximum, where it stays;
/// the next response that is not rate limited resets it to zero.
pub proof fn lemma_backoff_doubles(k: nat)
    ensures
        backoff_after(1) == INITIAL_BACKOFF_SECS,
        backoff_after(k) <= MAX_BACKOFF_SECS,
        k >= 1 ==> backoff_after(k + 1) == if 2 * backoff_after(k) <= MAX_BACKOFF_SECS {
            2 * backoff_after(k)
        } else {
            MAX_BACKOFF_SECS as int
        },
        k >= 1 ==> backoff_after(k) < backoff_after(k + 1) || backoff_after(k) == MAX_BACKOFF_SECS,
        next_backoff(backoff_after(k), false) == 0,
    decreases k,
{
    assert(backoff_after(0) == 0);
    assert(backoff_after(1) == next_backoff(0, true));
    if k > 0 {
        lemma_backoff_doubles((k - 1) as nat);
    }
    if k >= 1 {
        assert(backoff_after(k) >= INITIAL_BACKOFF_SECS) by {
            lemma_backoff_at_least_initial(k);
        }
    }
}

proof fn lemma_backoff_at_least_initial(k: nat)
    requires
        k >= 1,
    ensures
        backoff_after(k) >= INITIAL_BACKOFF_SECS,
    decreases k,
{
    if k > 1 {
        lemma_backoff_at_least_initial((k - 1) as nat);
    }
}

/// Time still to wait, in milliseconds, so that a request started `now`
/// comes at least the minimum interval after the one started at `last`.
pub open spec fn interval_wait(last: Option<u64>, now: u64) -> int {
    match last {
        None => 0,
        Some(l) => {
            let elapsed = if now >= l { now - l } else { 0 };
            if elapsed < MIN_REQUEST_INTERVAL_MS {
                MIN_REQUEST_INTERVAL_MS - elapsed
            } else {
                0
            }
        },
    }
}

/// A response is rate limited if its status is 429 or its body mentions
/// `429`, `RESOURCE_EXHAUSTED` or `rate`.
pub open spec fn rate_limited_spec(status: u16, body: Seq<char>) -> bool {
    status == RATE_LIMIT_STATUS || has_substring(body, "429"@) || has_substring(
        body,
        "RESOURCE_EXHAUSTED"@,
    ) || has_substring(body, "rate"@)
}

/// Whether a response counts as rate limited.
pub fn is_rate_limited(status: u16, body: &str) -> (r: bool)
    ensures
        r == rate_limited_spec(status, body@),
{
    status == RATE_LIMIT_STATUS || str_contains(body, "429") || str_contains(body, "RESOURCE_EXHAUSTED")
        || str_contains(body, "rate")
}

/// What the service's JSON envelope held, as read by the caller: the
/// top-level `error.message` (empty if the error had none), and the text of
/// the first part of the first candidate. Both are `None` when the body was
/// not such an envelope.
pub struct ResponseEnvelope {
    pub error_message: Option<String>,
    pub first_text: Option<String>,
}

/// Why a dispatch produced no result.
pub enum DispatchError {
    /// Transport failure (timeout, connection, reading the body).
    Network(String),
    /// Rate limited; carries the backoff now in force, in seconds.
    RateLimited(u64),
    /// The service answered with an error envelope.
    Api(String),
}

impl DispatchError {
    /// A one-line description.
    pub fn message(&self) -> (r: String)
        ensures
            match self {
                DispatchError::Network(m) => r@ == "HTTP: "@ + m@,
                DispatchError::RateLimited(b) => r@ == "Rate limited. Waiting "@ + decimal(*b as nat)
                    + "s before retry."@,
                DispatchError::Api(m) => r@ == "API: "@ + m@,
            },
    {
        let mut s = String::new();
        match self {
            DispatchError::Network(m) => {
                push_str(&mut s, "HTTP: ");
                push_str(&mut s, m.as_str());
            },
            DispatchError::RateLimited(b) => {
                push_str(&mut s, "Rate limited. Waiting ");
                push_decimal(&mut s, *b);
                push_str(&mut s, "s before retry.");
            },
            DispatchError::Api(m) => {
                push_str(&mut s, "API: ");
                push_str(&mut s, m.as_str());
            },
        }
        assert(s@ =~= match self {
            DispatchError::Network(m) => "HTTP: "@ + m@,
            DispatchError::RateLimited(b) => "Rate limited. Waiting "@ + decimal(*b as nat) + "s before retry."@,
            DispatchError::Api(m) => "API: "@ + m@,
        });
        s
    }
}

/// Rate-limiting state of the single-flight dispatcher.
pub struct Dispatcher {
    /// Backoff in force, in seconds; zero when none.
    pub backoff_secs: u64,
    /// Start time of the last request, in milliseconds.
    pub last_request_ms: Option<u64>,
    /// Requests started so far.
    pub request_count: u32,
}

impl Dispatcher {
    /// The backoff never exceeds its maximum.
    pub open spec fn wf(&self) -> bool {
        self.backoff_secs <= MAX_BACKOFF_SECS
    }

    /// A dispatcher that has sent nothing and has no backoff.
    pub fn new() -> (r: Dispatcher)
        ensures
            r.wf(),
            r.backoff_secs == 0,
            r.last_request_ms.is_none(),
            r.request_count == 0,
    {
        Dispatcher { backoff_secs: 0, last_request_ms: None, request_count: 0 }
    }

    /// Milliseconds to sleep before the next request started at `now_ms`:
    /// the rest of the minimum interval, then the backoff in force.
    pub fn request_delay_ms(&self, now_ms: u64) -> (r: u64)
        requires
            self.wf(),
        ensures
            r == interval_wait(self.last_request_ms, now_ms) + self.backoff_secs * 1000,
    {
        let wait: u64 = match self.last_request_ms {
            None => 0,
            Some(l) => {
                let elapsed = if now_ms >= l { now_ms - l } else { 0 };
                if elapsed < MIN_REQUEST_INTERVAL_MS {
                    MIN_REQUEST_INTERVAL_MS - elapsed
                } else {
                    0
                }
            },
        };
        wait + self.backoff_secs * 1000
    }

    /// Records that a request starts at `now_ms`.
    pub fn begin_request(&mut self, now_ms: u64)
        ensures
            final(self).last_request_ms == Some(now_ms),
            final(self).backoff_secs == old(self).backoff_secs,
            final(self).request_count == if old(self).request_count < u32::MAX {
                old(self).request_count + 1
            } else {
                old(self).request_count as int
            },
    {
        self.last_request_ms = Some(now_ms);
        if self.request_count < u32::MAX {
            self.request_count = self.request_count + 1;
        }
    }

    /// Interprets a response with HTTP `status` and `body`, whose envelope
    /// the caller read. A rate-limited response raises the backoff and gives
    /// `RateLimited`; any other resets the backoff, then gives the envelope's
    /// error as `Api`, else its first text, else the raw body.
    pub fn finish_request(&mut self, status: u16, body: &str, envelope: ResponseEnvelope) -> (r: Result<String, DispatchError>)
        requires
            old(self).wf(),
        ensures
            final(self).wf(),
            final(self).last_request_ms == old(self).last_request_ms,
            final(self).request_count == old(self).request_count,
            final(self).backoff_secs == next_backoff(old(self).backoff_secs, rate_limited_spec(status, body@)),
            rate_limited_spec(status, body@) ==> r == Err::<String, DispatchError>(DispatchError::RateLimited(final(self).backoff_secs)),
            !rate_limited_spec(status, body@) ==> match envelope.error_message {
                Some(m) => r matches Err(DispatchError::Api(e)) && e@ == m@,
                None => match envelope.first_text {
                    Some(t) => r matches Ok(x) && x@ == t@,
                    None => r matches Ok(x) && x@ == body@,
                },
            },
    {
        if is_rate_limited(status, body) {
            let b = self.backoff_secs;
            self.backoff_secs = if 2 * b < INITIAL_BACKOFF_SECS {
                INITIAL_BACKOFF_SECS
            } else if 2 * b > MAX_BACKOFF_SECS {
                MAX_BACKOFF_SECS
            } else {
                2 * b
            };
            return Err(DispatchError::RateLimited(self.backoff_secs));
        }
        self.backoff_secs = 0;
        match envelope.error_message {
            Some(m) => Err(DispatchError::Api(m)),
            None => match envelope.first_text {
                Some(t) => Ok(t),
                None => Ok(String::from_str(body)),
            },
        }
    }
}

/// A request that starts no earlier than `now` plus the wait the dispatcher
/// asked for comes at least the minimum interval after the previous one.
pub proof fn lemma_requests_spaced(d: Dispatcher, now: u64, start: u64)
    requires
        d.wf(),
        d.last_request_ms matches Some(l) && l <= now,
        start >= now + interval_wait(d.last_request_ms, now) + d.backoff_secs * 1000,
    ensures
        start - d.last_request_ms->0 >= MIN_REQUEST_INTERVAL_MS,
{
}

/// Little-endian bytes of a 16-bit value.
pub open spec fn le16(v: int) -> Seq<u8> {
    seq![(v % 256) as u8, ((v / 256) % 256) as u8]
}

/// Little-endian bytes of a 32-bit value.
pub open spec fn le32(v: int) -> Seq<u8> {
    seq![(v % 256) as u8, ((v / 256) % 256) as u8, ((v / 65536) % 256) as u8, ((v / 16777216) % 256) as u8]
}

/// The two bytes of a signed 16-bit sample, two's complement, little-endian.
pub open spec fn pcm_bytes(x: i16) -> Seq<u8> {
    le16(if x < 0 { x + 65536 } else { x as int })
}

/// The PCM data bytes of a sample sequence.
pub open spec fn pcm_data(s: Seq<i16>) -> Seq<u8>
    decreases s.len(),
{
    if s.len() == 0 {
        Seq::empty()
    } else {
        pcm_data(s.drop_last()) + pcm_bytes(s.last())
    }
}

/// The 44-byte header of a mono 16 kHz 16-bit PCM WAV file of `n` samples.
pub open spec fn wav_header(n: nat) -> Seq<u8> {
    seq![82u8, 73u8, 70u8, 70u8] + le32(36 + 2 * n as int) + seq![87u8, 65u8, 86u8, 69u8]
        + seq![102u8, 109u8, 116u8, 32u8] + le32(16) + le16(1) + le16(1) + le32(16000)
        + le32(32000) + le16(2) + le16(16) + seq![100u8, 97u8, 116u8, 97u8] + le32(2 * n as int)
}

/// The WAV file of a sample sequence.
pub open spec fn wav_bytes(s: Seq<i16>) -> Seq<u8> {
    wav_header(s.len()) + pcm_data(s)
}

fn push_le16(out: &mut Vec<u8>, v: u16)
    ensures
        final(out)@ == old(out)@ + le16(v as int),
{
    out.push((v % 256) as u8);
    out.push(((v / 256) % 256) as u8);
    assert(final(out)@ =~= old(out)@ + le16(v as int));
}

fn push_le32(out: &mut Vec<u8>, v: u32)
    ensures
        final(out)@ == old(out)@ + le32(v as int),
{
    out.push((v % 256) as u8);
    out.push(((v / 256) % 256) as u8);
    out.push(((v / 65536) % 256) as u8);
    out.push(((v / 16777216) % 256) as u8);
    assert(final(out)@ =~= old(out)@ + le32(v as int));
}

fn push_tag(out: &mut Vec<u8>, a: u8, b: u8, c: u8, d: u8)
    ensures
        final(out)@ == old(out)@ + seq![a, b, c, d],
{
    out.push(a);
    out.push(b);
    out.push(c);
    out.push(d);
    assert(final(out)@ =~= old(out)@ + seq![a, b, c, d]);
}

/// Frames samples as a mono, 16 kHz, 16-bit PCM WAV file.
pub fn to_wav(samples: &[i16]) -> (r: Vec<u8>)
    requires
        2 * samples@.len() + 36 <= u32::MAX,
    ensures
        r@ == wav_bytes(samples@),
{
    let n = samples.len();
    let data_size = (2 * n) as u32;
    let mut wav: Vec<u8> = Vec::new();
    push_tag(&mut wav, 82, 73, 70, 70);
    push_le32(&mut wav, 36 + data_size);
    push_tag(&mut wav, 87, 65, 86, 69);
    push_tag(&mut wav, 102, 109, 116, 32);
    push_le32(&mut wav, 16);
    push_le16(&mut wav, 1);
    push_le16(&mut wav, 1);
    push_le32(&mut wav, WAV_SAMPLE_RATE);
    push_le32(&mut wav, 32000);
    push_le16(&mut wav, 2);
    push_le16(&mut wav, 16);
    push_tag(&mut wav, 100, 97, 116, 97);
    push_le32(&mut wav, data_size);
    let ghost header = wav@;
    assert(header =~= wav_header(n as nat));
    let mut i: usize = 0;
    while i < n
        invariant
            n == samples@.len(),
            i <= n,
            header == wav_header(n as nat),
            wav@ == header + pcm_data(samples@.subrange(0, i as int)),
        decreases n - i,
    {
        let x = samples[i];
        let u: u16 = if x < 0 { (x as i32 + 65536) as u16 } else { x as u16 };
        assert(samples@.subrange(0, i + 1).drop_last() == samples@.subrange(0, i as int));
        push_le16(&mut wav, u);
        assert(wav@ =~= header + pcm_data(samples@.subrange(0, i + 1)));
        i += 1;
    }
    assert(samples@.subrange(0, n as int) == samples@);
    wav
}

/// Length of the padded base64 encoding of `n` bytes.
pub open spec fn base64_len(n: nat) -> nat {
    if n % 3 == 0 {
        (n / 3) * 4
    } else {
        (n / 3) * 4 + 4
    }
}

/// The padded, standard-alphabet base64 encoding of a byte sequence.
pub uninterp spec fn base64_of(b: Seq<u8>) -> Seq<char>;

/// Relies on `base64::engine::general_purpose::STANDARD.encode`: the padded
/// standard-alphabet encoding, four characters per started group of three
/// bytes. It panics only when that length overflows `usize`.
#[verifier::external_body]
fn base64_encode(b: &Vec<u8>) -> (r: String)
    requires
        (b@.len() / 3) * 4 + 4 <= usize::MAX,
    ensures
        r@ == base64_of(b@),
        r@.len() == base64_len(b@.len()),
{
    base64::engine::general_purpose::STANDARD.encode(b)
}

/// The inline audio payload of an utterance: its WAV file, base64-encoded.
pub fn encode_utterance(samples: &[i16]) -> (r: String)
    requires
        2 * samples@.len() + 36 <= u32::MAX,
        ((44 + 2 * samples@.len()) / 3) * 4 + 4 <= usize::MAX,
    ensures
        r@ == base64_of(wav_bytes(samples@)),
        r@.len() == base64_len((44 + 2 * samples@.len()) as nat),
{
    let wav = to_wav(samples);
    proof {
        lemma_wav_len(samples@);
    }
    base64_encode(&wav)
}

proof fn lemma_wav_len(s: Seq<i16>)
    ensures
        wav_bytes(s).len() == 44 + 2 * s.len(),
{
    lemma_pcm_data_len(s);
    assert(wav_header(s.len()).len() == 44);
}

proof fn lemma_pcm_data_len(s: Seq<i16>)
    ensures
        pcm_data(s).len() == 2 * s.len(),
    decreases s.len(),
{
    if s.len() > 0 {
        lemma_pcm_data_len(s.drop_last());
    }
}

/// What a connection test's HTTP status says.
#[derive(Clone, Copy, PartialEq, Eq, Debug, Structural)]
pub enum ConnectionVerdict {
    Connected,
    RateLimited,
    QuotaExhausted,
    HttpError,
}

/// Reads a connection test's HTTP status: 429 is rate limiting, 403 an
/// exhausted quota, any other status outside 200..=299 an HTTP error.
pub fn connection_verdict(status: u16) -> (r: ConnectionVerdict)
    ensures
        r == if status == 429 {
            ConnectionVerdict::RateLimited
        } else if status == 403 {
            ConnectionVerdict::QuotaExhausted
        } else if 200 <= status <= 299 {
            ConnectionVerdict::Connected
        } else {
            ConnectionVerdict::HttpError
        },
{
    if status == 429 {
        ConnectionVerdict::RateLimited
    } else if status == 403 {
        ConnectionVerdict::QuotaExhausted
    } else if 200 <= status && status <= 299 {
        ConnectionVerdict::Connected
    } else {
        ConnectionVerdict::HttpError
    }
}

} // verus!
