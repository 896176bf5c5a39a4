//! Per-source capture processing: mono downmix, integer-factor decimation,
//! RMS level, silence suppression and micro-chunk slicing.

use vstd::prelude::*;

verus! {

/// Rate every source is brought down to, in samples per second.
pub const TARGET_SAMPLE_RATE: u32 = 16000;

/// Length of one micro-chunk, in samples at the target rate.
pub const MICRO_CHUNK_SAMPLES: usize = 160;

/// RMS level (in PCM units) below which a frame counts as silent.
pub const SILENCE_THRESHOLD: u32 = 328;

/// Silent frames tolerated in a row before further silent frames are dropped.
pub const SILENCE_SKIP_CHUNKS: usize = 30;

/// Which sources a capture session opens.
#[derive(Clone, Copy, PartialEq, Eq, Debug, Structural)]
pub enum CaptureMode {
    MicOnly,
    SystemOnly,
    Both,
}

/// The mode a name selects: `"mic"`, `"system"` or `"both"`.
pub open spec fn mode_of_name(name: Seq<char>) -> Option<CaptureMode> {
    if name == "mic"@ {
        Some(CaptureMode::MicOnly)
    } else if name == "system"@ {
        Some(CaptureMode::SystemOnly)
    } else if name == "both"@ {
        Some(CaptureMode::Both)
    } else {
        None
    }
}

impl CaptureMode {
    /// Reads a mode from its name; `None` for any other name.
    pub fn parse(name: &str) -> (r: Option<CaptureMode>)
        ensures
            r == mode_of_name(name@),
    {
        if str_eq(name, "mic") {
            Some(CaptureMode::MicOnly)
        } else if str_eq(name, "system") {
            Some(CaptureMode::SystemOnly)
        } else if str_eq(name, "both") {
            Some(CaptureMode::Both)
        } else {
            None
        }
    }

    /// Whether the microphone is opened in this mode.
    pub fn uses_mic(&self) -> (r: bool)
        ensures
            r == (*self != CaptureMode::SystemOnly),
    {
        !matches!(self, CaptureMode::SystemOnly)
    }

    /// Whether system (loopback) audio is opened in this mode.
    pub fn uses_system(&self) -> (r: bool)
        ensures
            r == (*self != CaptureMode::MicOnly),
    {
        !matches!(self, CaptureMode::MicOnly)
    }
}

/// Character-wise equality of two strings.
pub fn str_eq(a: &str, b: &str) -> (r: bool)
    ensures
        r == (a@ == b@),
{
    let n = a.unicode_len();
    if n != b.unicode_len() {
        return false;
    }
    let mut i: usize = 0;
    while i < n
        invariant
            n == a@.len(),
            n == b@.len(),
            i <= n,
            a@.subrange(0, i as int) == b@.subrange(0, i as int),
        decreases n - i,
    {
        if a.get_char(i) != b.get_char(i) {
            assert(a@[i as int] != b@[i as int]);
            return false;
        }
        assert(a@.subrange(0, i + 1) == a@.subrange(0, i as int).push(a@[i as int]));
        assert(b@.subrange(0, i + 1) == b@.subrange(0, i as int).push(b@[i as int]));
        i += 1;
    }
    assert(a@ == a@.subrange(0, n as int));
    assert(b@ == b@.subrange(0, n as int));
    true
}

/// Sum of the samples.
pub open spec fn sum_of(s: Seq<i16>) -> int
    decreases s.len(),
{
    if s.len() == 0 {
        0
    } else {
        sum_of(s.drop_last()) + s.last() as int
    }
}

/// Sum of the squared samples.
pub open spec fn sum_sq(s: Seq<i16>) -> int
    decreases s.len(),
{
    if s.len() == 0 {
        0
    } else {
        sum_sq(s.drop_last()) + (s.last() as int) * (s.last() as int)
    }
}

/// Mean of the squared samples, rounded down; zero for no samples.
pub open spec fn mean_square(s: Seq<i16>) -> int {
    if s.len() == 0 {
        0
    } else {
        sum_sq(s) / (s.len() as int)
    }
}

/// `r` is the integer square root of `x`.
pub open spec fn is_isqrt(r: int, x: int) -> bool {
    0 <= r && r * r <= x && x < (r + 1) * (r + 1)
}

/// Integer square root of a value at most 2^30.
fn isqrt(x: u64) -> (r: u32)
    requires
        x <= 1073741824,
    ensures
        is_isqrt(r as int, x as int),
        r <= 32768,
{
    let mut lo: u64 = 0;
    let mut hi: u64 = 32769;
    assert(32769 * 32769 > 1073741824) by (nonlinear_arith);
    while hi - lo > 1
        invariant
            lo < hi <= 32769,
            lo * lo <= x,
            x < hi * hi,
        decreases hi - lo,
    {
        let mid: u64 = lo + (hi - lo) / 2;
        assert(mid * mid <= 32769 * 32769) by (nonlinear_arith)
            requires mid <= 32769;
        if mid * mid <= x {
            lo = mid;
        } else {
            hi = mid;
        }
    }
    assert(hi == lo + 1);
    lo as u32
}

/// The RMS level of a sample sequence: the integer square root of its mean square.
pub fn calculate_rms(samples: &[i16]) -> (r: u32)
    ensures
        is_isqrt(r as int, mean_square(samples@)),
{
    let n = samples.len();
    if n == 0 {
        assert(is_isqrt(0, 0));
        return 0;
    }
    let mut acc: u128 = 0;
    let mut i: usize = 0;
    while i < n
        invariant
            n == samples@.len(),
            i <= n,
            acc == sum_sq(samples@.subrange(0, i as int)),
            acc <= i * 1073741824,
        decreases n - i,
    {
        let v = samples[i] as i64;
        proof {
            let t = samples@.subrange(0, i + 1);
            assert(t.drop_last() == samples@.subrange(0, i as int));
            assert(0 <= v * v <= 1073741824) by (nonlinear_arith)
                requires -32768 <= v <= 32767;
        }
        let sq = (v * v) as u128;
        acc = acc + sq;
        i += 1;
    }
    assert(samples@.subrange(0, n as int) == samples@);
    let ms = acc / (n as u128);
    assert(ms <= 1073741824) by (nonlinear_arith)
        requires ms == acc / (n as u128), acc <= n * 1073741824, n > 0;
    isqrt(ms as u64)
}

/// Division that rounds toward zero, as integer division on machine integers does.
pub open spec fn trunc_div(a: int, b: int) -> int {
    if a >= 0 {
        a / b
    } else {
        -((-a) / b)
    }
}

/// Number of output frames for `n` interleaved samples of `c` channels.
pub open spec fn frame_count(n: int, c: int) -> int {
    (n + c - 1) / c
}

/// Mono sample `j`: the average of frame `j`'s channels (a short last frame
/// is still divided by the full channel count).
pub open spec fn mono_at(data: Seq<i16>, c: int, j: int) -> int {
    let end = if (j + 1) * c <= data.len() { (j + 1) * c } else { data.len() as int };
    trunc_div(sum_of(data.subrange(j * c, end)), c)
}

/// The mono downmix of `data` with `c` interleaved channels.
pub open spec fn mono_of(data: Seq<i16>, c: int) -> Seq<i16> {
    Seq::new(frame_count(data.len() as int, c) as nat, |j: int| mono_at(data, c, j) as i16)
}

/// `out` is the mono downmix of `data` with `c` interleaved channels.
pub open spec fn is_mono_of(out: Seq<i16>, data: Seq<i16>, c: int) -> bool {
    &&& out.len() == frame_count(data.len() as int, c)
    &&& forall|j: int| 0 <= j < out.len() ==> out[j] as int == mono_at(data, c, j)
}

proof fn lemma_sum_bounds(s: Seq<i16>)
    ensures
        -32768 * s.len() <= sum_of(s) <= 32767 * s.len(),
    decreases s.len(),
{
    if s.len() > 0 {
        lemma_sum_bounds(s.drop_last());
    }
}

/// Downmixes interleaved frames to mono by averaging each frame's channels.
pub fn to_mono(data: &[i16], channels: u16) -> (r: Vec<i16>)
    requires
        channels > 0,
    ensures
        is_mono_of(r@, data@, channels as int),
{
    let n = data.len();
    let c = channels as usize;
    let q: usize = n / c;
    if n % c != 0 {
        assert(n > 0 && c >= 2) by (nonlinear_arith) requires n as int % c as int != 0, c > 0;
        assert(q < n) by (nonlinear_arith) requires q == n as int / c as int, c >= 2, n > 0;
    }
    let frames: usize = if n % c != 0 { q + 1 } else { q };
    let ghost cc = c as int;
    assert(frames as int == frame_count(n as int, cc)) by (nonlinear_arith)
        requires
            cc > 0,
            frames as int == n as int / cc + if n as int % cc != 0 { 1int } else { 0int };
    let mut out: Vec<i16> = Vec::new();
    let mut j: usize = 0;
    while j < frames
        invariant
            n == data@.len(),
            c == channels as usize,
            c > 0,
            cc == c,
            frames as int == frame_count(n as int, cc),
            j <= frames,
            out@.len() == j,
            forall|i: int| 0 <= i < j ==> out@[i] as int == mono_at(data@, cc, i),
        decreases frames - j,
    {
        assert(j * c < n) by (nonlinear_arith)
            requires j < frames, frames as int == (n + cc - 1) / cc, cc > 0, cc == c;
        let start: usize = j * c;
        let end: usize = if n - start >= c { start + c } else { n };
        assert((j + 1) * cc == start + cc) by (nonlinear_arith)
            requires start as int == j * cc;
        let mut acc: i64 = 0;
        let mut k: usize = start;
        while k < end
            invariant
                start <= k <= end <= n,
                n == data@.len(),
                end - start <= c,
                c <= 65535,
                acc == sum_of(data@.subrange(start as int, k as int)),
            decreases end - k,
        {
            proof {
                let t = data@.subrange(start as int, k + 1);
                assert(t.drop_last() == data@.subrange(start as int, k as int));
                lemma_sum_bounds(data@.subrange(start as int, k as int));
            }
            acc = acc + data[k] as i64;
            k += 1;
        }
        proof {
            lemma_sum_bounds(data@.subrange(start as int, end as int));
        }
        let avg: i64 = if acc >= 0 {
            ((acc as u64) / (c as u64)) as i64
        } else {
            -((((-acc) as u64) / (c as u64)) as i64)
        };
        assert(-32768 <= avg <= 32767) by (nonlinear_arith)
            requires
                -32768 * (end - start) <= acc <= 32767 * (end - start),
                end - start <= c, c > 0,
                avg == trunc_div(acc as int, c as int);
        out.push(avg as i16);
        j += 1;
    }
    out
}

/// The step used to bring `from_rate` down to `to_rate`: their ratio where
/// it is a whole number of at least one, else 1 (no resampling).
pub open spec fn decimation_factor(from_rate: u32, to_rate: u32) -> int {
    if to_rate > 0 && from_rate % to_rate == 0 && from_rate / to_rate >= 1 {
        (from_rate / to_rate) as int
    } else {
        1
    }
}

/// Every `k`-th sample, starting at the first, over `n / k` samples.
pub open spec fn decimated(s: Seq<i16>, k: int) -> Seq<i16>
    recommends
        k >= 1,
{
    Seq::new((s.len() as int / k) as nat, |i: int| s[i * k])
}

/// Decimates by an integer factor: for a source rate `k` times the target,
/// keeps the samples at indices `0, k, 2k, ...` (`n / k` of them). A
/// non-integer ratio passes the samples through unchanged.
pub fn decimate(samples: Vec<i16>, from_rate: u32, to_rate: u32) -> (r: Vec<i16>)
    ensures
        r@ == decimated(samples@, decimation_factor(from_rate, to_rate)),
{
    if to_rate == 0 || from_rate % to_rate != 0 || from_rate / to_rate == 0 || from_rate == to_rate {
        if to_rate > 0 && from_rate == to_rate {
            assert(from_rate / to_rate == 1) by (nonlinear_arith) requires from_rate == to_rate, to_rate > 0;
        }
        assert(decimation_factor(from_rate, to_rate) == 1);
        assert(decimated(samples@, 1) == samples@);
        return samples;
    }
    let k = (from_rate / to_rate) as usize;
    let n = samples.len();
    let count = n / k;
    let mut out: Vec<i16> = Vec::new();
    let mut i: usize = 0;
    while i < count
        invariant
            k >= 1,
            k == decimation_factor(from_rate, to_rate),
            n == samples@.len(),
            count == n / k,
            i <= count,
            out@ == decimated(samples@, k as int).subrange(0, i as int),
        decreases count - i,
    {
        assert(i * k < n) by (nonlinear_arith)
            requires i < count, count == n / k, k >= 1;
        out.push(samples[i * k]);
        assert(out@ == decimated(samples@, k as int).subrange(0, i + 1));
        i += 1;
    }
    assert(out@ == decimated(samples@, k as int));
    out
}

/// Micro-chunks cut from the front of `all`, each `MICRO_CHUNK_SAMPLES` long.
pub open spec fn chunks_of(all: Seq<i16>) -> Seq<Seq<i16>> {
    let m = MICRO_CHUNK_SAMPLES as int;
    Seq::new((all.len() as int / m) as nat, |i: int| all.subrange(i * m, i * m + m))
}

/// What stays buffered once the whole micro-chunks are cut off.
pub open spec fn remainder_of(all: Seq<i16>) -> Seq<i16> {
    let m = MICRO_CHUNK_SAMPLES as int;
    all.subrange((all.len() as int / m) * m, all.len() as int)
}

/// Per-source capture state: the accumulation buffer, the count of silent
/// frames in a row, and the last measured RMS level.
pub struct AudioSegmenter {
    pub buffer: Vec<i16>,
    pub silence_count: usize,
    pub current_volume: u32,
}

impl AudioSegmenter {
    /// The buffer never holds a whole micro-chunk between frames.
    pub open spec fn wf(&self) -> bool {
        self.buffer@.len() < MICRO_CHUNK_SAMPLES
    }

    /// An empty segmenter.
    pub fn new() -> (r: AudioSegmenter)
        ensures
            r.wf(),
            r.buffer@.len() == 0,
            r.silence_count == 0,
            r.current_volume == 0,
    {
        AudioSegmenter { buffer: Vec::new(), silence_count: 0, current_volume: 0 }
    }

    /// Handles one captured frame of `channels` interleaved channels at
    /// `sample_rate`: downmix, decimate, measure, gate on silence, buffer,
    /// and return the whole micro-chunks now ready, oldest first.
    ///
    /// A frame at or above the silence threshold resets the silence count;
    /// a silent one raises it, and once it exceeds `SILENCE_SKIP_CHUNKS`
    /// the frame's samples are dropped.
    pub fn process_frame(&mut self, data: &[i16], channels: u16, sample_rate: u32) -> (chunks: Vec<Vec<i16>>)
        requires
            old(self).wf(),
            channels > 0,
        ensures
            final(self).wf(),
            data@.len() == 0 ==> chunks@.len() == 0 && *final(self) == *old(self),
            data@.len() > 0 ==> ({
                let res = decimated(mono_of(data@, channels as int), decimation_factor(sample_rate, TARGET_SAMPLE_RATE));
                let silent = final(self).current_volume < SILENCE_THRESHOLD;
                let count = if silent {
                    if old(self).silence_count < usize::MAX { old(self).silence_count + 1 } else { old(self).silence_count as int }
                } else {
                    0
                };
                let all = old(self).buffer@ + res;
                &&& is_isqrt(final(self).current_volume as int, mean_square(res))
                &&& final(self).silence_count == count
                &&& if silent && count > SILENCE_SKIP_CHUNKS {
                    chunks@.len() == 0 && final(self).buffer@ == old(self).buffer@
                } else {
                    &&& chunks@.len() == chunks_of(all).len()
                    &&& forall|i: int| 0 <= i < chunks@.len() ==> (#[trigger] chunks@[i])@ == chunks_of(all)[i]
                    &&& final(self).buffer@ == remainder_of(all)
                }
            }),
    {
        let mut chunks: Vec<Vec<i16>> = Vec::new();
        if data.len() == 0 {
            return chunks;
        }
        let mono = to_mono(data, channels);
        assert(mono@ =~= mono_of(data@, channels as int));
        let res = decimate(mono, sample_rate, TARGET_SAMPLE_RATE);
        let level = calculate_rms(res.as_slice());
        assert(is_isqrt(level as int, mean_square(res@)));
        assert(res@ == decimated(mono_of(data@, channels as int), decimation_factor(sample_rate, TARGET_SAMPLE_RATE)));
        self.current_volume = level;
        if level < SILENCE_THRESHOLD {
            if self.silence_count < usize::MAX {
                self.silence_count = self.silence_count + 1;
            }
            if self.silence_count > SILENCE_SKIP_CHUNKS {
                assert(is_isqrt(self.current_volume as int, mean_square(res@)));
                return chunks;
            }
        } else {
            self.silence_count = 0;
        }
        let ghost all = self.buffer@ + res@;
        let ghost sc = self.silence_count;
        let mut i: usize = 0;
        while i < res.len()
            invariant
                i <= res@.len(),
                self.buffer@ == old(self).buffer@ + res@.subrange(0, i as int),
                self.current_volume == level,
                self.silence_count == sc,
            decreases res@.len() - i,
        {
            self.buffer.push(res[i]);
            assert(res@.subrange(0, i + 1) == res@.subrange(0, i as int).push(res@[i as int]));
            i += 1;
        }
        assert(res@.subrange(0, res@.len() as int) == res@);
        assert(self.buffer@ == all);
        let ghost m = MICRO_CHUNK_SAMPLES as int;
        let total = self.buffer.len();
        let whole = total / MICRO_CHUNK_SAMPLES;
        let mut c: usize = 0;
        while c < whole
            invariant
                self.buffer@ == all,
                self.current_volume == level,
                self.silence_count == sc,
                total == all.len(),
                whole == total / MICRO_CHUNK_SAMPLES,
                c <= whole,
                chunks@.len() == c,
                forall|q: int| 0 <= q < c ==> (#[trigger] chunks@[q])@ == chunks_of(all)[q],
            decreases whole - c,
        {
            assert(c * 160 + 160 <= total) by (nonlinear_arith)
                requires c < whole, whole == total / 160;
            let base = c * MICRO_CHUNK_SAMPLES;
            let mut chunk: Vec<i16> = Vec::new();
            let mut k: usize = 0;
            while k < MICRO_CHUNK_SAMPLES
                invariant
                    base + 160 <= total,
                    total == self.buffer@.len(),
                    k <= 160,
                    chunk@ == self.buffer@.subrange(base as int, base + k),
                decreases 160 - k,
            {
                chunk.push(self.buffer[base + k]);
                assert(self.buffer@.subrange(base as int, base + k + 1)
                    == self.buffer@.subrange(base as int, base + k).push(self.buffer@[base + k]));
                k += 1;
            }
            assert(chunk@ == chunks_of(all)[c as int]);
            chunks.push(chunk);
            assert(chunks@[c as int]@ == chunks_of(all)[c as int]);
            c += 1;
        }
        assert(whole * 160 <= total) by (nonlinear_arith)
            requires whole == total / 160;
        let cut = whole * MICRO_CHUNK_SAMPLES;
        let mut rest: Vec<i16> = Vec::new();
        let mut k: usize = cut;
        while k < total
            invariant
                cut <= k <= total,
                total == self.buffer@.len(),
                rest@ == self.buffer@.subrange(cut as int, k as int),
            decreases total - k,
        {
            rest.push(self.buffer[k]);
            assert(self.buffer@.subrange(cut as int, k + 1)
                == self.buffer@.subrange(cut as int, k as int).push(self.buffer@[k as int]));
            k += 1;
        }
        assert(total - cut < 160) by (nonlinear_arith)
            requires whole == total / 160, cut == whole * 160;
        self.buffer = rest;
        assert(chunks_of(all).len() == whole);
        assert(self.buffer@ == remainder_of(all));
        chunks
    }
}

} // verus!
