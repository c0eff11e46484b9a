//! Normalizing what a decoder's probe reports into a [`VideoMeta`].

use vstd::prelude::*;
use vstd::string::*;
use vstd::utf8::*;
use crate::meta::{Seconds, VideoMeta, VideoMetaView};
use crate::text::{
    decimal_value, lemma_ascii_byte, lemma_not_ascii_not_decimal, opt_text, parse_range,
    parse_unsigned, str_eq,
};

verus! {

/// One stream of the source, as the probe reports it.
#[derive(Debug, Clone)]
pub struct ProbeStream {
    /// The kind of stream: `video`, `audio` or another.
    pub codec_type: Option<String>,
    pub codec_name: Option<String>,
    pub width: Option<u32>,
    pub height: Option<u32>,
    /// The average frame rate, written `numerator/denominator`.
    pub avg_frame_rate: Option<String>,
    /// The declared frame rate, written `numerator/denominator`.
    pub r_frame_rate: Option<String>,
    /// The number of frames, in decimal.
    pub nb_frames: Option<String>,
    /// The stream's duration, where the probe gave one that reads as a number.
    pub duration: Option<Seconds>,
}

/// What the probe reports of the container.
#[derive(Debug, Clone)]
pub struct ProbeFormat {
    /// The container's duration, where the probe gave one that reads as a number.
    pub duration: Option<Seconds>,
}

/// Everything the probe reports.
#[derive(Debug, Clone)]
pub struct ProbeResult {
    pub streams: Vec<ProbeStream>,
    pub format: Option<ProbeFormat>,
}

/// Why a probe could not be normalized.
#[derive(Debug, Clone, Copy, PartialEq, Eq)]
pub enum ProbeError {
    /// No stream is of kind `video`.
    NoVideoStream,
    /// The video stream lacks its width or its height.
    MissingDimensions,
    /// The width or the height of the video stream is zero.
    InvalidDimensions { width: u32, height: u32 },
}

/// The mathematical value of a [`ProbeStream`].
pub ghost struct ProbeStreamView {
    pub codec_type: Option<Seq<char>>,
    pub codec_name: Option<Seq<char>>,
    pub width: Option<u32>,
    pub height: Option<u32>,
    pub avg_frame_rate: Option<Seq<char>>,
    pub r_frame_rate: Option<Seq<char>>,
    pub nb_frames: Option<Seq<char>>,
    pub duration: Option<Seconds>,
}

/// The mathematical value of a [`ProbeResult`].
pub ghost struct ProbeResultView {
    pub streams: Seq<ProbeStreamView>,
    /// The container's duration.
    pub format_duration: Option<Seconds>,
}

impl View for ProbeStream {
    type V = ProbeStreamView;

    open spec fn view(&self) -> ProbeStreamView {
        ProbeStreamView {
            codec_type: opt_text(self.codec_type),
            codec_name: opt_text(self.codec_name),
            width: self.width,
            height: self.height,
            avg_frame_rate: opt_text(self.avg_frame_rate),
            r_frame_rate: opt_text(self.r_frame_rate),
            nb_frames: opt_text(self.nb_frames),
            duration: self.duration,
        }
    }
}

impl View for ProbeResult {
    type V = ProbeResultView;

    open spec fn view(&self) -> ProbeResultView {
        ProbeResultView {
            streams: Seq::new(self.streams@.len(), |i: int| self.streams@[i]@),
            format_duration: match self.format {
                Some(f) => f.duration,
                None => None,
            },
        }
    }
}

/// The position of the first `c` in `s`, or the length of `s` if it holds none.
pub open spec fn first_index_of(s: Seq<char>, c: char) -> int
    decreases s.len(),
{
    if s.len() == 0 || s[0] == c {
        0
    } else {
        1 + first_index_of(s.drop_first(), c)
    }
}

/// The frame rate that `s` spells: two unsigned decimal integers that fit in
/// 32 bits, neither of them zero, on either side of the first slash.
pub open spec fn fps_ratio(s: Seq<char>) -> Option<(u32, u32)> {
    let k = first_index_of(s, '/');
    if k >= s.len() {
        None
    } else {
        match (
            decimal_value(s.subrange(0, k), u32::MAX as nat),
            decimal_value(s.subrange(k + 1, s.len() as int), u32::MAX as nat),
        ) {
            (Some(num), Some(den)) => if num == 0 || den == 0 {
                None
            } else {
                Some((num as u32, den as u32))
            },
            _ => None,
        }
    }
}

/// The number that `s` spells, if it is an unsigned decimal integer that fits in 64 bits.
pub open spec fn count_value(s: Seq<char>) -> Option<u64> {
    match decimal_value(s, u64::MAX as nat) {
        Some(n) => Some(n as u64),
        None => None,
    }
}

/// The position `k` is where the first `c` of `s` stands.
pub proof fn lemma_first_index_of(s: Seq<char>, c: char, k: int)
    requires
        0 <= k <= s.len(),
        forall|j: int| 0 <= j < k ==> #[trigger] s[j] != c,
        k < s.len() ==> s[k] == c,
    ensures
        first_index_of(s, c) == k,
    decreases k,
{
    if k > 0 {
        let rest = s.drop_first();
        assert forall|j: int| 0 <= j < k - 1 implies #[trigger] rest[j] != c by {
            assert(rest[j] == s[j + 1]);
        }
        lemma_first_index_of(rest, c, k - 1);
    }
}

/// The first `c` of `s` stands inside `s`, or `s` holds none.
pub proof fn lemma_first_index_of_bounds(s: Seq<char>, c: char)
    ensures
        0 <= first_index_of(s, c) <= s.len(),
        first_index_of(s, c) < s.len() ==> s[first_index_of(s, c)] == c,
    decreases s.len(),
{
    if !(s.len() == 0 || s[0] == c) {
        lemma_first_index_of_bounds(s.drop_first(), c);
    }
}

/// A string with a character outside ASCII spells no frame rate.
proof fn lemma_not_ascii_no_ratio(s: Seq<char>)
    requires
        !is_ascii_chars(s),
    ensures
        fps_ratio(s) is None,
{
    let k = first_index_of(s, '/');
    lemma_first_index_of_bounds(s, '/');
    if k < s.len() {
        let i = choose|i: int| 0 <= i < s.len() && !('\0' <= #[trigger] s[i] <= '\u{7f}');
        let left = s.subrange(0, k);
        let right = s.subrange(k + 1, s.len() as int);
        if i < k {
            assert(left[i] == s[i]);
            lemma_not_ascii_not_decimal(left, u32::MAX as nat);
        } else {
            assert(right[i - k - 1] == s[i]);
            lemma_not_ascii_not_decimal(right, u32::MAX as nat);
        }
    }
}

/// Reads a frame rate written as `numerator/denominator`.
pub fn parse_fps_ratio(s: &str) -> (r: Option<(u32, u32)>)
    ensures
        r == fps_ratio(s@),
{
    if !s.is_ascii() {
        proof {
            lemma_not_ascii_no_ratio(s@);
        }
        return None;
    }
    let bytes = s.as_bytes();
    proof {
        is_ascii_chars_encode_utf8(s@);
    }
    let len: usize = bytes.len();
    let mut k: usize = 0;
    while k < len && bytes[k] != 47
        invariant
            k <= len == bytes@.len() == s@.len(),
            is_ascii_chars(s@),
            forall|i: int| 0 <= i < s@.len() ==> s@[i] as u8 == #[trigger] bytes@[i],
            forall|j: int| 0 <= j < k ==> #[trigger] s@[j] != '/',
        decreases len - k,
    {
        proof {
            lemma_ascii_byte(s@[k as int], bytes@[k as int]);
        }
        k = k + 1;
    }
    proof {
        if k < len {
            lemma_ascii_byte(s@[k as int], bytes@[k as int]);
        }
        lemma_first_index_of(s@, '/', k as int);
    }
    if k >= len {
        return None;
    }
    let ghost left = s@.subrange(0, k as int);
    let ghost right = s@.subrange(k + 1, len as int);
    let num = parse_range(bytes, 0, k, u32::MAX as u64, Ghost(left));
    let den = parse_range(bytes, k + 1, len, u32::MAX as u64, Ghost(right));
    match (num, den) {
        (Some(n), Some(d)) => {
            if n == 0 || d == 0 {
                None
            } else {
                Some((n as u32, d as u32))
            }
        },
        _ => None,
    }
}

/// Reads an unsigned decimal integer.
pub fn parse_u64(s: &str) -> (r: Option<u64>)
    ensures
        r == count_value(s@),
{
    parse_unsigned(s, u64::MAX)
}

/// The first of `streams` whose kind is `kind`.
pub open spec fn first_of_kind(streams: Seq<ProbeStreamView>, kind: Seq<char>) -> Option<
    ProbeStreamView,
>
    decreases streams.len(),
{
    if streams.len() == 0 {
        None
    } else if streams[0].codec_type == Some(kind) {
        Some(streams[0])
    } else {
        first_of_kind(streams.drop_first(), kind)
    }
}

/// The frame rate that an optional field spells.
pub open spec fn rate_of(field: Option<Seq<char>>) -> Option<(u32, u32)> {
    match field {
        Some(s) => fps_ratio(s),
        None => None,
    }
}

/// The frame rate of a video stream: its average rate where that is usable,
/// else its declared rate where that is usable, else 30/1.
pub open spec fn resolved_fps(v: ProbeStreamView) -> (u32, u32) {
    match rate_of(v.avg_frame_rate) {
        Some(r) => r,
        None => match rate_of(v.r_frame_rate) {
            Some(r) => r,
            None => (30u32, 1u32),
        },
    }
}

/// The duration of a video stream: its own where it has one, else the container's.
pub open spec fn resolved_duration(v: ProbeStreamView, format_duration: Option<Seconds>) -> Option<
    Seconds,
> {
    match v.duration {
        Some(d) => Some(d),
        None => format_duration,
    }
}

/// The frame count that a video stream claims, where it reads as a number.
pub open spec fn frame_hint(v: ProbeStreamView) -> Option<u64> {
    match v.nb_frames {
        Some(s) => count_value(s),
        None => None,
    }
}

/// The codec name of a video stream, `unknown` where it has none.
pub open spec fn video_codec_name(v: ProbeStreamView) -> Seq<char> {
    match v.codec_name {
        Some(n) => n,
        None => "unknown"@,
    }
}

/// The codec name of the first audio stream, where there is one that has a name.
pub open spec fn audio_codec_name(streams: Seq<ProbeStreamView>) -> Option<Seq<char>> {
    match first_of_kind(streams, "audio"@) {
        Some(a) => a.codec_name,
        None => None,
    }
}

/// What normalizing a probe comes to.
pub open spec fn normalized(probe: ProbeResultView) -> Result<VideoMetaView, ProbeError> {
    match first_of_kind(probe.streams, "video"@) {
        None => Err(ProbeError::NoVideoStream),
        Some(v) => match (v.width, v.height) {
            (Some(w), Some(h)) => if w == 0 || h == 0 {
                Err(ProbeError::InvalidDimensions { width: w, height: h })
            } else {
                Ok(
                    VideoMetaView {
                        width: w,
                        height: h,
                        fps_num: resolved_fps(v).0,
                        fps_den: resolved_fps(v).1,
                        duration_seconds: resolved_duration(v, probe.format_duration),
                        frame_count_hint: frame_hint(v),
                        video_codec: video_codec_name(v),
                        audio_codec: audio_codec_name(probe.streams),
                    },
                )
            },
            _ => Err(ProbeError::MissingDimensions),
        },
    }
}

/// A search for the first stream of a kind may skip a prefix that holds none.
pub proof fn lemma_first_of_kind_skip(streams: Seq<ProbeStreamView>, kind: Seq<char>, n: int)
    requires
        0 <= n <= streams.len(),
        forall|k: int| 0 <= k < n ==> (#[trigger] streams[k]).codec_type != Some(kind),
    ensures
        first_of_kind(streams, kind) == first_of_kind(
            streams.subrange(n, streams.len() as int),
            kind,
        ),
    decreases n,
{
    if n == 0 {
        assert(streams.subrange(0, streams.len() as int) =~= streams);
    } else {
        let rest = streams.drop_first();
        assert forall|k: int| 0 <= k < n - 1 implies (#[trigger] rest[k]).codec_type != Some(
            kind,
        ) by {
            assert(rest[k] == streams[k + 1]);
        }
        lemma_first_of_kind_skip(rest, kind, n - 1);
        assert(rest.subrange(n - 1, rest.len() as int) =~= streams.subrange(
            n,
            streams.len() as int,
        ));
    }
}

/// Finds the first stream of the given kind.
pub fn find_stream<'a>(probe: &'a ProbeResult, kind: &str) -> (found: Option<&'a ProbeStream>)
    ensures
        match found {
            Some(st) => first_of_kind(probe@.streams, kind@) == Some(st@),
            None => first_of_kind(probe@.streams, kind@) is None,
        },
{
    let ghost all = probe@.streams;
    let mut i: usize = 0;
    while i < probe.streams.len()
        invariant
            i <= probe.streams.len(),
            all == probe@.streams,
            forall|k: int| 0 <= k < i ==> (#[trigger] all[k]).codec_type != Some(kind@),
        decreases probe.streams.len() - i,
    {
        let st = &probe.streams[i];
        let hit = match &st.codec_type {
            Some(t) => str_eq(t.as_str(), kind),
            None => false,
        };
        assert(all[i as int] == st@);
        if hit {
            proof {
                lemma_first_of_kind_skip(all, kind@, i as int);
                assert(all.subrange(i as int, all.len() as int)[0] == all[i as int]);
            }
            return Some(st);
        }
        i = i + 1;
    }
    proof {
        lemma_first_of_kind_skip(all, kind@, i as int);
    }
    None
}

fn rate_field(field: &Option<String>) -> (r: Option<(u32, u32)>)
    ensures
        r == rate_of(opt_text(*field)),
{
    match field {
        Some(s) => parse_fps_ratio(s.as_str()),
        None => None,
    }
}

fn clone_text(field: &Option<String>) -> (r: Option<String>)
    ensures
        opt_text(r) == opt_text(*field),
{
    match field {
        Some(s) => Some(s.clone()),
        None => None,
    }
}

/// A frame rate that a string spells has no zero part.
pub proof fn lemma_fps_ratio_positive(s: Seq<char>)
    ensures
        fps_ratio(s) matches Some(r) ==> r.0 > 0 && r.1 > 0,
{
}

/// Whatever a probe normalizes to has positive dimensions and a positive frame rate.
pub proof fn lemma_normalized_wf(probe: ProbeResultView)
    ensures
        normalized(probe) matches Ok(m) ==> m.wf(),
{
    match first_of_kind(probe.streams, "video"@) {
        Some(v) => {
            match v.avg_frame_rate {
                Some(s) => lemma_fps_ratio_positive(s),
                None => {},
            }
            match v.r_frame_rate {
                Some(s) => lemma_fps_ratio_positive(s),
                None => {},
            }
        },
        None => {},
    }
}

/// Turns what the probe reports into the canonical description of the video.
pub fn probe_video_meta(probe: &ProbeResult) -> (r: Result<VideoMeta, ProbeError>)
    ensures
        match r {
            Ok(m) => normalized(probe@) == Ok::<VideoMetaView, ProbeError>(m@),
            Err(e) => normalized(probe@) == Err::<VideoMetaView, ProbeError>(e),
        },
        r matches Ok(m) ==> m@.wf(),
{
    proof {
        lemma_normalized_wf(probe@);
    }
    let video_stream = match find_stream(probe, "video") {
        Some(st) => st,
        None => {
            return Err(ProbeError::NoVideoStream);
        },
    };
    let (width, height) = match (video_stream.width, video_stream.height) {
        (Some(w), Some(h)) => (w, h),
        _ => {
            return Err(ProbeError::MissingDimensions);
        },
    };
    if width == 0 || height == 0 {
        return Err(ProbeError::InvalidDimensions { width, height });
    }
    let fps = match rate_field(&video_stream.avg_frame_rate) {
        Some(r) => r,
        None => match rate_field(&video_stream.r_frame_rate) {
            Some(r) => r,
            None => (30, 1),
        },
    };
    let duration_seconds = match video_stream.duration {
        Some(d) => Some(d),
        None => match &probe.format {
            Some(f) => f.duration,
            None => None,
        },
    };
    let frame_count_hint = match &video_stream.nb_frames {
        Some(s) => parse_u64(s.as_str()),
        None => None,
    };
    let video_codec = match &video_stream.codec_name {
        Some(n) => n.clone(),
        None => String::from_str("unknown"),
    };
    let audio_codec = match find_stream(probe, "audio") {
        Some(a) => clone_text(&a.codec_name),
        None => None,
    };
    Ok(
        VideoMeta {
            width,
            height,
            fps_num: fps.0,
            fps_den: fps.1,
            duration_seconds,
            frame_count_hint,
            video_codec,
            audio_codec,
        },
    )
}

} // verus!
