//! The canonical description of a source video.

use vstd::prelude::*;
use crate::text::opt_text;

verus! {

/// A duration in seconds: a binary64 number, held as its bit pattern.
///
/// The crate carries such a value from the probe to the sidecar and never
/// computes with it.
#[derive(Debug, Clone, Copy, PartialEq, Eq)]
pub struct Seconds {
    pub bits: u64,
}

/// What is known of the source video once its probe has been normalized.
#[derive(Debug, Clone)]
pub struct VideoMeta {
    /// Width in pixels.
    pub width: u32,
    /// Height in pixels.
    pub height: u32,
    /// Numerator of the frame rate.
    pub fps_num: u32,
    /// Denominator of the frame rate.
    pub fps_den: u32,
    pub duration_seconds: Option<Seconds>,
    /// How many frames the source claims to hold.
    pub frame_count_hint: Option<u64>,
    /// Name of the source's video codec.
    pub video_codec: String,
    /// Name of the source's audio codec, where it has an audio stream that names one.
    pub audio_codec: Option<String>,
}

/// The mathematical value of a [`VideoMeta`].
pub ghost struct VideoMetaView {
    pub width: u32,
    pub height: u32,
    pub fps_num: u32,
    pub fps_den: u32,
    pub duration_seconds: Option<Seconds>,
    pub frame_count_hint: Option<u64>,
    pub video_codec: Seq<char>,
    pub audio_codec: Option<Seq<char>>,
}

impl View for VideoMeta {
    type V = VideoMetaView;

    open spec fn view(&self) -> VideoMetaView {
        VideoMetaView {
            width: self.width,
            height: self.height,
            fps_num: self.fps_num,
            fps_den: self.fps_den,
            duration_seconds: self.duration_seconds,
            frame_count_hint: self.frame_count_hint,
            video_codec: self.video_codec@,
            audio_codec: opt_text(self.audio_codec),
        }
    }
}

impl VideoMetaView {
    /// Dimensions and both parts of the frame rate are positive.
    pub open spec fn wf(self) -> bool {
        &&& self.width > 0
        &&& self.height > 0
        &&& self.fps_num > 0
        &&& self.fps_den > 0
    }
}

} // verus!
