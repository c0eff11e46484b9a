//! The sidecar: a diagnostic document that records what was ingested and how.

use vstd::prelude::*;
use vstd::string::*;
use crate::digest::{hex_encode, hex_lower};
use crate::doc::{new_fields, put, Doc, DocView};
use crate::meta::{Seconds, VideoMeta, VideoMetaView};
use crate::text::opt_str;

verus! {

/// The name recorded for a source whose own name is not known.
pub open spec fn source_name_or_default(name: Option<Seq<char>>) -> Seq<char> {
    match name {
        Some(n) => n,
        None => "input.mp4"@,
    }
}

/// What the sidecar records of the source file.
pub open spec fn source_doc(name: Option<Seq<char>>, hash: Seq<u8>) -> DocView {
    DocView::Record(
        seq![
            ("name"@, DocView::Text(source_name_or_default(name))),
            ("hash_b3"@, DocView::Text("b3:"@ + hex_lower(hash))),
        ],
    )
}

/// The field `duration_seconds`, present exactly when the duration is known.
pub open spec fn duration_fields(duration: Option<Seconds>) -> Seq<(Seq<char>, DocView)> {
    match duration {
        Some(d) => seq![("duration_seconds"@, DocView::Real(d.bits))],
        None => Seq::empty(),
    }
}

/// What the sidecar records of the video.
pub open spec fn sidecar_video_doc(
    meta: VideoMetaView,
    frame_count: u64,
    tile_size: u16,
) -> DocView {
    DocView::Record(
        seq![
            ("codec_in"@, DocView::Text(meta.video_codec)),
            ("codec_out"@, DocView::Text("VCX-IC0-ALPHA"@)),
            ("width"@, DocView::Uint(meta.width as u64)),
            ("height"@, DocView::Uint(meta.height as u64)),
            ("fps_num"@, DocView::Uint(meta.fps_num as u64)),
            ("fps_den"@, DocView::Uint(meta.fps_den as u64)),
            ("frames_encoded"@, DocView::Uint(frame_count)),
            ("tile_size"@, DocView::Uint(tile_size as u64)),
        ] + duration_fields(meta.duration_seconds),
    )
}

/// The name of the source's audio codec, or null.
pub open spec fn audio_codec_doc(codec: Option<Seq<char>>) -> DocView {
    match codec {
        Some(c) => DocView::Text(c),
        None => DocView::Null,
    }
}

/// The sidecar of one run.
pub open spec fn sidecar_doc(
    source_name: Option<Seq<char>>,
    input_hash: Seq<u8>,
    meta: VideoMetaView,
    frame_count: u64,
    tile_size: u16,
    has_audio_payload: bool,
    encoder_version: Seq<char>,
) -> DocView {
    DocView::Record(
        seq![
            ("schema"@, DocView::Text("vcx/sidecar.media.import.v1"@)),
            ("encoder"@, DocView::Text("vcx_enc_cli/"@ + encoder_version)),
            ("profile"@, DocView::Text("vcx-ic0-alpha-luma-raw/v1"@)),
            ("source"@, source_doc(source_name, input_hash)),
            ("video"@, sidecar_video_doc(meta, frame_count, tile_size)),
            ("has_audio_payload"@, DocView::Bool(has_audio_payload)),
            ("audio_codec_in"@, audio_codec_doc(meta.audio_codec)),
        ],
    )
}

/// The label of a BLAKE3 hash: `b3:` and the hash in lowercase hexadecimal.
pub fn hash_label(hash: &[u8; 32]) -> (label: String)
    ensures
        label@ == "b3:"@ + hex_lower(hash@),
{
    let hex = hex_encode(hash.as_slice());
    String::from_str("b3:").concat(hex.as_str())
}

/// Builds the sidecar document of a run.
///
/// `source_name` is the file name of the source, where it has one that is
/// text; `encoder_version` is the version of the encoder that runs.
pub fn build_sidecar_payload(
    source_name: Option<&str>,
    input_hash: &[u8; 32],
    meta: &VideoMeta,
    frame_count: u64,
    tile_size: u16,
    has_audio_payload: bool,
    encoder_version: &str,
) -> (d: Doc)
    ensures
        d@ == sidecar_doc(
            opt_str(source_name),
            input_hash@,
            meta@,
            frame_count,
            tile_size,
            has_audio_payload,
            encoder_version@,
        ),
{
    let mut source = new_fields();
    let name = match source_name {
        Some(n) => n,
        None => "input.mp4",
    };
    put(&mut source, "name", Doc::text(name));
    put(&mut source, "hash_b3", Doc::text(hash_label(input_hash).as_str()));
    let source_record = Doc::record(source);
    assert(source_record@->Record_0 =~= source_doc(opt_str(source_name), input_hash@)->Record_0);

    let mut video = new_fields();
    put(&mut video, "codec_in", Doc::text(meta.video_codec.as_str()));
    put(&mut video, "codec_out", Doc::text("VCX-IC0-ALPHA"));
    put(&mut video, "width", Doc::Uint(meta.width as u64));
    put(&mut video, "height", Doc::Uint(meta.height as u64));
    put(&mut video, "fps_num", Doc::Uint(meta.fps_num as u64));
    put(&mut video, "fps_den", Doc::Uint(meta.fps_den as u64));
    put(&mut video, "frames_encoded", Doc::Uint(frame_count));
    put(&mut video, "tile_size", Doc::Uint(tile_size as u64));
    match meta.duration_seconds {
        Some(duration) => {
            put(&mut video, "duration_seconds", Doc::Real(duration.bits));
        },
        None => {},
    }
    let video_record = Doc::record(video);
    assert(video_record@->Record_0 =~= sidecar_video_doc(meta@, frame_count, tile_size)->Record_0);

    let audio_codec_in = match &meta.audio_codec {
        Some(c) => Doc::text(c.as_str()),
        None => Doc::Null,
    };

    let mut sidecar = new_fields();
    put(&mut sidecar, "schema", Doc::text("vcx/sidecar.media.import.v1"));
    put(
        &mut sidecar,
        "encoder",
        Doc::text(String::from_str("vcx_enc_cli/").concat(encoder_version).as_str()),
    );
    put(&mut sidecar, "profile", Doc::text("vcx-ic0-alpha-luma-raw/v1"));
    put(&mut sidecar, "source", source_record);
    put(&mut sidecar, "video", video_record);
    put(&mut sidecar, "has_audio_payload", Doc::Bool(has_audio_payload));
    put(&mut sidecar, "audio_codec_in", audio_codec_in);
    let d = Doc::record(sidecar);
    assert(d@->Record_0 =~= sidecar_doc(
        opt_str(source_name),
        input_hash@,
        meta@,
        frame_count,
        tile_size,
        has_audio_payload,
        encoder_version@,
    )->Record_0);
    d
}

} // verus!
