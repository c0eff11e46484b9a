//! The decisions of a run: which parameters are accepted, whether audio is
//! taken, how the manifest is named, and in which order the payloads go
//! into the package.

use vstd::prelude::*;
use vstd::slice::slice_to_vec;
use vstd::string::*;
use crate::digest::{hex_encode, hex_lower};
use crate::doc::{Doc, DocView};
use crate::manifest::{build_manifest, manifest_outcome, ManifestError};
use crate::meta::{VideoMeta, VideoMetaView};
use crate::text::{is_blank, opt_str, str_is_blank};
use crate::tile::{payload_views, EncodedTile, TilePayload, TilePayloadView};
use crate::timing::{frame_ticks, ticks_per_frame, TIMEBASE};

verus! {

/// Why a run stops for a reason that is not a decoder's or a frame's.
#[derive(Debug, Clone, Copy, PartialEq, Eq)]
pub enum RunError {
    /// The limit on decoded frames is zero.
    ZeroMaxFrames,
    /// The tile size is zero.
    ZeroTileSize,
    /// The world anchor is empty or blank.
    EmptyWorld,
    /// The frames gave no tile.
    NoTiles,
    /// The source has an audio stream, and its transcoding gave no bytes.
    EmptyAudioPayload,
}

/// What checking the parameters of a run comes to: the first of the three
/// demands that fails, in the order frame limit, tile size, world anchor.
pub open spec fn run_check(max_frames: u32, tile_size: u16, world: Seq<char>) -> Result<
    (),
    RunError,
> {
    if max_frames == 0 {
        Err(RunError::ZeroMaxFrames)
    } else if tile_size == 0 {
        Err(RunError::ZeroTileSize)
    } else if is_blank(world) {
        Err(RunError::EmptyWorld)
    } else {
        Ok(())
    }
}

/// Checks the parameters of a run before any work is done.
pub fn validate_run(max_frames: u32, tile_size: u16, world: &str) -> (r: Result<(), RunError>)
    ensures
        r == run_check(max_frames, tile_size, world@),
{
    if max_frames == 0 {
        return Err(RunError::ZeroMaxFrames);
    }
    if tile_size == 0 {
        return Err(RunError::ZeroTileSize);
    }
    if str_is_blank(world) {
        return Err(RunError::EmptyWorld);
    }
    Ok(())
}

/// Rejects an empty set of tiles.
pub fn require_tiles(tiles: &[EncodedTile]) -> (r: Result<(), RunError>)
    ensures
        r == if tiles@.len() == 0 {
            Err::<(), RunError>(RunError::NoTiles)
        } else {
            Ok::<(), RunError>(())
        },
{
    if tiles.len() == 0 {
        Err(RunError::NoTiles)
    } else {
        Ok(())
    }
}

/// Tells whether the audio of the source is to be transcoded: only when the
/// caller did not disable audio and the source has an audio stream.
pub fn audio_wanted(no_audio: bool, meta: &VideoMeta) -> (wanted: bool)
    ensures
        wanted == (!no_audio && meta@.audio_codec is Some),
{
    !no_audio && meta.audio_codec.is_some()
}

/// Accepts the transcoded audio of a source that has an audio stream, unless it is empty.
pub fn accept_audio(bytes: Vec<u8>) -> (r: Result<Vec<u8>, RunError>)
    ensures
        r == if bytes@.len() == 0 {
            Err::<Vec<u8>, RunError>(RunError::EmptyAudioPayload)
        } else {
            Ok::<Vec<u8>, RunError>(bytes)
        },
{
    if bytes.len() == 0 {
        Err(RunError::EmptyAudioPayload)
    } else {
        Ok(bytes)
    }
}

/// The manifest identifier of a source that was given none: `m:mp4:` and the
/// first 24 hexadecimal digits of the source's hash.
pub open spec fn default_id(hash: Seq<u8>) -> Seq<char> {
    "m:mp4:"@ + hex_lower(hash).subrange(0, 24)
}

/// Derives a manifest identifier from the hash of the source.
pub fn default_manifest_id(hash: &[u8; 32]) -> (id: String)
    ensures
        id@ == default_id(hash@),
{
    let hex_hash = hex_encode(hash.as_slice());
    let head = hex_hash.as_str().substring_char(0, 24);
    String::from_str("m:mp4:").concat(head)
}

/// The kind of a payload of a package.
#[derive(Debug, Clone, Copy, PartialEq, Eq)]
pub enum PayloadKind {
    Ic0Tile,
    Sidecar,
    Opus,
}

/// One payload of a package: its kind and its bytes.
#[derive(Debug, Clone, PartialEq, Eq)]
pub struct Payload {
    pub kind: PayloadKind,
    pub bytes: Vec<u8>,
}

impl View for Payload {
    type V = (PayloadKind, Seq<u8>);

    open spec fn view(&self) -> (PayloadKind, Seq<u8>) {
        (self.kind, self.bytes@)
    }
}

/// The values of a sequence of payloads, in order.
pub open spec fn payloads_view(payloads: Seq<Payload>) -> Seq<(PayloadKind, Seq<u8>)> {
    Seq::new(payloads.len(), |i: int| payloads[i]@)
}

/// The payload of the audio, if there is one.
pub open spec fn audio_payloads(audio: Option<Seq<u8>>) -> Seq<(PayloadKind, Seq<u8>)> {
    match audio {
        Some(bytes) => seq![(PayloadKind::Opus, bytes)],
        None => Seq::empty(),
    }
}

/// The payloads of a package in their order: every tile as it stands in
/// `tiles`, then the sidecar, then the audio if there is any.
pub open spec fn ordered_payloads(
    tiles: Seq<TilePayloadView>,
    sidecar: Seq<u8>,
    audio: Option<Seq<u8>>,
) -> Seq<(PayloadKind, Seq<u8>)> {
    Seq::new(tiles.len(), |i: int| (PayloadKind::Ic0Tile, tiles[i].bytes)) + seq![
        (PayloadKind::Sidecar, sidecar),
    ] + audio_payloads(audio)
}

/// The bytes of an optional payload.
pub open spec fn opt_bytes(b: Option<Vec<u8>>) -> Option<Seq<u8>> {
    match b {
        Some(v) => Some(v@),
        None => None,
    }
}

/// Lists the payloads of a package in their order.
pub fn order_payloads(tiles: &[TilePayload], sidecar: Vec<u8>, audio: Option<Vec<u8>>) -> (out:
    Vec<Payload>)
    ensures
        payloads_view(out@) == ordered_payloads(
            payload_views(tiles@),
            sidecar@,
            opt_bytes(audio),
        ),
{
    let ghost all = payload_views(tiles@);
    let mut out: Vec<Payload> = Vec::new();
    let mut i: usize = 0;
    while i < tiles.len()
        invariant
            i <= tiles@.len(),
            all == payload_views(tiles@),
            out@.len() == i,
            payloads_view(out@) == Seq::new(
                i as nat,
                |k: int| (PayloadKind::Ic0Tile, all[k].bytes),
            ),
        decreases tiles@.len() - i,
    {
        let bytes = slice_to_vec(tiles[i].bytes.as_slice());
        let ghost before = out@;
        assert(bytes@ == all[i as int].bytes);
        out.push(Payload { kind: PayloadKind::Ic0Tile, bytes });
        i = i + 1;
        assert forall|k: int| 0 <= k < i implies #[trigger] payloads_view(out@)[k] == (
            PayloadKind::Ic0Tile,
            all[k].bytes,
        ) by {
            if k < i - 1 {
                assert(payloads_view(before)[k] == (PayloadKind::Ic0Tile, all[k].bytes));
            }
        }
        assert(payloads_view(out@) =~= Seq::new(
            i as nat,
            |k: int| (PayloadKind::Ic0Tile, all[k].bytes),
        ));
    }
    let ghost tile_part = payloads_view(out@);
    out.push(Payload { kind: PayloadKind::Sidecar, bytes: sidecar });
    assert(payloads_view(out@) =~= tile_part + seq![(PayloadKind::Sidecar, sidecar@)]);
    let ghost fixed_part = payloads_view(out@);
    match audio {
        Some(bytes) => {
            out.push(Payload { kind: PayloadKind::Opus, bytes });
        },
        None => {},
    }
    assert(payloads_view(out@) =~= fixed_part + audio_payloads(opt_bytes(audio)));
    out
}

/// The audio payload of a package: its bytes and their content identifier.
#[derive(Debug, Clone, PartialEq, Eq)]
pub struct AudioPayload {
    pub bytes: Vec<u8>,
    pub cid: String,
}

/// A package ready to be written: the manifest, its identifier, and the
/// payloads in their order.
#[derive(Debug)]
pub struct Package {
    pub manifest_id: String,
    pub manifest: Doc,
    pub payloads: Vec<Payload>,
}

/// The identifier of a manifest: the one given, or the one derived from the
/// hash of the source.
pub open spec fn chosen_id(given: Option<Seq<char>>, hash: Seq<u8>) -> Seq<char> {
    match given {
        Some(id) => id,
        None => default_id(hash),
    }
}

/// The content identifier of an optional audio payload.
pub open spec fn audio_cid_view(audio: Option<AudioPayload>) -> Option<Seq<char>> {
    match audio {
        Some(a) => Some(a.cid@),
        None => None,
    }
}

/// The bytes of an optional audio payload.
pub open spec fn audio_bytes_view(audio: Option<AudioPayload>) -> Option<Seq<u8>> {
    match audio {
        Some(a) => Some(a.bytes@),
        None => None,
    }
}

/// The manifest that a package gets: that of its parts at the frame duration
/// which the frame rate gives at 90000 ticks per second.
pub open spec fn package_manifest(
    world: Seq<char>,
    manifest_id: Option<Seq<char>>,
    input_hash: Seq<u8>,
    meta: VideoMetaView,
    frame_count: u64,
    tile_size: u16,
    tiles: Seq<TilePayloadView>,
    sidecar_cid: Seq<char>,
    audio_cid: Option<Seq<char>>,
) -> Result<DocView, ManifestError> {
    manifest_outcome(
        world,
        chosen_id(manifest_id, input_hash),
        meta,
        frame_count,
        frame_ticks(meta.fps_num, meta.fps_den, TIMEBASE),
        tile_size,
        tiles,
        sidecar_cid,
        audio_cid,
    )
}

/// Puts a package together once every payload and its content identifier is known.
///
/// The manifest is named `manifest_id`, or after the hash of the source if
/// none is given. The payloads are the tiles, then the sidecar, then the audio.
pub fn assemble_package(
    world: &str,
    manifest_id: Option<&str>,
    input_hash: &[u8; 32],
    meta: &VideoMeta,
    frame_count: u64,
    tile_size: u16,
    tile_payloads: &[TilePayload],
    sidecar: Vec<u8>,
    sidecar_cid: &str,
    audio: Option<AudioPayload>,
) -> (r: Result<Package, ManifestError>)
    requires
        frame_count <= usize::MAX,
    ensures
        match r {
            Ok(p) => {
                &&& p.manifest_id@ == chosen_id(opt_str(manifest_id), input_hash@)
                &&& package_manifest(
                    world@,
                    opt_str(manifest_id),
                    input_hash@,
                    meta@,
                    frame_count,
                    tile_size,
                    payload_views(tile_payloads@),
                    sidecar_cid@,
                    audio_cid_view(audio),
                ) == Ok::<DocView, ManifestError>(p.manifest@)
                &&& payloads_view(p.payloads@) == ordered_payloads(
                    payload_views(tile_payloads@),
                    sidecar@,
                    audio_bytes_view(audio),
                )
            },
            Err(e) => package_manifest(
                world@,
                opt_str(manifest_id),
                input_hash@,
                meta@,
                frame_count,
                tile_size,
                payload_views(tile_payloads@),
                sidecar_cid@,
                audio_cid_view(audio),
            ) == Err::<DocView, ManifestError>(e),
        },
{
    let id: String = match manifest_id {
        Some(given) => String::from_str(given),
        None => default_manifest_id(input_hash),
    };
    let frame_tick: u64 = ticks_per_frame(meta.fps_num, meta.fps_den, TIMEBASE);
    let built = match &audio {
        Some(a) => build_manifest(
            world,
            id.as_str(),
            meta,
            frame_count,
            frame_tick,
            tile_size,
            tile_payloads,
            sidecar_cid,
            Some(a.cid.as_str()),
        ),
        None => build_manifest(
            world,
            id.as_str(),
            meta,
            frame_count,
            frame_tick,
            tile_size,
            tile_payloads,
            sidecar_cid,
            None,
        ),
    };
    let manifest = match built {
        Ok(m) => m,
        Err(e) => {
            return Err(e);
        },
    };
    let audio_bytes = match audio {
        Some(a) => Some(a.bytes),
        None => None,
    };
    let payloads = order_payloads(tile_payloads, sidecar, audio_bytes);
    Ok(Package { manifest_id: id, manifest, payloads })
}

} // verus!
