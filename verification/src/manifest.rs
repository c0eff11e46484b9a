//! The manifest: the document that names every payload of a package by its
//! content identifier and places the tiles in time.

use vstd::prelude::*;
use crate::doc::{
    fields_view, first_named, items_view, lemma_first_named_skip, new_fields, new_items,
    push_item, put, Doc, DocView,
};
use crate::meta::{VideoMeta, VideoMetaView};
use crate::text::{decimal, opt_str};
use crate::tile::{
    all_tiles, grid, grid_overflows, payload_views, sealed_with, tiles_outcome, EncodedTileView,
    TilePayload, TilePayloadView,
};
use crate::timing::{sat_mul, saturating_mul, TIMEBASE};

verus! {

/// Why no manifest could be built.
#[derive(Debug, Clone, Copy, PartialEq, Eq)]
pub enum ManifestError {
    /// The frame count is zero.
    ZeroFrameCount,
    /// A tile names a frame at or beyond the frame count.
    TileFrameIndexOutOfBounds { frame_index: u32 },
}

/// An integer in its tagged form: the kind `int/1` and the decimal digits.
pub open spec fn unc_int_doc(v: nat) -> DocView {
    DocView::Record(seq![("@num"@, DocView::Text("int/1"@)), ("v"@, DocView::Text(decimal(v)))])
}

/// The rational `p / q` in its tagged form: the kind `rat/1` and the decimal
/// digits of both parts.
pub open spec fn unc_rat_doc(p: nat, q: nat) -> DocView {
    DocView::Record(
        seq![
            ("@num"@, DocView::Text("rat/1"@)),
            ("p"@, DocView::Text(decimal(p))),
            ("q"@, DocView::Text(decimal(q))),
        ],
    )
}

/// The reference that a manifest holds to one tile.
pub open spec fn tile_ref_doc(t: TilePayloadView) -> DocView {
    DocView::Record(
        seq![
            ("cid"@, DocView::Text(t.cid)),
            ("mime"@, DocView::Text("application/vcx-ic0t"@)),
            ("role"@, DocView::Text("base"@)),
            ("tile_x"@, DocView::Text(decimal(t.tile_x as nat))),
            ("tile_y"@, DocView::Text(decimal(t.tile_y as nat))),
            ("crop_w"@, DocView::Text(decimal(t.crop_w as nat))),
            ("crop_h"@, DocView::Text(decimal(t.crop_h as nat))),
        ],
    )
}

/// The test for a tile of frame `f`.
pub open spec fn in_frame(f: int) -> spec_fn(TilePayloadView) -> bool {
    |t: TilePayloadView| t.frame_index == f
}

/// The tiles of frame `f`, in the order in which `tiles` holds them.
pub open spec fn frame_tiles(tiles: Seq<TilePayloadView>, f: int) -> Seq<TilePayloadView> {
    tiles.filter(in_frame(f))
}

/// The references to the tiles of frame `f`, in the order of `tiles`.
pub open spec fn frame_tile_refs(tiles: Seq<TilePayloadView>, f: int) -> Seq<DocView> {
    Seq::new(frame_tiles(tiles, f).len(), |i: int| tile_ref_doc(frame_tiles(tiles, f)[i]))
}

/// The temporal group of frame `f`: it starts at `frame_tick * f` ticks,
/// saturating, lasts `frame_tick` ticks and refers to the frame's tiles.
pub open spec fn got_doc(tiles: Seq<TilePayloadView>, f: int, frame_tick: u64) -> DocView {
    DocView::Record(
        seq![
            ("start_tick"@, unc_int_doc(sat_mul(frame_tick, f as u64) as nat)),
            ("dur_ticks"@, unc_int_doc(frame_tick as nat)),
            ("tiles"@, DocView::List(frame_tile_refs(tiles, f))),
        ],
    )
}

/// The temporal groups of frames `0..frame_count`, in ascending order.
pub open spec fn gots_doc(tiles: Seq<TilePayloadView>, frame_count: u64, frame_tick: u64) -> Seq<
    DocView,
> {
    Seq::new(frame_count as nat, |f: int| got_doc(tiles, f, frame_tick))
}

/// The description of the video as a whole.
pub open spec fn video_doc(meta: VideoMetaView, frame_count: u64, tile_size: u16) -> DocView {
    DocView::Record(
        seq![
            ("codec"@, DocView::Text("VCX-IC0-ALPHA"@)),
            ("width"@, unc_int_doc(meta.width as nat)),
            ("height"@, unc_int_doc(meta.height as nat)),
            ("fps"@, unc_rat_doc(meta.fps_num as nat, meta.fps_den as nat)),
            ("frames"@, unc_int_doc(frame_count as nat)),
            ("tile_size"@, unc_int_doc(tile_size as nat)),
        ],
    )
}

/// The reference to the sidecar payload.
pub open spec fn sidecar_ref_doc(cid: Seq<char>) -> DocView {
    DocView::Record(
        seq![
            ("cid"@, DocView::Text(cid)),
            ("mime"@, DocView::Text("application/vcx-sidecar"@)),
            ("type"@, DocView::Text("vcx/sidecar.media.import.v1"@)),
        ],
    )
}

/// The reference to the audio payload.
pub open spec fn audio_doc(cid: Seq<char>) -> DocView {
    DocView::Record(
        seq![
            ("codec"@, DocView::Text("opus"@)),
            ("cid"@, DocView::Text(cid)),
            ("mime"@, DocView::Text("audio/opus"@)),
        ],
    )
}

/// The fields that every manifest has, in order.
pub open spec fn manifest_core(
    world: Seq<char>,
    manifest_id: Seq<char>,
    meta: VideoMetaView,
    frame_count: u64,
    frame_tick: u64,
    tile_size: u16,
    tiles: Seq<TilePayloadView>,
    sidecar_cid: Seq<char>,
) -> Seq<(Seq<char>, DocView)> {
    seq![
        ("@type"@, DocView::Text("vcx/manifest"@)),
        ("@id"@, DocView::Text(manifest_id)),
        ("@ver"@, DocView::Text("1.0"@)),
        ("@world"@, DocView::Text(world)),
        ("profile"@, DocView::Text("vcx-ic0-alpha-luma-raw/v1"@)),
        ("timebase"@, unc_rat_doc(1, TIMEBASE as nat)),
        ("duration_ticks"@, unc_int_doc(sat_mul(frame_tick, frame_count) as nat)),
        ("video"@, video_doc(meta, frame_count, tile_size)),
        ("gots"@, DocView::List(gots_doc(tiles, frame_count, frame_tick))),
        ("sidecars"@, DocView::List(seq![sidecar_ref_doc(sidecar_cid)])),
    ]
}

/// The field `audio`, present exactly when there is an audio payload.
pub open spec fn audio_fields(audio_cid: Option<Seq<char>>) -> Seq<(Seq<char>, DocView)> {
    match audio_cid {
        Some(cid) => seq![("audio"@, audio_doc(cid))],
        None => Seq::empty(),
    }
}

/// The field `source_frame_hint`, present exactly when the source claimed a frame count.
pub open spec fn hint_fields(hint: Option<u64>) -> Seq<(Seq<char>, DocView)> {
    match hint {
        Some(h) => seq![("source_frame_hint"@, unc_int_doc(h as nat))],
        None => Seq::empty(),
    }
}

/// The manifest of a package.
pub open spec fn manifest_doc(
    world: Seq<char>,
    manifest_id: Seq<char>,
    meta: VideoMetaView,
    frame_count: u64,
    frame_tick: u64,
    tile_size: u16,
    tiles: Seq<TilePayloadView>,
    sidecar_cid: Seq<char>,
    audio_cid: Option<Seq<char>>,
) -> DocView {
    DocView::Record(
        manifest_core(
            world,
            manifest_id,
            meta,
            frame_count,
            frame_tick,
            tile_size,
            tiles,
            sidecar_cid,
        ) + audio_fields(audio_cid) + hint_fields(meta.frame_count_hint),
    )
}

/// The frame index of the first tile that names a frame at or beyond
/// `frame_count`, if there is such a tile.
pub open spec fn first_stray(tiles: Seq<TilePayloadView>, frame_count: u64) -> Option<u32>
    decreases tiles.len(),
{
    if tiles.len() == 0 {
        None
    } else if tiles[0].frame_index >= frame_count {
        Some(tiles[0].frame_index)
    } else {
        first_stray(tiles.drop_first(), frame_count)
    }
}

/// What building a manifest comes to: the error for a zero frame count, else
/// the error for the first tile outside the frames, else the manifest.
pub open spec fn manifest_outcome(
    world: Seq<char>,
    manifest_id: Seq<char>,
    meta: VideoMetaView,
    frame_count: u64,
    frame_tick: u64,
    tile_size: u16,
    tiles: Seq<TilePayloadView>,
    sidecar_cid: Seq<char>,
    audio_cid: Option<Seq<char>>,
) -> Result<DocView, ManifestError> {
    if frame_count == 0 {
        Err(ManifestError::ZeroFrameCount)
    } else {
        match first_stray(tiles, frame_count) {
            Some(frame_index) => Err(ManifestError::TileFrameIndexOutOfBounds { frame_index }),
            None => Ok(
                manifest_doc(
                    world,
                    manifest_id,
                    meta,
                    frame_count,
                    frame_tick,
                    tile_size,
                    tiles,
                    sidecar_cid,
                    audio_cid,
                ),
            ),
        }
    }
}

/// A search for the first stray tile may skip a prefix that holds none.
pub proof fn lemma_first_stray_skip(tiles: Seq<TilePayloadView>, frame_count: u64, n: int)
    requires
        0 <= n <= tiles.len(),
        forall|k: int| 0 <= k < n ==> (#[trigger] tiles[k]).frame_index < frame_count,
    ensures
        first_stray(tiles, frame_count) == first_stray(
            tiles.subrange(n, tiles.len() as int),
            frame_count,
        ),
    decreases n,
{
    if n == 0 {
        assert(tiles.subrange(0, tiles.len() as int) =~= tiles);
    } else {
        let rest = tiles.drop_first();
        assert forall|k: int| 0 <= k < n - 1 implies (#[trigger] rest[k]).frame_index
            < frame_count by {
            assert(rest[k] == tiles[k + 1]);
        }
        lemma_first_stray_skip(rest, frame_count, n - 1);
        assert(rest.subrange(n - 1, rest.len() as int) =~= tiles.subrange(n, tiles.len() as int));
    }
}

/// Wraps an integer in its tagged form.
pub fn unc_int(v: u64) -> (d: Doc)
    ensures
        d@ == unc_int_doc(v as nat),
{
    let mut o = new_fields();
    put(&mut o, "@num", Doc::text("int/1"));
    put(&mut o, "v", Doc::decimal(v));
    let d = Doc::record(o);
    assert(d@->Record_0 =~= unc_int_doc(v as nat)->Record_0);
    d
}

/// Wraps the rational `p / q` in its tagged form.
pub fn unc_rat(p: u64, q: u64) -> (d: Doc)
    ensures
        d@ == unc_rat_doc(p as nat, q as nat),
{
    let mut o = new_fields();
    put(&mut o, "@num", Doc::text("rat/1"));
    put(&mut o, "p", Doc::decimal(p));
    put(&mut o, "q", Doc::decimal(q));
    let d = Doc::record(o);
    assert(d@->Record_0 =~= unc_rat_doc(p as nat, q as nat)->Record_0);
    d
}

/// Builds the reference that a manifest holds to one tile.
pub fn tile_ref(tile: &TilePayload) -> (d: Doc)
    ensures
        d@ == tile_ref_doc(tile@),
{
    let mut item = new_fields();
    put(&mut item, "cid", Doc::text(tile.cid.as_str()));
    put(&mut item, "mime", Doc::text("application/vcx-ic0t"));
    put(&mut item, "role", Doc::text("base"));
    put(&mut item, "tile_x", Doc::decimal(tile.tile_x as u64));
    put(&mut item, "tile_y", Doc::decimal(tile.tile_y as u64));
    put(&mut item, "crop_w", Doc::decimal(tile.crop_w as u64));
    put(&mut item, "crop_h", Doc::decimal(tile.crop_h as u64));
    let d = Doc::record(item);
    assert(d@->Record_0 =~= tile_ref_doc(tile@)->Record_0);
    d
}

/// `bucket` lists, in order, the positions in `all` of the tiles of frame `f`
/// among the first `seen` tiles.
pub open spec fn bucket_holds(
    bucket: Seq<usize>,
    all: Seq<TilePayloadView>,
    seen: int,
    f: int,
) -> bool {
    &&& bucket.len() == frame_tiles(all.take(seen), f).len()
    &&& forall|j: int|
        #![trigger bucket[j]]
        0 <= j < bucket.len() ==> 0 <= bucket[j] < all.len() && all[bucket[j] as int]
            == frame_tiles(all.take(seen), f)[j]
}

/// Seeing one more tile extends the bucket of its frame and leaves the others.
proof fn lemma_bucket_step(
    before: Seq<usize>,
    after: Seq<usize>,
    all: Seq<TilePayloadView>,
    seen: int,
    f: int,
)
    requires
        0 <= seen < all.len(),
        bucket_holds(before, all, seen, f),
        after == if all[seen].frame_index == f {
            before.push(seen as usize)
        } else {
            before
        },
        seen <= usize::MAX,
    ensures
        bucket_holds(after, all, seen + 1, f),
{
    assert(all.take(seen + 1) =~= all.take(seen).push(all[seen]));
    all.take(seen).lemma_filter_push(all[seen], in_frame(f));
}

/// Builds the manifest of a package from its parts.
///
/// `tile_payloads` may hold the tiles of the frames in any order; each
/// temporal group keeps the order in which its own tiles stand there.
pub fn build_manifest(
    world: &str,
    manifest_id: &str,
    meta: &VideoMeta,
    frame_count: u64,
    frame_tick: u64,
    tile_size: u16,
    tile_payloads: &[TilePayload],
    sidecar_cid: &str,
    audio_cid: Option<&str>,
) -> (r: Result<Doc, ManifestError>)
    requires
        frame_count <= usize::MAX,
    ensures
        match r {
            Ok(d) => manifest_outcome(
                world@,
                manifest_id@,
                meta@,
                frame_count,
                frame_tick,
                tile_size,
                payload_views(tile_payloads@),
                sidecar_cid@,
                opt_str(audio_cid),
            ) == Ok::<DocView, ManifestError>(d@),
            Err(e) => manifest_outcome(
                world@,
                manifest_id@,
                meta@,
                frame_count,
                frame_tick,
                tile_size,
                payload_views(tile_payloads@),
                sidecar_cid@,
                opt_str(audio_cid),
            ) == Err::<DocView, ManifestError>(e),
        },
{
    if frame_count == 0 {
        return Err(ManifestError::ZeroFrameCount);
    }
    let duration_ticks: u64 = saturating_mul(frame_tick, frame_count);
    let n: usize = frame_count as usize;
    let ghost all = payload_views(tile_payloads@);

    let mut buckets: Vec<Vec<usize>> = Vec::new();
    let mut f: usize = 0;
    while f < n
        invariant
            f <= n,
            buckets@.len() == f,
            forall|g: int| 0 <= g < f ==> (#[trigger] buckets@[g])@.len() == 0,
        decreases n - f,
    {
        buckets.push(Vec::new());
        f = f + 1;
    }
    proof {
        reveal(Seq::filter);
        assert(all.take(0) =~= Seq::<TilePayloadView>::empty());
    }

    let mut k: usize = 0;
    while k < tile_payloads.len()
        invariant
            k <= tile_payloads.len(),
            0 < n == frame_count,
            buckets@.len() == n,
            all == payload_views(tile_payloads@),
            forall|i: int| 0 <= i < k ==> (#[trigger] all[i]).frame_index < frame_count,
            forall|g: int|
                0 <= g < n ==> bucket_holds((#[trigger] buckets@[g])@, all, k as int, g),
        decreases tile_payloads.len() - k,
    {
        let tile = &tile_payloads[k];
        let idx: usize = tile.frame_index as usize;
        if idx >= n {
            proof {
                lemma_first_stray_skip(all, frame_count, k as int);
                assert(all.subrange(k as int, all.len() as int)[0] == all[k as int]);
                assert(all[k as int] == tile@);
            }
            return Err(ManifestError::TileFrameIndexOutOfBounds { frame_index: tile.frame_index });
        }
        let ghost before = buckets@;
        buckets[idx].push(k);
        proof {
            assert forall|g: int| 0 <= g < n implies bucket_holds(
                (#[trigger] buckets@[g])@,
                all,
                k + 1,
                g,
            ) by {
                lemma_bucket_step(before[g]@, buckets@[g]@, all, k as int, g);
            }
        }
        k = k + 1;
    }
    proof {
        assert(all.take(k as int) =~= all);
        lemma_first_stray_skip(all, frame_count, k as int);
        assert(all.subrange(k as int, all.len() as int) =~= Seq::<TilePayloadView>::empty());
    }

    let mut gots: Vec<Doc> = new_items();
    let mut f: usize = 0;
    while f < n
        invariant
            f <= n,
            n == frame_count,
            buckets@.len() == n,
            all == payload_views(tile_payloads@),
            forall|g: int|
                0 <= g < n ==> bucket_holds(
                    (#[trigger] buckets@[g])@,
                    all,
                    all.len() as int,
                    g,
                ),
            items_view(gots@) == gots_doc(all, f as u64, frame_tick),
        decreases n - f,
    {
        let bucket = &buckets[f];
        let ghost mine = frame_tiles(all, f as int);
        assert(all.take(all.len() as int) =~= all);
        let mut tile_refs: Vec<Doc> = new_items();
        let mut j: usize = 0;
        while j < bucket.len()
            invariant
                j <= bucket.len(),
                all == payload_views(tile_payloads@),
                mine == frame_tiles(all, f as int),
                bucket_holds(bucket@, all, all.len() as int, f as int),
                all.take(all.len() as int) == all,
                items_view(tile_refs@) == Seq::new(j as nat, |i: int| tile_ref_doc(mine[i])),
            decreases bucket.len() - j,
        {
            let tile = &tile_payloads[bucket[j]];
            assert(tile@ == mine[j as int]);
            push_item(&mut tile_refs, tile_ref(tile));
            j = j + 1;
            assert(items_view(tile_refs@) =~= Seq::new(j as nat, |i: int| tile_ref_doc(mine[i])));
        }
        assert(items_view(tile_refs@) =~= frame_tile_refs(all, f as int));

        let mut got = new_fields();
        put(&mut got, "start_tick", unc_int(saturating_mul(frame_tick, f as u64)));
        put(&mut got, "dur_ticks", unc_int(frame_tick));
        put(&mut got, "tiles", Doc::list(tile_refs));
        let got_record = Doc::record(got);
        assert(got_record@->Record_0 =~= got_doc(all, f as int, frame_tick)->Record_0);
        push_item(&mut gots, got_record);
        f = f + 1;
        assert(items_view(gots@) =~= gots_doc(all, f as u64, frame_tick));
    }

    let mut video = new_fields();
    put(&mut video, "codec", Doc::text("VCX-IC0-ALPHA"));
    put(&mut video, "width", unc_int(meta.width as u64));
    put(&mut video, "height", unc_int(meta.height as u64));
    put(&mut video, "fps", unc_rat(meta.fps_num as u64, meta.fps_den as u64));
    put(&mut video, "frames", unc_int(frame_count));
    put(&mut video, "tile_size", unc_int(tile_size as u64));
    let video_record = Doc::record(video);
    assert(video_record@->Record_0 =~= video_doc(meta@, frame_count, tile_size)->Record_0);

    let mut sc = new_fields();
    put(&mut sc, "cid", Doc::text(sidecar_cid));
    put(&mut sc, "mime", Doc::text("application/vcx-sidecar"));
    put(&mut sc, "type", Doc::text("vcx/sidecar.media.import.v1"));
    let sc_record = Doc::record(sc);
    assert(sc_record@->Record_0 =~= sidecar_ref_doc(sidecar_cid@)->Record_0);
    let mut sidecars: Vec<Doc> = new_items();
    push_item(&mut sidecars, sc_record);
    assert(items_view(sidecars@) =~= seq![sidecar_ref_doc(sidecar_cid@)]);

    let mut root = new_fields();
    put(&mut root, "@type", Doc::text("vcx/manifest"));
    put(&mut root, "@id", Doc::text(manifest_id));
    put(&mut root, "@ver", Doc::text("1.0"));
    put(&mut root, "@world", Doc::text(world));
    put(&mut root, "profile", Doc::text("vcx-ic0-alpha-luma-raw/v1"));
    put(&mut root, "timebase", unc_rat(1, TIMEBASE));
    put(&mut root, "duration_ticks", unc_int(duration_ticks));
    put(&mut root, "video", video_record);
    put(&mut root, "gots", Doc::list(gots));
    put(&mut root, "sidecars", Doc::list(sidecars));
    let ghost core = manifest_core(
        world@,
        manifest_id@,
        meta@,
        frame_count,
        frame_tick,
        tile_size,
        all,
        sidecar_cid@,
    );
    assert(fields_view(root@) =~= core);

    match audio_cid {
        Some(cid) => {
            let mut audio = new_fields();
            put(&mut audio, "codec", Doc::text("opus"));
            put(&mut audio, "cid", Doc::text(cid));
            put(&mut audio, "mime", Doc::text("audio/opus"));
            let audio_record = Doc::record(audio);
            assert(audio_record@->Record_0 =~= audio_doc(cid@)->Record_0);
            put(&mut root, "audio", audio_record);
        },
        None => {},
    }
    assert(fields_view(root@) =~= core + audio_fields(opt_str(audio_cid)));

    match meta.frame_count_hint {
        Some(hint) => {
            put(&mut root, "source_frame_hint", unc_int(hint));
        },
        None => {},
    }
    assert(fields_view(root@) =~= core + audio_fields(opt_str(audio_cid)) + hint_fields(
        meta@.frame_count_hint,
    ));

    Ok(Doc::record(root))
}

/// A manifest has the field `audio` exactly when it was given an audio payload.
pub proof fn lemma_audio_field(
    world: Seq<char>,
    manifest_id: Seq<char>,
    meta: VideoMetaView,
    frame_count: u64,
    frame_tick: u64,
    tile_size: u16,
    tiles: Seq<TilePayloadView>,
    sidecar_cid: Seq<char>,
    audio_cid: Option<Seq<char>>,
)
    ensures
        manifest_doc(
            world,
            manifest_id,
            meta,
            frame_count,
            frame_tick,
            tile_size,
            tiles,
            sidecar_cid,
            audio_cid,
        ).has_field("audio"@) <==> audio_cid is Some,
        audio_cid matches Some(cid) ==> manifest_doc(
            world,
            manifest_id,
            meta,
            frame_count,
            frame_tick,
            tile_size,
            tiles,
            sidecar_cid,
            audio_cid,
        ).field("audio"@) == Some(audio_doc(cid)),
{
    let core = manifest_core(
        world,
        manifest_id,
        meta,
        frame_count,
        frame_tick,
        tile_size,
        tiles,
        sidecar_cid,
    );
    let fields = core + audio_fields(audio_cid) + hint_fields(meta.frame_count_hint);
    reveal_strlit("audio");
    reveal_strlit("@type");
    reveal_strlit("@id");
    reveal_strlit("@ver");
    reveal_strlit("@world");
    reveal_strlit("profile");
    reveal_strlit("timebase");
    reveal_strlit("duration_ticks");
    reveal_strlit("video");
    reveal_strlit("gots");
    reveal_strlit("sidecars");
    reveal_strlit("source_frame_hint");
    let key = "audio"@;
    assert(core.len() == 10);
    assert forall|k: int| 0 <= k < 10 implies (#[trigger] fields[k]).0 != key by {
        assert(fields[k] == core[k]);
        assert(core[k].0.len() != key.len() || core[k].0[0] != key[0]);
    }
    lemma_first_named_skip(fields, key, 10);
    let rest = fields.subrange(10, fields.len() as int);
    assert(rest =~= audio_fields(audio_cid) + hint_fields(meta.frame_count_hint));
    match audio_cid {
        Some(cid) => {
            assert(rest[0] == ("audio"@, audio_doc(cid)));
            assert(first_named(rest, key) == Some(audio_doc(cid)));
        },
        None => {
            assert(rest =~= hint_fields(meta.frame_count_hint));
            match meta.frame_count_hint {
                Some(h) => {
                    assert(rest[0].0.len() != key.len());
                    assert(rest.drop_first().len() == 0);
                    assert(first_named(rest.drop_first(), key) is None);
                    assert(first_named(rest, key) is None);
                },
                None => {
                    assert(first_named(rest, key) is None);
                },
            }
        },
    }
    assert(manifest_doc(
        world,
        manifest_id,
        meta,
        frame_count,
        frame_tick,
        tile_size,
        tiles,
        sidecar_cid,
        audio_cid,
    ).field(key) == first_named(fields, key));
}

/// A manifest holds its total duration, `frame_tick * frame_count` ticks
/// held at `u64::MAX`, and its temporal groups under the names
/// `duration_ticks` and `gots`.
pub proof fn lemma_manifest_fields(
    world: Seq<char>,
    manifest_id: Seq<char>,
    meta: VideoMetaView,
    frame_count: u64,
    frame_tick: u64,
    tile_size: u16,
    tiles: Seq<TilePayloadView>,
    sidecar_cid: Seq<char>,
    audio_cid: Option<Seq<char>>,
)
    ensures
        manifest_doc(
            world,
            manifest_id,
            meta,
            frame_count,
            frame_tick,
            tile_size,
            tiles,
            sidecar_cid,
            audio_cid,
        ).field("duration_ticks"@) == Some(unc_int_doc(sat_mul(frame_tick, frame_count) as nat)),
        manifest_doc(
            world,
            manifest_id,
            meta,
            frame_count,
            frame_tick,
            tile_size,
            tiles,
            sidecar_cid,
            audio_cid,
        ).field("gots"@) == Some(DocView::List(gots_doc(tiles, frame_count, frame_tick))),
{
    let core = manifest_core(
        world,
        manifest_id,
        meta,
        frame_count,
        frame_tick,
        tile_size,
        tiles,
        sidecar_cid,
    );
    let fields = core + audio_fields(audio_cid) + hint_fields(meta.frame_count_hint);
    reveal_strlit("@type");
    reveal_strlit("@id");
    reveal_strlit("@ver");
    reveal_strlit("@world");
    reveal_strlit("profile");
    reveal_strlit("timebase");
    reveal_strlit("duration_ticks");
    reveal_strlit("video");
    reveal_strlit("gots");
    assert(core.len() == 10);
    assert(manifest_doc(
        world,
        manifest_id,
        meta,
        frame_count,
        frame_tick,
        tile_size,
        tiles,
        sidecar_cid,
        audio_cid,
    ) == DocView::Record(fields));

    let key = "duration_ticks"@;
    assert forall|k: int| 0 <= k < 6 implies (#[trigger] fields[k]).0 != key by {
        assert(fields[k] == core[k]);
        assert(core[k].0.len() != key.len());
    }
    lemma_first_named_skip(fields, key, 6);
    assert(fields.subrange(6, fields.len() as int)[0] == core[6]);

    let key = "gots"@;
    assert forall|k: int| 0 <= k < 8 implies (#[trigger] fields[k]).0 != key by {
        assert(fields[k] == core[k]);
        assert(core[k].0.len() != key.len() || core[k].0[0] != key[0]);
    }
    lemma_first_named_skip(fields, key, 8);
    assert(fields.subrange(8, fields.len() as int)[0] == core[8]);
}

/// The payloads are the tiles, in order, each with some content identifier.
pub open spec fn sealed(tiles: Seq<EncodedTileView>, payloads: Seq<TilePayloadView>) -> bool {
    &&& payloads.len() == tiles.len()
    &&& forall|i: int|
        0 <= i < tiles.len() ==> #[trigger] payloads[i] == tiles[i].with_cid(payloads[i].cid)
}

/// Tiles completed with as many content identifiers are those tiles, in
/// order, each with some content identifier.
pub proof fn lemma_sealed_with(tiles: Seq<EncodedTileView>, cids: Seq<String>)
    requires
        tiles.len() == cids.len(),
    ensures
        sealed(tiles, sealed_with(tiles, cids)),
{
}

/// A sequence of which no element passes a test has an empty filter.
pub proof fn lemma_filter_none<A>(s: Seq<A>, pred: spec_fn(A) -> bool)
    requires
        forall|i: int| 0 <= i < s.len() ==> !pred(#[trigger] s[i]),
    ensures
        s.filter(pred) == Seq::<A>::empty(),
    decreases s.len(),
{
    reveal(Seq::filter);
    if s.len() > 0 {
        let shorter = s.drop_last();
        assert forall|i: int| 0 <= i < shorter.len() implies !pred(#[trigger] shorter[i]) by {
            assert(shorter[i] == s[i]);
        }
        lemma_filter_none(shorter, pred);
    }
}

/// A sequence of which every element passes a test is its own filter.
pub proof fn lemma_filter_every<A>(s: Seq<A>, pred: spec_fn(A) -> bool)
    requires
        forall|i: int| 0 <= i < s.len() ==> pred(#[trigger] s[i]),
    ensures
        s.filter(pred) == s,
    decreases s.len(),
{
    reveal(Seq::filter);
    if s.len() > 0 {
        let shorter = s.drop_last();
        assert forall|i: int| 0 <= i < shorter.len() implies pred(#[trigger] shorter[i]) by {
            assert(shorter[i] == s[i]);
        }
        lemma_filter_every(shorter, pred);
        assert(shorter.push(s.last()) =~= s);
    }
}

/// Where the elements that pass a test are exactly those of one run of a
/// sequence, the filter is that run.
pub proof fn lemma_filter_run<A>(s: Seq<A>, pred: spec_fn(A) -> bool, lo: int, hi: int)
    requires
        0 <= lo <= hi <= s.len(),
        forall|i: int| 0 <= i < s.len() ==> (pred(#[trigger] s[i]) <==> lo <= i < hi),
    ensures
        s.filter(pred) == s.subrange(lo, hi),
{
    let head = s.subrange(0, lo);
    let mine = s.subrange(lo, hi);
    let tail = s.subrange(hi, s.len() as int);
    assert forall|i: int| 0 <= i < head.len() implies !pred(#[trigger] head[i]) by {
        assert(head[i] == s[i]);
    }
    assert forall|i: int| 0 <= i < tail.len() implies !pred(#[trigger] tail[i]) by {
        assert(tail[i] == s[hi + i]);
    }
    assert forall|i: int| 0 <= i < mine.len() implies pred(#[trigger] mine[i]) by {
        assert(mine[i] == s[lo + i]);
    }
    lemma_filter_none(head, pred);
    lemma_filter_none(tail, pred);
    lemma_filter_every(mine, pred);
    assert(s =~= (head + mine) + tail);
    Seq::filter_distributes_over_add(head + mine, tail, pred);
    Seq::filter_distributes_over_add(head, mine, pred);
    assert(s.filter(pred) =~= mine);
}

/// Position `i` of a sequence cut into runs of `per` lies in run `i / per`.
proof fn lemma_run_of(i: int, per: int, f: int)
    requires
        per > 0,
        0 <= i,
        0 <= f,
    ensures
        i < f * per ==> i / per < f,
        i >= f * per + per ==> i / per > f,
        f * per <= i < f * per + per ==> i / per == f && i % per == i - f * per,
{
    if i < f * per {
        assert(i / per < f) by (nonlinear_arith)
            requires
                per > 0,
                0 <= i < f * per,
        ;
    } else if i >= f * per + per {
        assert(i / per > f) by (nonlinear_arith)
            requires
                per > 0,
                i >= f * per + per,
        ;
    } else {
        vstd::arithmetic::div_mod::lemma_fundamental_div_mod_converse(i, per, f, i - f * per);
    }
}

/// The grid of a frame has no negative side.
proof fn lemma_grid_nonnegative(dim: int, tile_size: int)
    requires
        dim >= 0,
        tile_size > 0,
    ensures
        grid(dim, tile_size) >= 0,
{
    assert(dim / tile_size >= 0) by (nonlinear_arith)
        requires
            dim >= 0,
            tile_size > 0,
    ;
}

/// Where a payload made of the tile at position `i` of all tiles stands: in
/// frame `i / (rows * cols)`, and there in row-major order.
proof fn lemma_payload_place(
    frames: Seq<Seq<u8>>,
    width: u32,
    height: u32,
    tile_size: u16,
    payloads: Seq<TilePayloadView>,
    i: int,
)
    requires
        tile_size > 0,
        frames.len() <= u32::MAX,
        tiles_outcome(frames, width, height, tile_size) is Ok,
        sealed(all_tiles(frames, width, height, tile_size), payloads),
        0 <= i < payloads.len(),
    ensures
        grid(width as int, tile_size as int) > 0,
        grid(height as int, tile_size as int) > 0,
        payloads[i].frame_index == i / (grid(height as int, tile_size as int) * grid(
            width as int,
            tile_size as int,
        )),
        payloads[i].tile_y == (i % (grid(height as int, tile_size as int) * grid(
            width as int,
            tile_size as int,
        ))) / grid(width as int, tile_size as int),
        payloads[i].tile_x == (i % (grid(height as int, tile_size as int) * grid(
            width as int,
            tile_size as int,
        ))) % grid(width as int, tile_size as int),
{
    let cols = grid(width as int, tile_size as int);
    let rows = grid(height as int, tile_size as int);
    let per = rows * cols;
    let n = frames.len() as int;
    let whole = all_tiles(frames, width, height, tile_size);
    lemma_grid_nonnegative(width as int, tile_size as int);
    lemma_grid_nonnegative(height as int, tile_size as int);
    assert(whole.len() == n * per);
    assert(per > 0 && rows > 0 && cols > 0) by (nonlinear_arith)
        requires
            per == rows * cols,
            rows >= 0,
            cols >= 0,
            n >= 0,
            0 <= i < n * per,
    ;
    assert(!grid_overflows(cols, rows));
    assert(payloads[i] == whole[i].with_cid(payloads[i].cid));
    assert(0 <= i / per < n) by (nonlinear_arith)
        requires
            0 <= i < n * per,
            per > 0,
    ;
    let within = i % per;
    assert(0 <= within < per) by (nonlinear_arith)
        requires
            within == i % per,
            per > 0,
    ;
    assert(0 <= within / cols < rows && 0 <= within % cols < cols) by (nonlinear_arith)
        requires
            0 <= within < rows * cols,
            cols > 0,
    ;
}

/// The manifest of the tiles of a set of frames has one temporal group for
/// each frame, and the group of frame `f` refers to exactly the tiles of the
/// frame's grid, row after row and each row from left to right.
pub proof fn lemma_manifest_groups(
    frames: Seq<Seq<u8>>,
    width: u32,
    height: u32,
    tile_size: u16,
    payloads: Seq<TilePayloadView>,
    frame_tick: u64,
    f: int,
)
    requires
        tile_size > 0,
        frames.len() <= u32::MAX,
        tiles_outcome(frames, width, height, tile_size) is Ok,
        sealed(all_tiles(frames, width, height, tile_size), payloads),
        0 <= f < frames.len(),
    ensures
        gots_doc(payloads, frames.len() as u64, frame_tick).len() == frames.len(),
        gots_doc(payloads, frames.len() as u64, frame_tick)[f] == got_doc(payloads, f, frame_tick),
        frame_tile_refs(payloads, f).len() == grid(width as int, tile_size as int) * grid(
            height as int,
            tile_size as int,
        ),
        forall|k: int|
            #![trigger frame_tiles(payloads, f)[k]]
            0 <= k < grid(width as int, tile_size as int) * grid(height as int, tile_size as int)
                ==> {
                &&& frame_tiles(payloads, f)[k] == payloads[f * (grid(
                    height as int,
                    tile_size as int,
                ) * grid(width as int, tile_size as int)) + k]
                &&& frame_tiles(payloads, f)[k].tile_y == k / grid(width as int, tile_size as int)
                &&& frame_tiles(payloads, f)[k].tile_x == k % grid(width as int, tile_size as int)
            },
{
    let cols = grid(width as int, tile_size as int);
    let rows = grid(height as int, tile_size as int);
    let per = rows * cols;
    let n = frames.len() as int;
    let whole = all_tiles(frames, width, height, tile_size);
    lemma_grid_nonnegative(width as int, tile_size as int);
    lemma_grid_nonnegative(height as int, tile_size as int);
    assert(per >= 0 && per == cols * rows) by (nonlinear_arith)
        requires
            per == rows * cols,
            rows >= 0,
            cols >= 0,
    ;
    assert(whole.len() == n * per);
    assert(f * per + per <= n * per && 0 <= f * per) by (nonlinear_arith)
        requires
            0 <= f < n,
            per >= 0,
    ;
    let lo = f * per;
    let hi = f * per + per;
    let pred = in_frame(f);
    assert forall|i: int| 0 <= i < payloads.len() implies (pred(#[trigger] payloads[i]) <==> lo
        <= i < hi) by {
        lemma_payload_place(frames, width, height, tile_size, payloads, i);
        lemma_run_of(i, per, f);
    }
    lemma_filter_run(payloads, pred, lo, hi);
    let mine = payloads.subrange(lo, hi);
    assert(frame_tiles(payloads, f) == mine);
    assert forall|k: int| 0 <= k < per implies {
        &&& (#[trigger] frame_tiles(payloads, f)[k]) == payloads[f * per + k]
        &&& frame_tiles(payloads, f)[k].tile_y == k / cols
        &&& frame_tiles(payloads, f)[k].tile_x == k % cols
    } by {
        let i = lo + k;
        assert(mine[k] == payloads[i]);
        lemma_payload_place(frames, width, height, tile_size, payloads, i);
        lemma_run_of(i, per, f);
    }
}

/// No tile of a set of frames names a frame beyond them: the manifest of the
/// tiles of `frames`, built for as many frames, is never refused.
pub proof fn lemma_tiles_within_frames(
    frames: Seq<Seq<u8>>,
    width: u32,
    height: u32,
    tile_size: u16,
    payloads: Seq<TilePayloadView>,
)
    requires
        tile_size > 0,
        0 < frames.len() <= u32::MAX,
        tiles_outcome(frames, width, height, tile_size) is Ok,
        sealed(all_tiles(frames, width, height, tile_size), payloads),
    ensures
        forall|i: int|
            0 <= i < payloads.len() ==> (#[trigger] payloads[i]).frame_index < frames.len(),
        first_stray(payloads, frames.len() as u64) is None,
{
    let per = grid(height as int, tile_size as int) * grid(width as int, tile_size as int);
    let n = frames.len() as int;
    assert forall|i: int| 0 <= i < payloads.len() implies (#[trigger] payloads[i]).frame_index
        < frames.len() by {
        lemma_payload_place(frames, width, height, tile_size, payloads, i);
        assert(per > 0) by (nonlinear_arith)
            requires
                per == grid(height as int, tile_size as int) * grid(
                    width as int,
                    tile_size as int,
                ),
                grid(height as int, tile_size as int) > 0,
                grid(width as int, tile_size as int) > 0,
        ;
        assert(i / per < n) by (nonlinear_arith)
            requires
                0 <= i < n * per,
                per > 0,
        ;
    }
    lemma_first_stray_skip(payloads, frames.len() as u64, payloads.len() as int);
    assert(payloads.subrange(payloads.len() as int, payloads.len() as int).len() == 0);
}

} // verus!
