use vcx_enc::doc::Doc;
use vcx_enc::manifest::{build_manifest, tile_ref, unc_int, unc_rat, ManifestError};
use vcx_enc::meta::VideoMeta;
use vcx_enc::tile::{build_tile_payloads, TilePayload};

fn text(s: &str) -> Doc {
    Doc::Text(s.to_string())
}

fn rec(fields: Vec<(&str, Doc)>) -> Doc {
    Doc::Record(fields.into_iter().map(|(k, v)| (k.to_string(), v)).collect())
}

fn tagged(v: u64) -> Doc {
    rec(vec![("@num", text("int/1")), ("v", text(&v.to_string()))])
}

fn rat(p: u64, q: u64) -> Doc {
    rec(vec![("@num", text("rat/1")), ("p", text(&p.to_string())), ("q", text(&q.to_string()))])
}

fn meta() -> VideoMeta {
    VideoMeta {
        width: 8,
        height: 8,
        fps_num: 30,
        fps_den: 1,
        duration_seconds: None,
        frame_count_hint: None,
        video_codec: "h264".to_string(),
        audio_codec: None,
    }
}

fn tile(frame_index: u32, tile_x: u16, tile_y: u16) -> TilePayload {
    TilePayload {
        frame_index,
        tile_x,
        tile_y,
        crop_w: 4,
        crop_h: 3,
        bytes: vec![frame_index as u8, tile_x as u8, tile_y as u8],
        cid: format!("cid-{}-{}-{}", frame_index, tile_x, tile_y),
    }
}

fn tile_doc(frame_index: u32, tile_x: u16, tile_y: u16) -> Doc {
    rec(vec![
        ("cid", text(&format!("cid-{}-{}-{}", frame_index, tile_x, tile_y))),
        ("mime", text("application/vcx-ic0t")),
        ("role", text("base")),
        ("tile_x", text(&tile_x.to_string())),
        ("tile_y", text(&tile_y.to_string())),
        ("crop_w", text("4")),
        ("crop_h", text("3")),
    ])
}

fn list_of<'a>(d: &'a Doc, key: &str) -> &'a Vec<Doc> {
    match d.get(key) {
        Some(Doc::List(items)) => items,
        other => panic!("no list {}: {:?}", key, other),
    }
}

#[test]
fn tagged_numbers() {
    assert_eq!(unc_int(0), tagged(0));
    assert_eq!(unc_int(6000), rec(vec![("@num", text("int/1")), ("v", text("6000"))]));
    assert_eq!(unc_int(u64::MAX), tagged(u64::MAX));
    assert_eq!(
        unc_rat(30000, 1001),
        rec(vec![("@num", text("rat/1")), ("p", text("30000")), ("q", text("1001"))])
    );
    assert_eq!(unc_rat(1, 90_000), rat(1, 90_000));
}

#[test]
fn tile_reference() {
    let t = TilePayload {
        frame_index: 7,
        tile_x: 65535,
        tile_y: 12,
        crop_w: 64,
        crop_h: 1,
        bytes: vec![1, 2, 3],
        cid: "b3:abc".to_string(),
    };
    assert_eq!(
        tile_ref(&t),
        rec(vec![
            ("cid", text("b3:abc")),
            ("mime", text("application/vcx-ic0t")),
            ("role", text("base")),
            ("tile_x", text("65535")),
            ("tile_y", text("12")),
            ("crop_w", text("64")),
            ("crop_h", text("1")),
        ])
    );
}

#[test]
fn whole_manifest() {
    let tiles = vec![tile(0, 0, 0), tile(0, 1, 0), tile(1, 0, 0), tile(1, 1, 0)];
    let m = build_manifest("a/demo/t/prod", "m:1", &meta(), 2, 3000, 4, &tiles, "cid-side", None)
        .unwrap();
    let expected = rec(vec![
        ("@type", text("vcx/manifest")),
        ("@id", text("m:1")),
        ("@ver", text("1.0")),
        ("@world", text("a/demo/t/prod")),
        ("profile", text("vcx-ic0-alpha-luma-raw/v1")),
        ("timebase", rat(1, 90_000)),
        ("duration_ticks", tagged(6000)),
        (
            "video",
            rec(vec![
                ("codec", text("VCX-IC0-ALPHA")),
                ("width", tagged(8)),
                ("height", tagged(8)),
                ("fps", rat(30, 1)),
                ("frames", tagged(2)),
                ("tile_size", tagged(4)),
            ]),
        ),
        (
            "gots",
            Doc::List(vec![
                rec(vec![
                    ("start_tick", tagged(0)),
                    ("dur_ticks", tagged(3000)),
                    ("tiles", Doc::List(vec![tile_doc(0, 0, 0), tile_doc(0, 1, 0)])),
                ]),
                rec(vec![
                    ("start_tick", tagged(3000)),
                    ("dur_ticks", tagged(3000)),
                    ("tiles", Doc::List(vec![tile_doc(1, 0, 0), tile_doc(1, 1, 0)])),
                ]),
            ]),
        ),
        (
            "sidecars",
            Doc::List(vec![rec(vec![
                ("cid", text("cid-side")),
                ("mime", text("application/vcx-sidecar")),
                ("type", text("vcx/sidecar.media.import.v1")),
            ])]),
        ),
    ]);
    assert_eq!(m, expected);
}

#[test]
fn audio_and_frame_hint_fields() {
    let mut with_hint = meta();
    with_hint.frame_count_hint = Some(240);
    let tiles = vec![tile(0, 0, 0)];

    let m = build_manifest("w", "m", &meta(), 1, 1, 4, &tiles, "s", None).unwrap();
    assert_eq!(m.get("audio"), None);
    assert_eq!(m.get("source_frame_hint"), None);

    let m = build_manifest("w", "m", &meta(), 1, 1, 4, &tiles, "s", Some("cid-audio")).unwrap();
    assert_eq!(
        m.get("audio"),
        Some(&rec(vec![
            ("codec", text("opus")),
            ("cid", text("cid-audio")),
            ("mime", text("audio/opus")),
        ]))
    );
    assert_eq!(m.get("source_frame_hint"), None);

    let m = build_manifest("w", "m", &with_hint, 1, 1, 4, &tiles, "s", None).unwrap();
    assert_eq!(m.get("audio"), None);
    assert_eq!(m.get("source_frame_hint"), Some(&tagged(240)));

    let m = build_manifest("w", "m", &with_hint, 1, 1, 4, &tiles, "s", Some("a")).unwrap();
    match &m {
        Doc::Record(fields) => {
            let keys: Vec<&str> = fields.iter().map(|f| f.0.as_str()).collect();
            assert_eq!(
                keys,
                [
                    "@type", "@id", "@ver", "@world", "profile", "timebase", "duration_ticks",
                    "video", "gots", "sidecars", "audio", "source_frame_hint"
                ]
            );
        }
        other => panic!("not a record: {:?}", other),
    }
}

#[test]
fn zero_frame_count_is_rejected() {
    assert_eq!(
        build_manifest("w", "m", &meta(), 0, 3000, 4, &[], "s", None),
        Err(ManifestError::ZeroFrameCount)
    );
    // the frame count is looked at before the tiles
    assert_eq!(
        build_manifest("w", "m", &meta(), 0, 3000, 4, &[tile(5, 0, 0)], "s", None),
        Err(ManifestError::ZeroFrameCount)
    );
}

#[test]
fn tile_outside_the_frames_is_rejected() {
    let tiles = vec![tile(0, 0, 0), tile(2, 0, 0), tile(9, 0, 0)];
    assert_eq!(
        build_manifest("w", "m", &meta(), 2, 3000, 4, &tiles, "s", None),
        Err(ManifestError::TileFrameIndexOutOfBounds { frame_index: 2 })
    );
    let tiles = vec![tile(u32::MAX, 0, 0)];
    assert_eq!(
        build_manifest("w", "m", &meta(), 1, 3000, 4, &tiles, "s", None),
        Err(ManifestError::TileFrameIndexOutOfBounds { frame_index: u32::MAX })
    );
    let tiles = vec![tile(1, 0, 0)];
    assert!(build_manifest("w", "m", &meta(), 2, 3000, 4, &tiles, "s", None).is_ok());
}

#[test]
fn groups_keep_the_order_of_their_tiles() {
    // the tiles of the two frames are mixed; each group keeps its own in order
    let tiles = vec![tile(1, 0, 0), tile(0, 1, 1), tile(1, 1, 0), tile(0, 0, 0), tile(1, 0, 1)];
    let m = build_manifest("w", "m", &meta(), 3, 10, 4, &tiles, "s", None).unwrap();
    let gots = list_of(&m, "gots");
    assert_eq!(gots.len(), 3);
    assert_eq!(list_of(&gots[0], "tiles"), &vec![tile_doc(0, 1, 1), tile_doc(0, 0, 0)]);
    assert_eq!(
        list_of(&gots[1], "tiles"),
        &vec![tile_doc(1, 0, 0), tile_doc(1, 1, 0), tile_doc(1, 0, 1)]
    );
    assert_eq!(list_of(&gots[2], "tiles"), &Vec::<Doc>::new());
    assert_eq!(gots[2].get("start_tick"), Some(&tagged(20)));
}

#[test]
fn one_group_per_frame_with_the_grid_in_row_major_order() {
    let frames: Vec<Vec<u8>> = (0..3).map(|f| vec![f as u8; 70]).collect();
    let tiles: Vec<TilePayload> = build_tile_payloads(&frames, 10, 7, 4)
        .unwrap()
        .into_iter()
        .enumerate()
        .map(|(i, t)| t.with_cid(format!("cid{}", i)))
        .collect();
    let m = build_manifest("w", "m", &meta(), 3, 3003, 4, &tiles, "s", None).unwrap();
    let gots = list_of(&m, "gots");
    assert_eq!(gots.len(), 3);
    for (f, got) in gots.iter().enumerate() {
        assert_eq!(got.get("start_tick"), Some(&tagged(3003 * f as u64)));
        assert_eq!(got.get("dur_ticks"), Some(&tagged(3003)));
        let refs = list_of(got, "tiles");
        // 3 columns, 2 rows
        assert_eq!(refs.len(), 6);
        for (k, r) in refs.iter().enumerate() {
            assert_eq!(r.get("cid"), Some(&text(&format!("cid{}", f * 6 + k))));
            assert_eq!(r.get("tile_x"), Some(&text(&(k % 3).to_string())));
            assert_eq!(r.get("tile_y"), Some(&text(&(k / 3).to_string())));
            assert_eq!(r.get("crop_w"), Some(&text(if k % 3 == 2 { "2" } else { "4" })));
            assert_eq!(r.get("crop_h"), Some(&text(if k / 3 == 1 { "3" } else { "4" })));
        }
    }
}

#[test]
fn ticks_saturate_in_the_manifest() {
    let tiles = vec![tile(0, 0, 0)];
    let m = build_manifest("w", "m", &meta(), 3, u64::MAX / 2, 4, &tiles, "s", None).unwrap();
    assert_eq!(m.get("duration_ticks"), Some(&tagged(u64::MAX)));
    let gots = list_of(&m, "gots");
    assert_eq!(gots[0].get("start_tick"), Some(&tagged(0)));
    assert_eq!(gots[1].get("start_tick"), Some(&tagged(u64::MAX / 2)));
    assert_eq!(gots[2].get("start_tick"), Some(&tagged(u64::MAX - 1)));
    let m = build_manifest("w", "m", &meta(), 4, u64::MAX / 2, 4, &tiles, "s", None).unwrap();
    assert_eq!(list_of(&m, "gots")[3].get("start_tick"), Some(&tagged(u64::MAX)));
    assert_eq!(list_of(&m, "gots")[3].get("dur_ticks"), Some(&tagged(u64::MAX / 2)));
}

#[test]
fn manifest_is_the_same_every_time() {
    let tiles = vec![tile(0, 0, 0), tile(1, 0, 0)];
    let a = build_manifest("w", "m", &meta(), 2, 3000, 4, &tiles, "s", Some("a")).unwrap();
    let b = build_manifest("w", "m", &meta(), 2, 3000, 4, &tiles, "s", Some("a")).unwrap();
    assert_eq!(a, b);
}
