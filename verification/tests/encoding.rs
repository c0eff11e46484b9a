use vcx_enc::probe::parse_fps_ratio;
use vcx_enc::tile::{
    build_tile_payloads, encode_ic0_alpha_tile, seal_tiles, EncodedTile, TileError,
};
use vcx_enc::timing::{saturating_mul, ticks_per_frame};

fn ramp(len: usize) -> Vec<u8> {
    (0..len).map(|x| (x % 255) as u8).collect()
}

#[test]
fn parse_fps_ok() {
    assert_eq!(parse_fps_ratio("30000/1001"), Some((30000, 1001)));
    assert_eq!(parse_fps_ratio("0/1"), None);
    assert_eq!(parse_fps_ratio("abc"), None);
}

#[test]
fn ic0_alpha_tile_deterministic() {
    let w = 8usize;
    let h = 8usize;
    let y: Vec<u8> = (0..(w * h)).map(|x| (x % 255) as u8).collect();
    let a = encode_ic0_alpha_tile(&y, w, h, 0, 0, 0, 4);
    let b = encode_ic0_alpha_tile(&y, w, h, 0, 0, 0, 4);
    assert_eq!(a, b);
    assert!(a.starts_with(b"IC0T"));
}

#[test]
fn ticks_rounding() {
    // 29.97 fps at 90kHz timebase -> 3003 ticks
    assert_eq!(ticks_per_frame(30000, 1001, 90_000), 3003);
}

#[test]
fn ticks_of_common_rates() {
    assert_eq!(ticks_per_frame(30, 1, 90_000), 3000);
    assert_eq!(ticks_per_frame(25, 1, 90_000), 3600);
    assert_eq!(ticks_per_frame(24000, 1001, 90_000), 3754);
    assert_eq!(ticks_per_frame(60, 1, 90_000), 1500);
}

#[test]
fn ticks_round_halves_up() {
    // 1 * 3 / 2 = 1.5
    assert_eq!(ticks_per_frame(2, 3, 1), 2);
    // 1 * 1 / 3 = 0.33 is held at one tick
    assert_eq!(ticks_per_frame(3, 1, 1), 1);
    // 1 * 5 / 4 = 1.25
    assert_eq!(ticks_per_frame(4, 5, 1), 1);
}

#[test]
fn ticks_are_never_zero() {
    assert_eq!(ticks_per_frame(u32::MAX, 1, 1), 1);
    assert_eq!(ticks_per_frame(u32::MAX, 1, 90_000), 1);
    assert_eq!(ticks_per_frame(1, 1, 0), 1);
    assert_eq!(ticks_per_frame(0, 1, 90_000), 1);
}

#[test]
fn ticks_saturate() {
    assert_eq!(ticks_per_frame(1, u32::MAX, u64::MAX), u64::MAX);
    assert_eq!(ticks_per_frame(2, 2, u64::MAX), u64::MAX / 2);
    assert_eq!(ticks_per_frame(4, 1, u64::MAX), u64::MAX / 4);
}

#[test]
fn saturating_mul_values() {
    assert_eq!(saturating_mul(3000, 2), 6000);
    assert_eq!(saturating_mul(u64::MAX, 2), u64::MAX);
    assert_eq!(saturating_mul(1 << 32, 1 << 32), u64::MAX);
    assert_eq!(saturating_mul(0, u64::MAX), 0);
}

#[test]
fn tile_has_header_and_block() {
    let y = ramp(64);
    let a = encode_ic0_alpha_tile(&y, 8, 8, 0, 0, 0, 4);
    assert_eq!(a.len(), 26 + 16);
    let b = encode_ic0_alpha_tile(&y, 8, 8, 0, 1, 1, 3);
    assert_eq!(b.len(), 26 + 9);
    assert_eq!(&b[..4], b"IC0T");
}

#[test]
fn tile_header_layout() {
    let y = ramp(100);
    let t = encode_ic0_alpha_tile(&y, 10, 10, 0x01020304, 2, 1, 4);
    let expected: Vec<u8> = vec![
        b'I', b'C', b'0', b'T', 1, 1, 0x04, 0x03, 0x02, 0x01, 2, 0, 1, 0, 2, 0, 4, 0, 4, 0, 4, 0,
        0, 0, 0, 0,
    ];
    assert_eq!(&t[..26], &expected[..]);
}

#[test]
fn tile_header_wide_fields() {
    let y = ramp(4);
    let t = encode_ic0_alpha_tile(&y, 2, 2, u32::MAX, 0x1234, 0xabcd, 0);
    let expected: Vec<u8> = vec![
        b'I', b'C', b'0', b'T', 1, 1, 0xff, 0xff, 0xff, 0xff, 0x34, 0x12, 0xcd, 0xab, 0, 0, 0, 0,
        0, 0, 0, 0, 0, 0, 0, 0,
    ];
    assert_eq!(t, expected);
}

#[test]
fn inner_tile_is_a_plain_copy() {
    let y = ramp(64);
    let t = encode_ic0_alpha_tile(&y, 8, 8, 0, 0, 0, 4);
    // crop_w = 4, crop_h = 4
    assert_eq!(&t[14..18], &[4, 0, 4, 0]);
    let block: Vec<u8> = vec![0, 1, 2, 3, 8, 9, 10, 11, 16, 17, 18, 19, 24, 25, 26, 27];
    assert_eq!(&t[26..], &block[..]);
    let t = encode_ic0_alpha_tile(&y, 8, 8, 0, 1, 1, 4);
    let block: Vec<u8> = vec![36, 37, 38, 39, 44, 45, 46, 47, 52, 53, 54, 55, 60, 61, 62, 63];
    assert_eq!(&t[26..], &block[..]);
}

#[test]
fn edge_tiles_are_zero_filled() {
    let y: Vec<u8> = (0..100).map(|x| (x + 1) as u8).collect();
    // right edge: two columns of the frame are left
    let t = encode_ic0_alpha_tile(&y, 10, 10, 0, 2, 0, 4);
    assert_eq!(&t[14..18], &[2, 0, 4, 0]);
    let block: Vec<u8> = vec![9, 10, 0, 0, 19, 20, 0, 0, 29, 30, 0, 0, 39, 40, 0, 0];
    assert_eq!(&t[26..], &block[..]);
    // bottom edge: two rows of the frame are left
    let t = encode_ic0_alpha_tile(&y, 10, 10, 0, 0, 2, 4);
    assert_eq!(&t[14..18], &[4, 0, 2, 0]);
    let block: Vec<u8> = vec![81, 82, 83, 84, 91, 92, 93, 94, 0, 0, 0, 0, 0, 0, 0, 0];
    assert_eq!(&t[26..], &block[..]);
    // corner
    let t = encode_ic0_alpha_tile(&y, 10, 10, 0, 2, 2, 4);
    assert_eq!(&t[14..18], &[2, 0, 2, 0]);
    let block: Vec<u8> = vec![89, 90, 0, 0, 99, 100, 0, 0, 0, 0, 0, 0, 0, 0, 0, 0];
    assert_eq!(&t[26..], &block[..]);
}

#[test]
fn tile_outside_the_frame_is_all_zero() {
    let y = ramp(64);
    let t = encode_ic0_alpha_tile(&y, 8, 8, 0, 5, 5, 4);
    assert_eq!(&t[14..18], &[0, 0, 0, 0]);
    assert_eq!(&t[26..], &[0u8; 16][..]);
}

#[test]
fn tiles_cover_the_grid_row_by_row() {
    let frames = vec![ramp(100), ramp(100)];
    let tiles = build_tile_payloads(&frames, 10, 10, 4).unwrap();
    assert_eq!(tiles.len(), 2 * 3 * 3);
    let mut i = 0;
    for f in 0..2u32 {
        for ty in 0..3u16 {
            for tx in 0..3u16 {
                let t = &tiles[i];
                assert_eq!((t.frame_index, t.tile_y, t.tile_x), (f, ty, tx));
                assert_eq!(t.crop_w, if tx == 2 { 2 } else { 4 });
                assert_eq!(t.crop_h, if ty == 2 { 2 } else { 4 });
                assert_eq!(
                    t.bytes,
                    encode_ic0_alpha_tile(&frames[f as usize], 10, 10, f, tx, ty, 4)
                );
                i += 1;
            }
        }
    }
}

#[test]
fn tiles_of_an_exact_grid() {
    let frames = vec![ramp(64)];
    let tiles = build_tile_payloads(&frames, 8, 8, 4).unwrap();
    assert_eq!(tiles.len(), 4);
    assert_eq!(
        tiles[0],
        EncodedTile {
            frame_index: 0,
            tile_x: 0,
            tile_y: 0,
            crop_w: 4,
            crop_h: 4,
            bytes: encode_ic0_alpha_tile(&frames[0], 8, 8, 0, 0, 0, 4),
        }
    );
    assert!(tiles.iter().all(|t| t.crop_w == 4 && t.crop_h == 4));
}

#[test]
fn tile_larger_than_the_frame() {
    let frames = vec![ramp(6)];
    let tiles = build_tile_payloads(&frames, 3, 2, 64).unwrap();
    assert_eq!(tiles.len(), 1);
    assert_eq!((tiles[0].crop_w, tiles[0].crop_h), (3, 2));
    assert_eq!(tiles[0].bytes.len(), 26 + 64 * 64);
}

#[test]
fn no_frames_give_no_tiles() {
    let frames: Vec<Vec<u8>> = Vec::new();
    assert_eq!(build_tile_payloads(&frames, 8, 8, 4), Ok(Vec::new()));
}

#[test]
fn wrong_plane_size_is_rejected() {
    let frames = vec![ramp(64), ramp(63), ramp(10)];
    assert_eq!(
        build_tile_payloads(&frames, 8, 8, 4),
        Err(TileError::FrameSizeMismatch { frame_index: 1 })
    );
    let frames = vec![ramp(65)];
    assert_eq!(
        build_tile_payloads(&frames, 8, 8, 4),
        Err(TileError::FrameSizeMismatch { frame_index: 0 })
    );
}

#[test]
fn too_many_columns_are_rejected() {
    let frames = vec![vec![0u8; 65537]];
    assert_eq!(build_tile_payloads(&frames, 65537, 1, 1), Err(TileError::TileColumnOverflow));
    let frames = vec![vec![0u8; 65537]];
    assert_eq!(build_tile_payloads(&frames, 1, 65537, 1), Err(TileError::TileRowOverflow));
    // 65536 columns are the most that a grid can have
    let frames = vec![vec![7u8; 65536]];
    let tiles = build_tile_payloads(&frames, 65536, 1, 1).unwrap();
    assert_eq!(tiles.len(), 65536);
    assert_eq!(tiles[65535].tile_x, 65535);
    assert_eq!(tiles[65535].bytes[26], 7);
    // the size of the first plane is looked at before the grid
    let frames = vec![vec![0u8; 5]];
    assert_eq!(
        build_tile_payloads(&frames, 65537, 1, 1),
        Err(TileError::FrameSizeMismatch { frame_index: 0 })
    );
}

#[test]
fn with_cid_keeps_the_tile() {
    let frames = vec![ramp(64)];
    let tile = build_tile_payloads(&frames, 8, 8, 8).unwrap().remove(0);
    let bytes = tile.bytes.clone();
    let payload = tile.with_cid("b3:00".to_string());
    assert_eq!(payload.cid, "b3:00");
    assert_eq!(payload.bytes, bytes);
    assert_eq!(
        (payload.frame_index, payload.tile_x, payload.tile_y, payload.crop_w, payload.crop_h),
        (0, 0, 0, 8, 8)
    );
}

#[test]
fn sealing_pairs_tiles_and_identifiers_in_order() {
    let frames = vec![ramp(64)];
    let tiles = build_tile_payloads(&frames, 8, 8, 4).unwrap();
    let plain = tiles.clone();
    let cids: Vec<String> = (0..4).map(|i| format!("cid{}", i)).collect();
    let payloads = seal_tiles(tiles, &cids).unwrap();
    assert_eq!(payloads.len(), 4);
    for (i, p) in payloads.iter().enumerate() {
        assert_eq!(p.cid, format!("cid{}", i));
        assert_eq!(p.bytes, plain[i].bytes);
        assert_eq!((p.frame_index, p.tile_x, p.tile_y), (0, (i % 2) as u16, (i / 2) as u16));
        assert_eq!((p.crop_w, p.crop_h), (4, 4));
    }
    assert_eq!(seal_tiles(plain.clone(), &cids[..3]), None);
    assert_eq!(seal_tiles(Vec::new(), &cids), None);
    assert_eq!(seal_tiles(Vec::new(), &[]), Some(Vec::new()));
}
