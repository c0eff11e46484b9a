use vcx_enc::frames::{decode_luma_frames, read_exact_or_eof, FrameError};

/// A raw stream of `count` frames of 4 x 2 pixels: 8 luma bytes that hold the
/// frame's number, then 4 chroma bytes that hold 0xcc.
fn stream_of(count: u8) -> Vec<u8> {
    let mut s = Vec::new();
    for f in 0..count {
        s.extend_from_slice(&[f + 1; 8]);
        s.extend_from_slice(&[0xcc; 4]);
    }
    s
}

#[test]
fn reads_a_whole_record() {
    let stream = [1u8, 2, 3, 4, 5, 6];
    let mut buf = vec![0u8; 3];
    assert_eq!(read_exact_or_eof(&stream, 0, &mut buf), Ok(true));
    assert_eq!(buf, [1, 2, 3]);
    assert_eq!(read_exact_or_eof(&stream, 3, &mut buf), Ok(true));
    assert_eq!(buf, [4, 5, 6]);
    assert_eq!(read_exact_or_eof(&stream, 2, &mut buf), Ok(true));
    assert_eq!(buf, [3, 4, 5]);
}

#[test]
fn clean_end_of_stream() {
    let stream = [1u8, 2, 3];
    let mut buf = vec![9u8; 3];
    assert_eq!(read_exact_or_eof(&stream, 3, &mut buf), Ok(false));
    assert_eq!(buf, [9, 9, 9]);
    assert_eq!(read_exact_or_eof(&stream, 4, &mut buf), Ok(false));
    assert_eq!(read_exact_or_eof(&[], 0, &mut buf), Ok(false));
    assert_eq!(buf, [9, 9, 9]);
}

#[test]
fn record_cut_short() {
    let stream = [1u8, 2, 3, 4, 5];
    let mut buf = vec![9u8; 3];
    assert_eq!(read_exact_or_eof(&stream, 3, &mut buf), Err(FrameError::TruncatedFrame));
    assert_eq!(buf, [4, 5, 9]);
    let mut buf = vec![9u8; 3];
    assert_eq!(read_exact_or_eof(&stream, 4, &mut buf), Err(FrameError::TruncatedFrame));
    assert_eq!(buf, [5, 9, 9]);
}

#[test]
fn empty_record_is_always_there() {
    let mut buf: Vec<u8> = Vec::new();
    assert_eq!(read_exact_or_eof(&[1, 2], 0, &mut buf), Ok(true));
    assert_eq!(read_exact_or_eof(&[1, 2], 2, &mut buf), Ok(true));
    assert_eq!(read_exact_or_eof(&[], 0, &mut buf), Ok(true));
    assert!(buf.is_empty());
}

#[test]
fn keeps_the_luma_plane_of_each_frame() {
    let frames = decode_luma_frames(&stream_of(3), 4, 2, 8, true).unwrap();
    assert_eq!(frames, vec![vec![1u8; 8], vec![2u8; 8], vec![3u8; 8]]);
}

#[test]
fn stops_at_the_frame_limit() {
    let frames = decode_luma_frames(&stream_of(3), 4, 2, 2, true).unwrap();
    assert_eq!(frames, vec![vec![1u8; 8], vec![2u8; 8]]);
    let frames = decode_luma_frames(&stream_of(3), 4, 2, 3, true).unwrap();
    assert_eq!(frames.len(), 3);
    // what follows the last frame that is read is not looked at
    let mut stream = stream_of(2);
    stream.extend_from_slice(&[7, 7, 7]);
    let frames = decode_luma_frames(&stream, 4, 2, 2, true).unwrap();
    assert_eq!(frames.len(), 2);
}

#[test]
fn odd_plane_sizes() {
    // 3 x 3: 9 luma bytes in a record of 13
    let stream: Vec<u8> = (0..26).collect();
    let frames = decode_luma_frames(&stream, 3, 3, 10, true).unwrap();
    assert_eq!(frames, vec![(0..9).collect::<Vec<u8>>(), (13..22).collect::<Vec<u8>>()]);
    // 1 x 1: one luma byte in a record of one
    let frames = decode_luma_frames(&[5, 6, 7], 1, 1, 10, true).unwrap();
    assert_eq!(frames, vec![vec![5], vec![6], vec![7]]);
}

#[test]
fn truncated_stream_is_an_error() {
    let mut stream = stream_of(2);
    stream.truncate(23);
    assert_eq!(decode_luma_frames(&stream, 4, 2, 8, true), Err(FrameError::TruncatedFrame));
    stream.truncate(13);
    assert_eq!(decode_luma_frames(&stream, 4, 2, 8, true), Err(FrameError::TruncatedFrame));
    stream.truncate(5);
    assert_eq!(decode_luma_frames(&stream, 4, 2, 8, true), Err(FrameError::TruncatedFrame));
    // truncation is reported before the decoder's failure
    assert_eq!(decode_luma_frames(&stream, 4, 2, 8, false), Err(FrameError::TruncatedFrame));
}

#[test]
fn failed_decoder_discards_the_frames() {
    assert_eq!(decode_luma_frames(&stream_of(3), 4, 2, 8, false), Err(FrameError::DecoderFailed));
    assert_eq!(decode_luma_frames(&[], 4, 2, 8, false), Err(FrameError::DecoderFailed));
}

#[test]
fn no_frames_is_an_error() {
    assert_eq!(decode_luma_frames(&[], 4, 2, 8, true), Err(FrameError::NoFramesDecoded));
    assert_eq!(decode_luma_frames(&stream_of(3), 4, 2, 0, true), Err(FrameError::NoFramesDecoded));
}

#[test]
fn record_too_large_for_the_machine() {
    assert_eq!(
        decode_luma_frames(&[], u32::MAX, u32::MAX, 1, true),
        Err(FrameError::FrameSizeOverflow)
    );
}
