//! Cutting a decoder's raw output into frames and keeping their luma planes.
//!
//! The decoder writes one record per frame, back to back: the luma plane of
//! `width * height` bytes, then the two chroma planes at a quarter of that
//! each, `width * height * 3 / 2` bytes in all.

use vstd::prelude::*;
use vstd::slice::{slice_subrange, slice_to_vec};

verus! {

/// Why a decoder's output gave no frames.
#[derive(Debug, Clone, Copy, PartialEq, Eq)]
pub enum FrameError {
    /// The size of one record does not fit the machine's address space.
    FrameSizeOverflow,
    /// The output ends inside a record.
    TruncatedFrame,
    /// The decoder reported failure.
    DecoderFailed,
    /// The output holds no complete record.
    NoFramesDecoded,
}

/// The number of bytes of `stream` from position `pos` on.
pub open spec fn bytes_left(stream: Seq<u8>, pos: int) -> int {
    if pos <= stream.len() {
        stream.len() - pos
    } else {
        0
    }
}

/// What reading a record of `len` bytes comes to when `left` bytes remain:
/// a record, a clean end, or the error for a record cut short. A record of
/// no bytes is always there.
pub open spec fn record_status(left: int, len: int) -> Result<bool, FrameError> {
    if len == 0 || left >= len {
        Ok(true)
    } else if left == 0 {
        Ok(false)
    } else {
        Err(FrameError::TruncatedFrame)
    }
}

/// A buffer after an attempt to fill it from `stream` at `pos`: the bytes
/// that were there to take, then what the buffer held before.
pub open spec fn filled(stream: Seq<u8>, pos: int, buf: Seq<u8>) -> Seq<u8> {
    let left = bytes_left(stream, pos);
    if left == 0 {
        buf
    } else {
        let n = if left < buf.len() {
            left
        } else {
            buf.len() as int
        };
        stream.subrange(pos, pos + n) + buf.subrange(n, buf.len() as int)
    }
}

/// Fills `buf` with the record that starts at `pos` in `stream`.
///
/// Returns `true` when the record is complete and `false` when the stream
/// ends at or before `pos`; a stream that ends inside the record is an error.
pub fn read_exact_or_eof(stream: &[u8], pos: usize, buf: &mut Vec<u8>) -> (r: Result<
    bool,
    FrameError,
>)
    ensures
        r == record_status(bytes_left(stream@, pos as int), old(buf)@.len() as int),
        final(buf)@ == filled(stream@, pos as int, old(buf)@),
{
    let left: usize = if pos <= stream.len() {
        stream.len() - pos
    } else {
        0
    };
    let want: usize = buf.len();
    let mut off: usize = 0;
    assert(stream@.len() <= usize::MAX);
    while off < want
        invariant
            off <= want == buf@.len() == old(buf)@.len(),
            stream@.len() <= usize::MAX,
            left == bytes_left(stream@, pos as int),
            left > 0 ==> pos + left == stream@.len(),
            off <= left,
            off == 0 ==> buf@ == old(buf)@,
            off > 0 ==> buf@ == stream@.subrange(pos as int, pos + off) + old(buf)@.subrange(
                off as int,
                want as int,
            ),
        decreases want - off,
    {
        if off == left {
            if off == 0 {
                return Ok(false);
            }
            return Err(FrameError::TruncatedFrame);
        }
        buf.set(off, stream[pos + off]);
        off = off + 1;
        assert(buf@ =~= stream@.subrange(pos as int, pos + off) + old(buf)@.subrange(
            off as int,
            want as int,
        ));
    }
    assert(buf@ =~= filled(stream@, pos as int, old(buf)@));
    Ok(true)
}

/// The size of the luma plane of one frame.
pub open spec fn luma_size(width: u32, height: u32) -> int {
    width * height
}

/// The size of one record of the decoder's output.
pub open spec fn record_size(width: u32, height: u32) -> int {
    width * height * 3 / 2
}

/// How many records are read from a stream of `len` bytes: the complete ones,
/// up to `max`.
pub open spec fn records_read(len: int, record: int, max: int) -> int {
    if record == 0 || len / record >= max {
        max
    } else {
        len / record
    }
}

/// The luma planes of the first `count` records of `stream`.
pub open spec fn luma_planes(stream: Seq<u8>, width: u32, height: u32, count: int) -> Seq<
    Seq<u8>,
> {
    Seq::new(
        count as nat,
        |i: int|
            stream.subrange(
                i * record_size(width, height),
                i * record_size(width, height) + luma_size(width, height),
            ),
    )
}

/// What decoding comes to. In order: the error for a record size that does
/// not fit; the error for a stream that ends inside a record before `max`
/// records were read; the error for a decoder that failed; the error for no
/// record at all; else the luma planes of the records read.
pub open spec fn decoded(
    stream: Seq<u8>,
    width: u32,
    height: u32,
    max_frames: u32,
    decoder_ok: bool,
) -> Result<Seq<Seq<u8>>, FrameError> {
    let record = record_size(width, height);
    let count = records_read(stream.len() as int, record, max_frames as int);
    if width * height * 3 > usize::MAX {
        Err(FrameError::FrameSizeOverflow)
    } else if count < max_frames && stream.len() > count * record {
        Err(FrameError::TruncatedFrame)
    } else if !decoder_ok {
        Err(FrameError::DecoderFailed)
    } else if count == 0 {
        Err(FrameError::NoFramesDecoded)
    } else {
        Ok(luma_planes(stream, width, height, count))
    }
}

/// The contents of a sequence of planes, in order.
pub open spec fn plane_views(frames: Seq<Vec<u8>>) -> Seq<Seq<u8>> {
    Seq::new(frames.len(), |i: int| frames[i]@)
}

/// A stream that still holds a whole record at `pos = k * record` holds more
/// than `k` complete records; one that holds less than a whole record there
/// holds exactly `k`.
proof fn lemma_records(len: int, record: int, k: int)
    requires
        record > 0,
        k >= 0,
        k * record <= len,
    ensures
        len - k * record >= record ==> len / record > k,
        len - k * record < record ==> len / record == k,
{
    assert((k + 1) * record == k * record + record) by (nonlinear_arith);
    if len - k * record >= record {
        assert(len / record > k) by (nonlinear_arith)
            requires
                record > 0,
                (k + 1) * record <= len,
        ;
    } else {
        assert(len / record == k) by (nonlinear_arith)
            requires
                record > 0,
                k * record <= len < (k + 1) * record,
        ;
    }
}

/// Reads up to `max_frames` frames from a decoder's raw output and keeps the
/// luma plane of each.
///
/// `stream` is everything the decoder wrote, and `decoder_ok` tells whether
/// it reported success when it ended.
pub fn decode_luma_frames(
    stream: &[u8],
    width: u32,
    height: u32,
    max_frames: u32,
    decoder_ok: bool,
) -> (r: Result<Vec<Vec<u8>>, FrameError>)
    ensures
        match r {
            Ok(frames) => decoded(stream@, width, height, max_frames, decoder_ok) == Ok::<
                Seq<Seq<u8>>,
                FrameError,
            >(plane_views(frames@)),
            Err(e) => decoded(stream@, width, height, max_frames, decoder_ok) == Err::<
                Seq<Seq<u8>>,
                FrameError,
            >(e),
        },
{
    let y_size: usize = match (width as usize).checked_mul(height as usize) {
        Some(v) => v,
        None => {
            assert(width * height * 3 > usize::MAX) by (nonlinear_arith)
                requires
                    width * height > usize::MAX,
            ;
            return Err(FrameError::FrameSizeOverflow);
        },
    };
    let frame_size: usize = match y_size.checked_mul(3) {
        Some(v) => v / 2,
        None => {
            return Err(FrameError::FrameSizeOverflow);
        },
    };
    assert(y_size == luma_size(width, height));
    assert(frame_size == record_size(width, height));
    assert(y_size <= frame_size) by {
        assert(y_size * 3 / 2 >= y_size);
    }

    let mut frames: Vec<Vec<u8>> = Vec::new();
    let mut pos: usize = 0;
    let total: usize = stream.len();
    assert(0 * frame_size == 0) by (nonlinear_arith);
    let mut clean_end: bool = false;
    while frames.len() < max_frames as usize && !clean_end
        invariant
            y_size == luma_size(width, height),
            frame_size == record_size(width, height),
            width * height * 3 <= usize::MAX,
            y_size <= frame_size,
            frames@.len() <= max_frames,
            pos == frames@.len() * frame_size,
            pos <= stream@.len() == total,
            clean_end ==> frame_size > 0 && pos == stream@.len(),
            plane_views(frames@) == luma_planes(stream@, width, height, frames@.len() as int),
        decreases (max_frames - frames@.len()) + (if clean_end { 0int } else { 1int }),
    {
        let mut frame: Vec<u8> = vec![0u8; frame_size];
        let ghost k = frames@.len() as int;
        proof {
            if frame_size > 0 {
                lemma_records(stream@.len() as int, frame_size as int, k);
            }
        }
        let status = read_exact_or_eof(stream, pos, &mut frame);
        assert(bytes_left(stream@, pos as int) == stream@.len() - pos);
        match status {
            Err(e) => {
                return Err(e);
            },
            Ok(false) => {
                clean_end = true;
            },
            Ok(true) => {
                assert(pos + frame_size <= stream@.len());
                assert(frame@ =~= stream@.subrange(pos as int, pos + frame_size));
                let plane = slice_to_vec(slice_subrange(frame.as_slice(), 0, y_size));
                assert(plane@ =~= stream@.subrange(pos as int, pos + y_size));
                let ghost before = frames@;
                frames.push(plane);
                assert((k + 1) * frame_size == k * frame_size + frame_size) by (nonlinear_arith);
                pos = pos + frame_size;
                assert forall|i: int| 0 <= i < k + 1 implies #[trigger] plane_views(frames@)[i]
                    == luma_planes(stream@, width, height, k + 1)[i] by {
                    if i < k {
                        assert(plane_views(before)[i] == luma_planes(stream@, width, height, k)[i]);
                    }
                }
                assert(plane_views(frames@) =~= luma_planes(
                    stream@,
                    width,
                    height,
                    frames@.len() as int,
                ));
            },
        }
    }
    proof {
        let k = frames@.len() as int;
        let len = stream@.len() as int;
        let record = frame_size as int;
        if record > 0 {
            lemma_records(len, record, k);
            assert(len / record >= k) by (nonlinear_arith)
                requires
                    record > 0,
                    k >= 0,
                    k * record <= len,
            ;
        }
    }
    if !decoder_ok {
        return Err(FrameError::DecoderFailed);
    }
    if frames.len() == 0 {
        return Err(FrameError::NoFramesDecoded);
    }
    Ok(frames)
}

/// Every plane that decoding gives holds `width * height` samples, there are
/// at most `max_frames` of them, and the size of a plane fits the machine.
pub proof fn lemma_decoded_planes(
    stream: Seq<u8>,
    width: u32,
    height: u32,
    max_frames: u32,
    decoder_ok: bool,
)
    requires
        decoded(stream, width, height, max_frames, decoder_ok) is Ok,
    ensures
        ({
            let planes = decoded(stream, width, height, max_frames, decoder_ok)->Ok_0;
            &&& 0 < planes.len() <= max_frames
            &&& width * height <= usize::MAX
            &&& forall|i: int|
                0 <= i < planes.len() ==> (#[trigger] planes[i]).len() == width * height
        }),
{
    let record = record_size(width, height);
    let luma = luma_size(width, height);
    let len = stream.len() as int;
    let count = records_read(len, record, max_frames as int);
    let planes = luma_planes(stream, width, height, count);
    assert(0 <= luma <= record && luma <= width * height * 3) by (nonlinear_arith)
        requires
            luma == width * height,
            record == width * height * 3 / 2,
            width >= 0,
            height >= 0,
    ;
    assert forall|i: int| 0 <= i < planes.len() implies (#[trigger] planes[i]).len() == luma by {
        if record > 0 {
            assert(count <= len / record);
            assert((i + 1) * record <= len && 0 <= i * record && (i + 1) * record == i * record
                + record) by (nonlinear_arith)
                requires
                    0 <= i < count,
                    count <= len / record,
                    record > 0,
                    len >= 0,
            ;
        } else {
            assert(i * record == 0) by (nonlinear_arith)
                requires
                    record == 0,
            ;
        }
    }
}

} // verus!
