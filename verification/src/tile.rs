//! Tiles: fixed-size square blocks of luma samples cut from a frame, and
//! their binary encoding.

use vstd::prelude::*;
use vstd::arithmetic::div_mod::lemma_fundamental_div_mod_converse;
use crate::frames::{decoded, lemma_decoded_planes, plane_views};

verus! {

/// One encoded tile, before its content identifier is known.
#[derive(Debug, Clone, PartialEq, Eq)]
pub struct EncodedTile {
    /// Index of the frame that the tile was cut from, counted from zero.
    pub frame_index: u32,
    /// Column of the tile in the frame's grid.
    pub tile_x: u16,
    /// Row of the tile in the frame's grid.
    pub tile_y: u16,
    /// Width of the part of the tile that holds samples of the frame.
    pub crop_w: u16,
    /// Height of the part of the tile that holds samples of the frame.
    pub crop_h: u16,
    /// The encoded tile.
    pub bytes: Vec<u8>,
}

/// One encoded tile together with the content identifier of its bytes.
#[derive(Debug, Clone, PartialEq, Eq)]
pub struct TilePayload {
    pub frame_index: u32,
    pub tile_x: u16,
    pub tile_y: u16,
    pub crop_w: u16,
    pub crop_h: u16,
    pub bytes: Vec<u8>,
    /// Content identifier of `bytes`.
    pub cid: String,
}

/// The mathematical value of an [`EncodedTile`].
pub ghost struct EncodedTileView {
    pub frame_index: u32,
    pub tile_x: u16,
    pub tile_y: u16,
    pub crop_w: u16,
    pub crop_h: u16,
    pub bytes: Seq<u8>,
}

/// The mathematical value of a [`TilePayload`].
pub ghost struct TilePayloadView {
    pub frame_index: u32,
    pub tile_x: u16,
    pub tile_y: u16,
    pub crop_w: u16,
    pub crop_h: u16,
    pub bytes: Seq<u8>,
    pub cid: Seq<char>,
}

impl View for EncodedTile {
    type V = EncodedTileView;

    open spec fn view(&self) -> EncodedTileView {
        EncodedTileView {
            frame_index: self.frame_index,
            tile_x: self.tile_x,
            tile_y: self.tile_y,
            crop_w: self.crop_w,
            crop_h: self.crop_h,
            bytes: self.bytes@,
        }
    }
}

impl View for TilePayload {
    type V = TilePayloadView;

    open spec fn view(&self) -> TilePayloadView {
        TilePayloadView {
            frame_index: self.frame_index,
            tile_x: self.tile_x,
            tile_y: self.tile_y,
            crop_w: self.crop_w,
            crop_h: self.crop_h,
            bytes: self.bytes@,
            cid: self.cid@,
        }
    }
}

impl EncodedTileView {
    /// This tile with the content identifier `cid`.
    pub open spec fn with_cid(self, cid: Seq<char>) -> TilePayloadView {
        TilePayloadView {
            frame_index: self.frame_index,
            tile_x: self.tile_x,
            tile_y: self.tile_y,
            crop_w: self.crop_w,
            crop_h: self.crop_h,
            bytes: self.bytes,
            cid,
        }
    }
}

impl EncodedTile {
    /// Completes the tile with the content identifier of its bytes.
    pub fn with_cid(self, cid: String) -> (payload: TilePayload)
        ensures
            payload@ == self@.with_cid(cid@),
    {
        TilePayload {
            frame_index: self.frame_index,
            tile_x: self.tile_x,
            tile_y: self.tile_y,
            crop_w: self.crop_w,
            crop_h: self.crop_h,
            bytes: self.bytes,
            cid,
        }
    }
}

/// The values of a sequence of tile payloads, in order.
pub open spec fn payload_views(tiles: Seq<TilePayload>) -> Seq<TilePayloadView> {
    Seq::new(tiles.len(), |i: int| tiles[i]@)
}

/// The values of a sequence of encoded tiles, in order.
pub open spec fn tile_views(tiles: Seq<EncodedTile>) -> Seq<EncodedTileView> {
    Seq::new(tiles.len(), |i: int| tiles[i]@)
}

/// The tiles, in order, each with the content identifier at its position.
pub open spec fn sealed_with(tiles: Seq<EncodedTileView>, cids: Seq<String>) -> Seq<
    TilePayloadView,
> {
    Seq::new(tiles.len(), |i: int| tiles[i].with_cid(cids[i]@))
}

/// Completes every tile with the content identifier at its position in `cids`.
///
/// Gives nothing when there are not as many identifiers as tiles.
pub fn seal_tiles(tiles: Vec<EncodedTile>, cids: &[String]) -> (r: Option<Vec<TilePayload>>)
    ensures
        match r {
            Some(payloads) => tiles@.len() == cids@.len() && payload_views(payloads@)
                == sealed_with(tile_views(tiles@), cids@),
            None => tiles@.len() != cids@.len(),
        },
{
    if tiles.len() != cids.len() {
        return None;
    }
    let ghost want = sealed_with(tile_views(tiles@), cids@);
    let mut out: Vec<TilePayload> = Vec::new();
    let mut i: usize = 0;
    for tile in it: tiles.into_iter()
        invariant
            it.seq() == tiles@,
            i == it.index(),
            tiles@.len() == cids@.len(),
            want == sealed_with(tile_views(tiles@), cids@),
            out@.len() == i,
            payload_views(out@) == want.subrange(0, i as int),
    {
        let cid = cids[i].clone();
        let ghost before = out@;
        out.push(tile.with_cid(cid));
        i = i + 1;
        assert forall|k: int| 0 <= k < i implies #[trigger] payload_views(out@)[k] == want[k] by {
            if k < i - 1 {
                assert(payload_views(before)[k] == want.subrange(0, i - 1)[k]);
            }
        }
        assert(payload_views(out@) =~= want.subrange(0, i as int));
    }
    assert(want.subrange(0, i as int) =~= want);
    Some(out)
}

/// The four bytes that open every encoded tile: `IC0T`.
pub open spec fn tile_magic() -> Seq<u8> {
    seq![0x49u8, 0x43u8, 0x30u8, 0x54u8]
}

/// The two bytes of `v`, low byte first.
pub open spec fn le16(v: u16) -> Seq<u8> {
    seq![(v % 256) as u8, (v / 256) as u8]
}

/// The four bytes of `v`, lowest byte first.
pub open spec fn le32(v: u32) -> Seq<u8> {
    seq![
        (v % 256) as u8,
        (v / 256 % 256) as u8,
        (v / 65536 % 256) as u8,
        (v / 16777216) as u8,
    ]
}

/// How much of a tile lies inside the frame along one axis: the tile's size,
/// or what is left of the frame from the tile's origin on if that is less.
pub open spec fn crop(tile_size: u16, frame_dim: int, tile_index: u16) -> int {
    let origin = tile_index * tile_size;
    let rest = if frame_dim > origin {
        frame_dim - origin
    } else {
        0
    };
    if tile_size <= rest {
        tile_size as int
    } else {
        rest
    }
}

/// The 26 bytes before the block of an encoded tile: the magic, format
/// version 1, profile 1, then frame index, tile column and row, crop width
/// and height, the tile size twice, and four reserved zero bytes.
pub open spec fn tile_header(
    frame_index: u32,
    tile_x: u16,
    tile_y: u16,
    crop_w: u16,
    crop_h: u16,
    tile_size: u16,
) -> Seq<u8> {
    tile_magic() + seq![1u8, 1u8] + le32(frame_index) + le16(tile_x) + le16(tile_y) + le16(crop_w)
        + le16(crop_h) + le16(tile_size) + le16(tile_size) + seq![0u8, 0u8, 0u8, 0u8]
}

/// The sample at row `row` and column `col` of a tile: the frame's sample
/// inside the crop, zero outside.
pub open spec fn tile_sample(
    plane: Seq<u8>,
    frame_w: int,
    x0: int,
    y0: int,
    crop_w: int,
    crop_h: int,
    row: int,
    col: int,
) -> u8 {
    if row < crop_h && col < crop_w {
        plane[(y0 + row) * frame_w + x0 + col]
    } else {
        0u8
    }
}

/// The block of a tile: `tile_size * tile_size` samples, row by row.
pub open spec fn tile_block(
    plane: Seq<u8>,
    frame_w: int,
    x0: int,
    y0: int,
    crop_w: int,
    crop_h: int,
    tile_size: int,
) -> Seq<u8> {
    Seq::new(
        (tile_size * tile_size) as nat,
        |i: int| tile_sample(plane, frame_w, x0, y0, crop_w, crop_h, i / tile_size, i % tile_size),
    )
}

/// The encoding of the tile in column `tile_x` and row `tile_y` of a frame.
pub open spec fn tile_bytes(
    plane: Seq<u8>,
    frame_w: int,
    frame_h: int,
    frame_index: u32,
    tile_x: u16,
    tile_y: u16,
    tile_size: u16,
) -> Seq<u8> {
    let crop_w = crop(tile_size, frame_w, tile_x);
    let crop_h = crop(tile_size, frame_h, tile_y);
    tile_header(frame_index, tile_x, tile_y, crop_w as u16, crop_h as u16, tile_size) + tile_block(
        plane,
        frame_w,
        tile_x * tile_size,
        tile_y * tile_size,
        crop_w,
        crop_h,
        tile_size as int,
    )
}

fn push_le16(out: &mut Vec<u8>, v: u16)
    ensures
        final(out)@ == old(out)@ + le16(v),
{
    out.push((v % 256) as u8);
    out.push((v / 256) as u8);
    assert(out@ =~= old(out)@ + le16(v));
}

fn push_le32(out: &mut Vec<u8>, v: u32)
    ensures
        final(out)@ == old(out)@ + le32(v),
{
    out.push((v % 256) as u8);
    out.push((v / 256 % 256) as u8);
    out.push((v / 65536 % 256) as u8);
    out.push((v / 16777216) as u8);
    assert(out@ =~= old(out)@ + le32(v));
}

/// The product of two 16-bit numbers fits in 32 bits.
proof fn lemma_u16_product(a: u16, b: u16)
    ensures
        0 <= a * b <= 0xfffe_0001,
{
    assert(0 <= a * b <= 0xfffe_0001) by (nonlinear_arith)
        requires
            0 <= a <= 0xffff,
            0 <= b <= 0xffff,
    ;
}

/// Computes how much of a tile lies inside the frame along one axis.
fn crop_of(tile_size: u16, frame_dim: usize, tile_index: u16) -> (c: u16)
    ensures
        c == crop(tile_size, frame_dim as int, tile_index),
{
    proof {
        lemma_u16_product(tile_index, tile_size);
    }
    let origin: usize = tile_index as usize * tile_size as usize;
    let rest: usize = if frame_dim > origin {
        frame_dim - origin
    } else {
        0
    };
    if tile_size as usize <= rest {
        tile_size
    } else {
        rest as u16
    }
}

/// Position `row * n + col` of a block of side `n` is column `col` of row `row`.
proof fn lemma_block_position(row: int, col: int, n: int)
    requires
        0 <= row < n,
        0 <= col < n,
    ensures
        0 <= row * n + col < n * n,
        (row * n + col) / n == row,
        (row * n + col) % n == col,
{
    lemma_fundamental_div_mod_converse(row * n + col, n, row, col);
    assert(row * n + col < n * n) by (nonlinear_arith)
        requires
            0 <= row < n,
            0 <= col < n,
    ;
    assert(0 <= row * n) by (nonlinear_arith)
        requires
            0 <= row,
            0 <= n,
    ;
}

/// A sample inside the crop lies inside the plane.
proof fn lemma_sample_in_plane(frame_w: int, frame_h: int, x: int, y: int)
    requires
        0 <= x < frame_w,
        0 <= y < frame_h,
    ensures
        0 <= y * frame_w <= y * frame_w + x < frame_w * frame_h,
{
    assert(0 <= y * frame_w && y * frame_w + frame_w <= frame_w * frame_h) by (nonlinear_arith)
        requires
            0 <= y < frame_h,
            0 <= frame_w,
    ;
}

/// The header is 26 bytes long and opens with the magic.
proof fn lemma_tile_header_shape(
    frame_index: u32,
    tile_x: u16,
    tile_y: u16,
    crop_w: u16,
    crop_h: u16,
    tile_size: u16,
)
    ensures
        tile_header(frame_index, tile_x, tile_y, crop_w, crop_h, tile_size).len() == 26,
        tile_header(frame_index, tile_x, tile_y, crop_w, crop_h, tile_size).subrange(0, 4)
            == tile_magic(),
{
    let header = tile_header(frame_index, tile_x, tile_y, crop_w, crop_h, tile_size);
    let to_profile = tile_magic() + seq![1u8, 1u8];
    let to_frame = to_profile + le32(frame_index);
    let to_tile_x = to_frame + le16(tile_x);
    let to_tile_y = to_tile_x + le16(tile_y);
    let to_crop_w = to_tile_y + le16(crop_w);
    let to_crop_h = to_crop_w + le16(crop_h);
    let to_size_w = to_crop_h + le16(tile_size);
    let to_size_h = to_size_w + le16(tile_size);
    assert(to_profile.len() == 6);
    assert(to_frame.len() == 10);
    assert(to_tile_x.len() == 12);
    assert(to_tile_y.len() == 14);
    assert(to_crop_w.len() == 16);
    assert(to_crop_h.len() == 18);
    assert(to_size_w.len() == 20);
    assert(to_size_h.len() == 22);
    assert(header == to_size_h + seq![0u8, 0u8, 0u8, 0u8]);
    assert(header.subrange(0, 4) =~= tile_magic());
}

/// Encodes one tile of a frame.
///
/// `y_plane` holds the samples of the frame row by row, the first
/// `frame_w * frame_h` of them. The result is the 26-byte header and the
/// block of `tile_size * tile_size` samples; what lies beyond the right and
/// bottom edges of the frame is zero.
pub fn encode_ic0_alpha_tile(
    y_plane: &[u8],
    frame_w: usize,
    frame_h: usize,
    frame_index: u32,
    tile_x: u16,
    tile_y: u16,
    tile_size: u16,
) -> (out: Vec<u8>)
    requires
        y_plane@.len() >= frame_w * frame_h,
    ensures
        out@ == tile_bytes(
            y_plane@,
            frame_w as int,
            frame_h as int,
            frame_index,
            tile_x,
            tile_y,
            tile_size,
        ),
        out@.len() == 26 + tile_size * tile_size,
        out@.subrange(0, 4) == tile_magic(),
{
    proof {
        lemma_u16_product(tile_x, tile_size);
        lemma_u16_product(tile_y, tile_size);
        lemma_u16_product(tile_size, tile_size);
    }
    let tile: usize = tile_size as usize;
    let x0: usize = tile_x as usize * tile;
    let y0: usize = tile_y as usize * tile;
    let crop_w: u16 = crop_of(tile_size, frame_w, tile_x);
    let crop_h: u16 = crop_of(tile_size, frame_h, tile_y);

    let mut out: Vec<u8> = Vec::new();
    out.push(0x49);
    out.push(0x43);
    out.push(0x30);
    out.push(0x54);
    out.push(1);
    out.push(1);
    assert(out@ =~= tile_magic() + seq![1u8, 1u8]);
    push_le32(&mut out, frame_index);
    push_le16(&mut out, tile_x);
    push_le16(&mut out, tile_y);
    push_le16(&mut out, crop_w);
    push_le16(&mut out, crop_h);
    push_le16(&mut out, tile_size);
    push_le16(&mut out, tile_size);
    out.push(0);
    out.push(0);
    out.push(0);
    out.push(0);
    let ghost header = tile_header(frame_index, tile_x, tile_y, crop_w, crop_h, tile_size);
    assert(out@ =~= header);
    proof {
        lemma_tile_header_shape(frame_index, tile_x, tile_y, crop_w, crop_h, tile_size);
    }
    let plane_len: usize = y_plane.len();
    let ghost block = tile_block(
        y_plane@,
        frame_w as int,
        x0 as int,
        y0 as int,
        crop_w as int,
        crop_h as int,
        tile as int,
    );

    let mut row: usize = 0;
    while row < tile
        invariant
            row <= tile == tile_size,
            frame_w * frame_h <= y_plane@.len() == plane_len,
            x0 == tile_x * tile_size,
            y0 == tile_y * tile_size,
            crop_w == crop(tile_size, frame_w as int, tile_x),
            crop_h == crop(tile_size, frame_h as int, tile_y),
            header.len() == 26,
            block == tile_block(
                y_plane@,
                frame_w as int,
                x0 as int,
                y0 as int,
                crop_w as int,
                crop_h as int,
                tile as int,
            ),
            0 <= row * tile <= tile * tile,
            out@ == header + block.subrange(0, row * tile),
        decreases tile - row,
    {
        let mut col: usize = 0;
        while col < tile
            invariant
                row < tile == tile_size,
                col <= tile,
                frame_w * frame_h <= y_plane@.len() == plane_len,
                x0 == tile_x * tile_size,
                y0 == tile_y * tile_size,
                crop_w == crop(tile_size, frame_w as int, tile_x),
                crop_h == crop(tile_size, frame_h as int, tile_y),
                header.len() == 26,
                block == tile_block(
                    y_plane@,
                    frame_w as int,
                    x0 as int,
                    y0 as int,
                    crop_w as int,
                    crop_h as int,
                    tile as int,
                ),
                0 <= row * tile + col <= tile * tile,
                out@ == header + block.subrange(0, row * tile + col),
            decreases tile - col,
        {
            proof {
                lemma_block_position(row as int, col as int, tile as int);
            }
            let sample: u8 = if row < crop_h as usize && col < crop_w as usize {
                proof {
                    lemma_sample_in_plane(
                        frame_w as int,
                        frame_h as int,
                        x0 + col,
                        y0 + row,
                    );
                }
                y_plane[(y0 + row) * frame_w + x0 + col]
            } else {
                0
            };
            assert(sample == block[row * tile + col]);
            out.push(sample);
            col = col + 1;
            assert(out@ =~= header + block.subrange(0, row * tile + col));
        }
        row = row + 1;
        assert(row * tile == (row - 1) * tile + tile) by (nonlinear_arith);
        assert(row * tile <= tile * tile) by (nonlinear_arith)
            requires
                row <= tile,
        ;
    }
    assert(block.subrange(0, tile * tile) =~= block);
    out
}

/// Tile encoding is a function of its inputs: two encodings of the same tile
/// of the same plane are the same bytes.
pub proof fn lemma_tile_encoding_deterministic(
    plane: Seq<u8>,
    frame_w: int,
    frame_h: int,
    frame_index: u32,
    tile_x: u16,
    tile_y: u16,
    tile_size: u16,
    first: Seq<u8>,
    second: Seq<u8>,
)
    requires
        first == tile_bytes(plane, frame_w, frame_h, frame_index, tile_x, tile_y, tile_size),
        second == tile_bytes(plane, frame_w, frame_h, frame_index, tile_x, tile_y, tile_size),
    ensures
        first == second,
{
}

/// An encoded tile is 26 bytes of header and `tile_size * tile_size` bytes of
/// block, and opens with the magic.
pub proof fn lemma_tile_bytes_shape(
    plane: Seq<u8>,
    frame_w: int,
    frame_h: int,
    frame_index: u32,
    tile_x: u16,
    tile_y: u16,
    tile_size: u16,
)
    ensures
        tile_bytes(plane, frame_w, frame_h, frame_index, tile_x, tile_y, tile_size).len() == 26
            + tile_size * tile_size,
        tile_bytes(plane, frame_w, frame_h, frame_index, tile_x, tile_y, tile_size).subrange(0, 4)
            == tile_magic(),
{
    lemma_u16_product(tile_size, tile_size);
    let crop_w = crop(tile_size, frame_w, tile_x) as u16;
    let crop_h = crop(tile_size, frame_h, tile_y) as u16;
    lemma_tile_header_shape(frame_index, tile_x, tile_y, crop_w, crop_h, tile_size);
    let header = tile_header(frame_index, tile_x, tile_y, crop_w, crop_h, tile_size);
    let bytes = tile_bytes(plane, frame_w, frame_h, frame_index, tile_x, tile_y, tile_size);
    assert(bytes.subrange(0, 4) =~= header.subrange(0, 4));
}

/// Why a set of frames could not be cut into tiles.
#[derive(Debug, Clone, Copy, PartialEq, Eq)]
pub enum TileError {
    /// The size of one plane does not fit the machine's address space.
    DimensionsOverflow,
    /// A plane does not hold `width * height` samples.
    FrameSizeMismatch { frame_index: u32 },
    /// The grid has more than 65536 columns.
    TileColumnOverflow,
    /// The grid has more than 65536 rows.
    TileRowOverflow,
}

/// How many tiles of size `tile_size` cover `dim` samples: `dim / tile_size`, rounded up.
pub open spec fn grid(dim: int, tile_size: int) -> int {
    if dim % tile_size == 0 {
        dim / tile_size
    } else {
        dim / tile_size + 1
    }
}

/// The tile in column `tx` and row `ty` of frame `f`.
pub open spec fn tile_at(
    plane: Seq<u8>,
    width: u32,
    height: u32,
    tile_size: u16,
    f: int,
    ty: int,
    tx: int,
) -> EncodedTileView {
    EncodedTileView {
        frame_index: f as u32,
        tile_x: tx as u16,
        tile_y: ty as u16,
        crop_w: crop(tile_size, width as int, tx as u16) as u16,
        crop_h: crop(tile_size, height as int, ty as u16) as u16,
        bytes: tile_bytes(
            plane,
            width as int,
            height as int,
            f as u32,
            tx as u16,
            ty as u16,
            tile_size,
        ),
    }
}

/// Every tile of every frame, once: frame after frame, and within a frame
/// row after row, each row from left to right.
pub open spec fn all_tiles(frames: Seq<Seq<u8>>, width: u32, height: u32, tile_size: u16) -> Seq<
    EncodedTileView,
> {
    let cols = grid(width as int, tile_size as int);
    let rows = grid(height as int, tile_size as int);
    Seq::new(
        (frames.len() * (rows * cols)) as nat,
        |i: int|
            tile_at(
                frames[i / (rows * cols)],
                width,
                height,
                tile_size,
                i / (rows * cols),
                (i % (rows * cols)) / cols,
                (i % (rows * cols)) % cols,
            ),
    )
}

/// How many planes at the head of `frames` hold exactly `expected` samples.
pub open spec fn leading_fits(frames: Seq<Seq<u8>>, expected: int) -> int
    decreases frames.len(),
{
    if frames.len() == 0 || frames[0].len() != expected {
        0
    } else {
        1 + leading_fits(frames.drop_first(), expected)
    }
}

/// True when a grid that holds a tile at all has a column whose index does
/// not fit in 16 bits.
pub open spec fn columns_overflow(cols: int, rows: int) -> bool {
    rows >= 1 && cols > 65536
}

/// True when a grid that holds a tile at all has a row whose index does not
/// fit in 16 bits.
pub open spec fn rows_overflow(cols: int, rows: int) -> bool {
    cols >= 1 && rows > 65536
}

/// True when a grid that holds a tile at all has a column or a row whose
/// index does not fit in 16 bits.
pub open spec fn grid_overflows(cols: int, rows: int) -> bool {
    columns_overflow(cols, rows) || rows_overflow(cols, rows)
}

/// What cutting frames into tiles comes to. In order: the error for a plane
/// size that does not fit; no tiles for no frames; the error for a first
/// plane of the wrong size; the error for too many columns, then the one for
/// too many rows; the error for the first later plane of the wrong size; else
/// every tile of every frame.
pub open spec fn tiles_outcome(
    frames: Seq<Seq<u8>>,
    width: u32,
    height: u32,
    tile_size: u16,
) -> Result<Seq<EncodedTileView>, TileError> {
    let cols = grid(width as int, tile_size as int);
    let rows = grid(height as int, tile_size as int);
    let good = leading_fits(frames, width * height);
    if width * height > usize::MAX {
        Err(TileError::DimensionsOverflow)
    } else if frames.len() == 0 {
        Ok(Seq::empty())
    } else if good == 0 {
        Err(TileError::FrameSizeMismatch { frame_index: 0 })
    } else if columns_overflow(cols, rows) {
        Err(TileError::TileColumnOverflow)
    } else if rows_overflow(cols, rows) {
        Err(TileError::TileRowOverflow)
    } else if good < frames.len() {
        Err(TileError::FrameSizeMismatch { frame_index: good as u32 })
    } else {
        Ok(all_tiles(frames, width, height, tile_size))
    }
}

/// The first `n` planes fit, and the next one, if there is one, does not.
proof fn lemma_leading_fits(frames: Seq<Seq<u8>>, expected: int, n: int)
    requires
        0 <= n <= frames.len(),
        forall|i: int| 0 <= i < n ==> (#[trigger] frames[i]).len() == expected,
        n < frames.len() ==> frames[n].len() != expected,
    ensures
        leading_fits(frames, expected) == n,
    decreases n,
{
    if n > 0 {
        let rest = frames.drop_first();
        assert forall|i: int| 0 <= i < n - 1 implies (#[trigger] rest[i]).len() == expected by {
            assert(rest[i] == frames[i + 1]);
        }
        lemma_leading_fits(rest, expected, n - 1);
    }
}

/// The planes that fit at the head of `frames` are some of `frames`.
proof fn lemma_leading_fits_bounds(frames: Seq<Seq<u8>>, expected: int)
    ensures
        0 <= leading_fits(frames, expected) <= frames.len(),
    decreases frames.len(),
{
    if !(frames.len() == 0 || frames[0].len() != expected) {
        lemma_leading_fits_bounds(frames.drop_first(), expected);
    }
}

/// Where the tile in column `tx` and row `ty` of frame `f` stands among all tiles.
proof fn lemma_tile_position(f: int, ty: int, tx: int, rows: int, cols: int)
    requires
        0 <= f,
        0 <= ty < rows,
        0 <= tx < cols,
    ensures
        0 <= ty * cols + tx < rows * cols,
        0 <= f * (rows * cols),
        (f * (rows * cols) + ty * cols + tx) / (rows * cols) == f,
        ((f * (rows * cols) + ty * cols + tx) % (rows * cols)) / cols == ty,
        ((f * (rows * cols) + ty * cols + tx) % (rows * cols)) % cols == tx,
{
    let per = rows * cols;
    let within = ty * cols + tx;
    assert(0 <= ty * cols && ty * cols + cols <= rows * cols) by (nonlinear_arith)
        requires
            0 <= ty < rows,
            0 <= cols,
    ;
    assert(0 <= f * per) by (nonlinear_arith)
        requires
            0 <= f,
            0 <= per,
    ;
    lemma_fundamental_div_mod_converse(f * per + within, per, f, within);
    lemma_fundamental_div_mod_converse(within, cols, ty, tx);
}

/// Computes how many tiles cover `dim` samples.
fn grid_of(dim: usize, tile: usize) -> (n: usize)
    requires
        tile > 0,
    ensures
        n == grid(dim as int, tile as int),
        n <= dim,
{
    if dim % tile == 0 {
        dim / tile
    } else {
        assert(dim / tile < dim) by (nonlinear_arith)
            requires
                tile > 0,
                dim % tile != 0,
                dim >= 0,
        ;
        dim / tile + 1
    }
}

/// Cuts every frame into its grid of tiles and encodes each tile.
///
/// `frames` holds one luma plane of `width * height` samples per frame. The
/// tiles come frame after frame, and within a frame row after row.
pub fn build_tile_payloads(frames: &[Vec<u8>], width: u32, height: u32, tile_size: u16) -> (r:
    Result<Vec<EncodedTile>, TileError>)
    requires
        tile_size > 0,
        frames@.len() <= u32::MAX,
    ensures
        match r {
            Ok(tiles) => tiles_outcome(plane_views(frames@), width, height, tile_size) == Ok::<
                Seq<EncodedTileView>,
                TileError,
            >(tile_views(tiles@)),
            Err(e) => tiles_outcome(plane_views(frames@), width, height, tile_size) == Err::<
                Seq<EncodedTileView>,
                TileError,
            >(e),
        },
{
    let frame_w: usize = width as usize;
    let frame_h: usize = height as usize;
    let tile: usize = tile_size as usize;
    let cols: usize = grid_of(frame_w, tile);
    let rows: usize = grid_of(frame_h, tile);
    let expected: usize = match frame_w.checked_mul(frame_h) {
        Some(v) => v,
        None => {
            return Err(TileError::DimensionsOverflow);
        },
    };
    let ghost planes = plane_views(frames@);
    let ghost per = rows * cols;
    let ghost whole = all_tiles(planes, width, height, tile_size);

    let mut out: Vec<EncodedTile> = Vec::new();
    let mut f: usize = 0;
    assert(tile_views(out@) =~= whole.subrange(0, 0));
    assert(0 * per == 0) by (nonlinear_arith);
    while f < frames.len()
        invariant
            f <= frames@.len() <= u32::MAX,
            frame_w == width,
            frame_h == height,
            tile == tile_size > 0,
            cols == grid(width as int, tile_size as int),
            rows == grid(height as int, tile_size as int),
            expected == width * height,
            planes == plane_views(frames@),
            per == rows * cols,
            whole == all_tiles(planes, width, height, tile_size),
            forall|i: int| 0 <= i < f ==> (#[trigger] planes[i]).len() == expected,
            f >= 1 ==> !grid_overflows(cols as int, rows as int),
            0 <= f * per <= whole.len(),
            out@.len() == f * per,
            tile_views(out@) == whole.subrange(0, f * per),
        decreases frames@.len() - f,
    {
        let y_plane = &frames[f];
        assert(planes[f as int] == y_plane@);
        if y_plane.len() != expected {
            proof {
                lemma_leading_fits(planes, expected as int, f as int);
            }
            return Err(TileError::FrameSizeMismatch { frame_index: f as u32 });
        }
        if rows >= 1 && cols > 65536 {
            proof {
                lemma_leading_fits_bounds(planes.drop_first(), expected as int);
            }
            return Err(TileError::TileColumnOverflow);
        }
        if cols >= 1 && rows > 65536 {
            proof {
                lemma_leading_fits_bounds(planes.drop_first(), expected as int);
            }
            return Err(TileError::TileRowOverflow);
        }
        proof {
            assert((f + 1) * per == f * per + per) by (nonlinear_arith);
            assert((f + 1) * per <= frames@.len() * per) by (nonlinear_arith)
                requires
                    f + 1 <= frames@.len(),
                    per >= 0,
            ;
        }
        let mut tile_y: usize = 0;
        while tile_y < rows
            invariant
                f < frames@.len() <= u32::MAX,
                tile_y <= rows,
                !grid_overflows(cols as int, rows as int),
                frame_w == width,
                frame_h == height,
                tile == tile_size > 0,
                cols == grid(width as int, tile_size as int),
                rows == grid(height as int, tile_size as int),
                y_plane@.len() == width * height,
                planes == plane_views(frames@),
                planes[f as int] == y_plane@,
                per == rows * cols,
                whole == all_tiles(planes, width, height, tile_size),
                0 <= f * per,
                f * per + per <= whole.len(),
                0 <= tile_y * cols <= per,
                out@.len() == f * per + tile_y * cols,
                tile_views(out@) == whole.subrange(0, f * per + tile_y * cols),
            decreases rows - tile_y,
        {
            let mut tile_x: usize = 0;
            assert(tile_y * cols + cols <= rows * cols) by (nonlinear_arith)
                requires
                    tile_y < rows,
                    cols >= 0,
            ;
            while tile_x < cols
                invariant
                    f < frames@.len() <= u32::MAX,
                    tile_y < rows,
                    tile_x <= cols,
                    !grid_overflows(cols as int, rows as int),
                    frame_w == width,
                    frame_h == height,
                    tile == tile_size > 0,
                    cols == grid(width as int, tile_size as int),
                    rows == grid(height as int, tile_size as int),
                    y_plane@.len() == width * height,
                    planes == plane_views(frames@),
                    planes[f as int] == y_plane@,
                    per == rows * cols,
                    whole == all_tiles(planes, width, height, tile_size),
                    0 <= f * per,
                    f * per + per <= whole.len(),
                    0 <= tile_y * cols,
                    tile_y * cols + cols <= per,
                    out@.len() == f * per + tile_y * cols + tile_x,
                    tile_views(out@) == whole.subrange(0, f * per + tile_y * cols + tile_x),
                decreases cols - tile_x,
            {
                proof {
                    lemma_tile_position(
                        f as int,
                        tile_y as int,
                        tile_x as int,
                        rows as int,
                        cols as int,
                    );
                }
                let tx: u16 = tile_x as u16;
                let ty: u16 = tile_y as u16;
                let payload = encode_ic0_alpha_tile(
                    y_plane.as_slice(),
                    frame_w,
                    frame_h,
                    f as u32,
                    tx,
                    ty,
                    tile_size,
                );
                let crop_w: u16 = crop_of(tile_size, frame_w, tx);
                let crop_h: u16 = crop_of(tile_size, frame_h, ty);
                let ghost at = f * per + tile_y * cols + tile_x;
                let made = EncodedTile {
                    frame_index: f as u32,
                    tile_x: tx,
                    tile_y: ty,
                    crop_w,
                    crop_h,
                    bytes: payload,
                };
                assert(at + 1 <= whole.len());
                assert(made@ == whole[at]);
                let ghost before = out@;
                out.push(made);
                tile_x = tile_x + 1;
                assert forall|i: int| 0 <= i < at + 1 implies #[trigger] tile_views(out@)[i]
                    == whole[i] by {
                    if i < at {
                        assert(tile_views(before)[i] == whole.subrange(0, at)[i]);
                    }
                }
                assert(tile_views(out@) =~= whole.subrange(0, at + 1));
            }
            tile_y = tile_y + 1;
            proof {
                assert(tile_y * cols == (tile_y - 1) * cols + cols) by (nonlinear_arith);
                assert(tile_y * cols <= rows * cols) by (nonlinear_arith)
                    requires
                        tile_y <= rows,
                        cols >= 0,
                ;
            }
        }
        f = f + 1;
    }
    proof {
        lemma_leading_fits(planes, expected as int, f as int);
        assert(whole.subrange(0, whole.len() as int) =~= whole);
        assert(frames@.len() * per == whole.len());
        if f == 0 {
            assert(tile_views(out@) =~= Seq::<EncodedTileView>::empty());
        }
    }
    Ok(out)
}

/// Every tile of the grid of every frame is made exactly once: the tile in
/// column `tx` and row `ty` of frame `f` stands at one position among all
/// tiles, and no tile at another position has the same frame, column and row.
pub proof fn lemma_each_tile_once(
    frames: Seq<Seq<u8>>,
    width: u32,
    height: u32,
    tile_size: u16,
    f: int,
    ty: int,
    tx: int,
)
    requires
        tile_size > 0,
        frames.len() <= u32::MAX,
        tiles_outcome(frames, width, height, tile_size) is Ok,
        0 <= f < frames.len(),
        0 <= ty < grid(height as int, tile_size as int),
        0 <= tx < grid(width as int, tile_size as int),
    ensures
        ({
            let cols = grid(width as int, tile_size as int);
            let rows = grid(height as int, tile_size as int);
            let whole = all_tiles(frames, width, height, tile_size);
            let at = f * (rows * cols) + ty * cols + tx;
            &&& 0 <= at < whole.len()
            &&& whole[at] == tile_at(frames[f], width, height, tile_size, f, ty, tx)
            &&& whole[at].frame_index == f && whole[at].tile_y == ty && whole[at].tile_x == tx
            &&& forall|j: int|
                0 <= j < whole.len() && (#[trigger] whole[j]).frame_index == f && whole[j].tile_y
                    == ty && whole[j].tile_x == tx ==> j == at
        }),
{
    let cols = grid(width as int, tile_size as int);
    let rows = grid(height as int, tile_size as int);
    let per = rows * cols;
    let n = frames.len() as int;
    let whole = all_tiles(frames, width, height, tile_size);
    let at = f * per + ty * cols + tx;
    lemma_tile_position(f, ty, tx, rows, cols);
    assert(f * per + per <= n * per) by (nonlinear_arith)
        requires
            0 <= f < n,
            per >= 0,
    ;
    assert(!grid_overflows(cols, rows));
    assert forall|j: int|
        0 <= j < whole.len() && (#[trigger] whole[j]).frame_index == f && whole[j].tile_y == ty
            && whole[j].tile_x == tx implies j == at by {
        let jf = j / per;
        let within = j % per;
        assert(0 <= jf < n && 0 <= within < per && j == jf * per + within) by (nonlinear_arith)
            requires
                0 <= j < n * per,
                per > 0,
                jf == j / per,
                within == j % per,
        ;
        assert(0 <= within / cols < rows && 0 <= within % cols < cols && within == (within / cols)
            * cols + within % cols) by (nonlinear_arith)
            requires
                0 <= within < rows * cols,
                cols > 0,
        ;
    }
}

/// The planes that decoding gives can be cut into tiles: the only errors
/// left are those of a grid with too many columns or rows.
pub proof fn lemma_decoded_frames_fit(
    stream: Seq<u8>,
    width: u32,
    height: u32,
    max_frames: u32,
    decoder_ok: bool,
    tile_size: u16,
)
    requires
        decoded(stream, width, height, max_frames, decoder_ok) is Ok,
    ensures
        ({
            let planes = decoded(stream, width, height, max_frames, decoder_ok)->Ok_0;
            match tiles_outcome(planes, width, height, tile_size) {
                Ok(tiles) => tiles == all_tiles(planes, width, height, tile_size),
                Err(e) => e == TileError::TileColumnOverflow || e == TileError::TileRowOverflow,
            }
        }),
{
    let planes = decoded(stream, width, height, max_frames, decoder_ok)->Ok_0;
    lemma_decoded_planes(stream, width, height, max_frames, decoder_ok);
    lemma_leading_fits(planes, width * height, planes.len() as int);
}

} // verus!
