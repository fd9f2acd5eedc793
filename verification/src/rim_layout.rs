//! Where the pixels of an image lie: rows a pitch apart, and the padding
//! between them never read as pixels.

use crate::binary_io::{le16_at, le32_at, readable, ByteReader};
use crate::rim::{
    lemma_rim_rows_shape, rim_decode, rim_rows, row_pixels, RimFormat, RIM_SIGNATURE,
};
use vstd::prelude::*;

verus! {

/// Pixel `x` of row `y` of the rows read from `pos` on is the value stored
/// `y` pitches and `x` pixels behind `pos`, and stands in the output behind
/// `y` full rows.
pub proof fn lemma_rows_pixel(
    data: Seq<u8>,
    pos: int,
    width: int,
    pitch: int,
    rows: nat,
    y: int,
    x: int,
)
    requires
        rim_rows(data, pos, width, pitch, rows) is Ok,
        0 <= y < rows,
        0 <= x < width,
    ensures
        0 <= y * width + x < rim_rows(data, pos, width, pitch, rows)->Ok_0.0.len(),
        rim_rows(data, pos, width, pitch, rows)->Ok_0.0[y * width + x] == le16_at(
            data,
            pos + y * pitch + 2 * x,
        ) as u16,
    decreases rows,
{
    let pixels = rim_rows(data, pos, width, pitch, rows)->Ok_0.0;
    let rest = rim_rows(data, pos + pitch, width, pitch, (rows - 1) as nat)->Ok_0.0;
    let row = row_pixels(data, pos, width);
    lemma_rim_rows_shape(data, pos, width, pitch, rows);
    lemma_rim_rows_shape(data, pos + pitch, width, pitch, (rows - 1) as nat);
    assert(pixels =~= row + rest);
    assert(0 <= y * width + x < width * rows) by (nonlinear_arith)
        requires
            0 <= y < rows,
            0 <= x < width,
    ;
    if y == 0 {
        assert(y * width + x == x) by (nonlinear_arith)
            requires
                y == 0,
        ;
        assert(pos + y * pitch + 2 * x == pos + 2 * x) by (nonlinear_arith)
            requires
                y == 0,
        ;
        assert(pixels[x] == row[x]);
    } else {
        lemma_rows_pixel(data, pos + pitch, width, pitch, (rows - 1) as nat, y - 1, x);
        assert((y - 1) * width + x == y * width + x - width) by (nonlinear_arith);
        assert(pos + pitch + (y - 1) * pitch == pos + y * pitch) by (nonlinear_arith);
        assert(y * width + x >= width) by (nonlinear_arith)
            requires
                y >= 1,
                0 <= x,
                0 <= width,
        ;
        assert(pixels[y * width + x] == rest[y * width + x - width]);
    }
}

/// In a decoded image, pixel `x` of row `y` is the 16-bit value stored
/// behind the header at `y` pitches and `x` pixels: the padding that the
/// pitch leaves behind each row is skipped and never shows among the pixels.
pub proof fn lemma_image_pixel(data: Seq<u8>, pos: int, y: int, x: int)
    requires
        rim_decode(data, pos) is Ok,
        0 <= y < rim_decode(data, pos)->Ok_0.0.height,
        0 <= x < rim_decode(data, pos)->Ok_0.0.width,
    ensures
        rim_decode(data, pos)->Ok_0.0.wf(),
        0 <= y * rim_decode(data, pos)->Ok_0.0.width + x < rim_decode(data, pos)->Ok_0.0.data.len(),
        rim_decode(data, pos)->Ok_0.0.data[y * rim_decode(data, pos)->Ok_0.0.width + x] == le16_at(
            data,
            pos + 16 + y * rim_decode(data, pos)->Ok_0.0.pitch + 2 * x,
        ) as u16,
        0 <= 2 * x < 2 * rim_decode(data, pos)->Ok_0.0.width <= rim_decode(data, pos)->Ok_0.0.pitch,
{
    let width = le16_at(data, pos + 8);
    let height = le16_at(data, pos + 10);
    let pitch = le16_at(data, pos + 12);
    assert(RimFormat::of_code(le16_at(data, pos + 14)) is Some);
    lemma_rim_rows_shape(data, pos + 16, width, pitch, height as nat);
    lemma_rows_pixel(data, pos + 16, width, pitch, height as nat, y, x);
}

/// An image that decodes ends `height` pitches behind its header, and holds
/// `width * height` pixels.
pub proof fn lemma_image_extent(data: Seq<u8>, pos: int)
    requires
        rim_decode(data, pos) is Ok,
    ensures
        rim_decode(data, pos)->Ok_0.0.wf(),
        rim_decode(data, pos)->Ok_0.1 == pos + 16 + rim_decode(data, pos)->Ok_0.0.height
            * rim_decode(data, pos)->Ok_0.0.pitch,
{
    let width = le16_at(data, pos + 8);
    let height = le16_at(data, pos + 10);
    let pitch = le16_at(data, pos + 12);
    assert(RimFormat::of_code(le16_at(data, pos + 14)) is Some);
    lemma_rim_rows_shape(data, pos + 16, width, pitch, height as nat);
}

/// Rows decode where the pixels of the last row can be read and the
/// position behind its padding is a `u64`: the rows before it lie before
/// it, and no padding need be there.
pub proof fn lemma_rows_in_place_decode(data: Seq<u8>, pos: int, width: int, pitch: int, rows: nat)
    requires
        0 <= pos,
        0 <= width,
        0 <= pitch,
        rows > 0 ==> readable(data, pos + (rows - 1) * pitch, 2 * width),
        pos + rows * pitch <= u64::MAX,
    ensures
        rim_rows(data, pos, width, pitch, rows) is Ok,
    decreases rows,
{
    if rows > 0 {
        assert(0 <= (rows - 1) * pitch && pitch + (rows - 1) * pitch == rows * pitch)
            by (nonlinear_arith)
            requires
                rows >= 1,
                0 <= pitch,
        ;
        if rows > 1 {
            assert(pos + pitch + (rows - 2) * pitch == pos + (rows - 1) * pitch)
                by (nonlinear_arith);
        }
        assert(pos + pitch + (rows - 1) * pitch == pos + rows * pitch) by (nonlinear_arith);
        lemma_rows_in_place_decode(data, pos + pitch, width, pitch, (rows - 1) as nat);
    }
}

/// An image decodes where its header can be read, starts with the
/// signature, names a known format and a pitch that holds a row, the pixels
/// of its last row can be read, and the position behind that row's padding
/// is a `u64`, as every position of a reader is. It has the size and pitch
/// that the header declares, and the reader is left `height` pitches behind
/// the header: the padding is skipped after every row, the last included.
pub proof fn lemma_image_in_place_decodes(data: Seq<u8>, pos: int)
    requires
        readable(data, pos, 16),
        le32_at(data, pos) == RIM_SIGNATURE,
        le16_at(data, pos + 14) <= 1,
        le16_at(data, pos + 12) >= 2 * le16_at(data, pos + 8),
        le16_at(data, pos + 10) > 0 ==> readable(
            data,
            pos + 16 + (le16_at(data, pos + 10) - 1) * le16_at(data, pos + 12),
            2 * le16_at(data, pos + 8),
        ),
        pos + 16 + le16_at(data, pos + 10) * le16_at(data, pos + 12) <= u64::MAX,
    ensures
        rim_decode(data, pos) is Ok,
        rim_decode(data, pos)->Ok_0.0.wf(),
        rim_decode(data, pos)->Ok_0.0.width == le16_at(data, pos + 8),
        rim_decode(data, pos)->Ok_0.0.height == le16_at(data, pos + 10),
        rim_decode(data, pos)->Ok_0.0.pitch == le16_at(data, pos + 12),
        rim_decode(data, pos)->Ok_0.1 == pos + 16 + le16_at(data, pos + 10) * le16_at(
            data,
            pos + 12,
        ),
{
    let width = le16_at(data, pos + 8);
    let height = le16_at(data, pos + 10);
    let pitch = le16_at(data, pos + 12);
    assert(RimFormat::of_code(le16_at(data, pos + 14)) is Some);
    lemma_rows_in_place_decode(data, pos + 16, width, pitch, height as nat);
    lemma_image_extent(data, pos);
}

/// An image that lies whole in the data of a reader, the padding of its
/// last row included, decodes from the reader's position, and the reader is
/// left `height` pitches behind the header.
pub proof fn lemma_image_within_reader_decodes(reader: ByteReader)
    requires
        reader.can_read(16),
        le32_at(reader.data@, reader.pos as int) == RIM_SIGNATURE,
        le16_at(reader.data@, reader.pos + 14) <= 1,
        le16_at(reader.data@, reader.pos + 12) >= 2 * le16_at(reader.data@, reader.pos + 8),
        reader.pos + 16 + le16_at(reader.data@, reader.pos + 10) * le16_at(
            reader.data@,
            reader.pos + 12,
        ) <= reader.data@.len(),
    ensures
        rim_decode(reader.data@, reader.pos as int) is Ok,
        rim_decode(reader.data@, reader.pos as int)->Ok_0.1 == reader.pos + 16 + le16_at(
            reader.data@,
            reader.pos + 10,
        ) * le16_at(reader.data@, reader.pos + 12),
{
    let data = reader.data@;
    let pos = reader.pos as int;
    let width = le16_at(data, pos + 8);
    let height = le16_at(data, pos + 10);
    let pitch = le16_at(data, pos + 12);
    assert(data.len() == reader.data.len());
    if height > 0 {
        assert((height - 1) * pitch + pitch == height * pitch) by (nonlinear_arith);
        assert(0 <= (height - 1) * pitch) by (nonlinear_arith)
            requires
                height >= 1,
                pitch >= 0,
        ;
    }
    lemma_image_in_place_decodes(data, pos);
}

} // verus!
