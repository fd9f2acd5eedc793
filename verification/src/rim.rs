//! The RIM raster image: a small header, then rows of packed 16-bit pixels,
//! each row padded to the image's pitch.

use crate::binary_io::{le16_at, le32_at, read_le16, read_le32, readable, ByteReader};
use crate::error::{Failure, ZfsError};
use vstd::prelude::*;

verus! {

/// The four magic bytes `RIMF`, read as a little-endian value.
pub const RIM_SIGNATURE: u32 = 0x464d4952;

/// The pixel format of a RIM image.
#[derive(Clone, Copy, Debug, PartialEq, Eq, Structural)]
pub enum RimFormat {
    /// 16-bit RGB, with 1 ignored, 5 red, 5 green, and 5 blue bits.
    RGB555,
    /// 16-bit RGB, with 5 red, 6 green, and 5 blue bits.
    RGB565,
}

impl RimFormat {
    /// The format that a header's format code stands for, if any.
    pub open spec fn of_code(code: int) -> Option<RimFormat> {
        if code == 0 {
            Some(RimFormat::RGB555)
        } else if code == 1 {
            Some(RimFormat::RGB565)
        } else {
            None
        }
    }

    /// The format that a header's format code stands for, if any.
    pub fn from_code(code: u16) -> (r: Option<RimFormat>)
        ensures
            r == RimFormat::of_code(code as int),
    {
        if code == 0 {
            Some(RimFormat::RGB555)
        } else if code == 1 {
            Some(RimFormat::RGB565)
        } else {
            None
        }
    }

    /// The red channel of a packed pixel, widened to 8 bits.
    pub open spec fn red(self, px: u16) -> u8 {
        match self {
            RimFormat::RGB555 => (((px >> 10) & 31) << 3) as u8,
            RimFormat::RGB565 => (((px >> 11) & 31) << 3) as u8,
        }
    }

    /// The green channel of a packed pixel, widened to 8 bits.
    pub open spec fn green(self, px: u16) -> u8 {
        match self {
            RimFormat::RGB555 => (((px >> 5) & 31) << 3) as u8,
            RimFormat::RGB565 => (((px >> 5) & 63) << 2) as u8,
        }
    }

    /// The blue channel of a packed pixel, widened to 8 bits.
    pub open spec fn blue(self, px: u16) -> u8 {
        ((px & 31) << 3) as u8
    }

    /// The four bytes of a pixel: red, green, blue, and an opaque alpha.
    pub open spec fn rgba(self, px: u16) -> Seq<u8> {
        seq![self.red(px), self.green(px), self.blue(px), 255u8]
    }

    /// Unpacks one pixel into red, green, blue and alpha.
    pub fn unpack(self, px: u16) -> (c: (u8, u8, u8, u8))
        ensures
            c.0 == self.red(px),
            c.1 == self.green(px),
            c.2 == self.blue(px),
            c.3 == 255,
    {
        let blue: u16 = px & 31;
        assert((px & 31) << 3 <= 248) by (bit_vector);
        match self {
            RimFormat::RGB555 => {
                let red: u16 = (px >> 10) & 31;
                let green: u16 = (px >> 5) & 31;
                assert(((px >> 10) & 31) << 3 <= 248) by (bit_vector);
                assert(((px >> 5) & 31) << 3 <= 248) by (bit_vector);
                ((red << 3) as u8, (green << 3) as u8, (blue << 3) as u8, 255)
            },
            RimFormat::RGB565 => {
                let red: u16 = (px >> 11) & 31;
                let green: u16 = (px >> 5) & 63;
                assert(((px >> 11) & 31) << 3 <= 248) by (bit_vector);
                assert(((px >> 5) & 63) << 2 <= 252) by (bit_vector);
                ((red << 3) as u8, (green << 2) as u8, (blue << 3) as u8, 255)
            },
        }
    }
}

/// The bytes of an image as tightly packed RGBA: four for each pixel, in the
/// pixels' order.
pub open spec fn rgba_bytes(fmt: RimFormat, pixels: Seq<u16>) -> Seq<u8> {
    Seq::new(4 * pixels.len(), |k: int| fmt.rgba(pixels[k / 4])[k % 4])
}

/// Every pixel gives four bytes, the last of them 255; a channel is its bit
/// field moved to the top of the byte, so that the low bits that the field
/// does not fill are zero: three of them, or two for the six bits of green
/// in RGB565.
pub proof fn lemma_channels(fmt: RimFormat, px: u16)
    ensures
        fmt.rgba(px).len() == 4,
        fmt.rgba(px)[3] == 255,
        fmt.red(px) % 8 == 0,
        fmt.blue(px) % 8 == 0,
        fmt.blue(px) == 8 * (px % 32),
        fmt == RimFormat::RGB555 ==> fmt.red(px) == 8 * (px / 1024 % 32),
        fmt == RimFormat::RGB555 ==> fmt.green(px) == 8 * (px / 32 % 32),
        fmt == RimFormat::RGB565 ==> fmt.red(px) == 8 * (px / 2048),
        fmt == RimFormat::RGB565 ==> fmt.green(px) == 4 * (px / 32 % 64),
{
    assert((((px & 31) << 3) as u8) == 8 * (px % 32)) by (bit_vector);
    assert(((((px >> 10) & 31) << 3) as u8) == 8 * (px / 1024 % 32)) by (bit_vector);
    assert(((((px >> 5) & 31) << 3) as u8) == 8 * (px / 32 % 32)) by (bit_vector);
    assert(((((px >> 11) & 31) << 3) as u8) == 8 * (px / 2048)) by (bit_vector);
    assert(((((px >> 5) & 63) << 2) as u8) == 4 * (px / 32 % 64)) by (bit_vector);
}

/// An image in RIM format, with its pixels.
pub struct RimImage {
    /// The file version, always 0
    pub ver: u32,
    /// The width of the image, in pixels
    pub width: u16,
    /// The height of the image, in pixels
    pub height: u16,
    /// The pitch of the image, in bytes
    pub pitch: u16,
    /// The pixel format of the image. Always 16-bit.
    pub fmt: RimFormat,
    /// The packed pixels, row by row, without padding.
    pub data: Vec<u16>,
}

/// What an image holds, as plain values.
pub struct RimView {
    pub ver: u32,
    pub width: u16,
    pub height: u16,
    pub pitch: u16,
    pub fmt: RimFormat,
    pub data: Seq<u16>,
}

impl View for RimImage {
    type V = RimView;

    open spec fn view(&self) -> RimView {
        RimView {
            ver: self.ver,
            width: self.width,
            height: self.height,
            pitch: self.pitch,
            fmt: self.fmt,
            data: self.data@,
        }
    }
}

impl RimView {
    /// There is one packed value for each pixel of each row.
    pub open spec fn has_all_pixels(self) -> bool {
        self.data.len() == self.width * self.height
    }

    /// A row is at least as long as its pixels, and every pixel is there.
    pub open spec fn wf(self) -> bool {
        &&& self.pitch >= 2 * self.width
        &&& self.has_all_pixels()
    }
}

/// What reading rows gives: the pixels and the position behind the last row,
/// or the failure.
pub type Rows = Result<(Seq<u16>, int), Failure>;

/// The pixels of `rows` behind those of `prefix`.
pub open spec fn with_prefix(prefix: Seq<u16>, rows: Rows) -> Rows {
    match rows {
        Ok((pixels, end)) => Ok((prefix + pixels, end)),
        Err(e) => Err(e),
    }
}

/// The `width` pixels stored from `pos` on.
pub open spec fn row_pixels(data: Seq<u8>, pos: int, width: int) -> Seq<u16> {
    Seq::new(width as nat, |x: int| le16_at(data, pos + 2 * x) as u16)
}

/// Reads `rows` rows of `width` pixels from `pos` on, each row `pitch` bytes
/// from the one before. The padding behind a row is skipped, not read, so it
/// need not be there; the position behind it must be a `u64`. A short read
/// leaves the reader at the end of the data, a failed skip behind the row's
/// pixels.
pub open spec fn rim_rows(data: Seq<u8>, pos: int, width: int, pitch: int, rows: nat) -> Rows
    decreases rows,
{
    if rows == 0 {
        Ok((Seq::empty(), pos))
    } else if !readable(data, pos, 2 * width) {
        Err((ZfsError::ShortRead, data.len() as int))
    } else if pos + pitch > u64::MAX {
        Err((ZfsError::SeekFailure, pos + 2 * width))
    } else {
        with_prefix(
            row_pixels(data, pos, width),
            rim_rows(data, pos + pitch, width, pitch, (rows - 1) as nat),
        )
    }
}

/// The image of a header and the rows read behind it.
pub open spec fn rim_finish(
    ver: u32,
    width: u16,
    height: u16,
    pitch: u16,
    fmt: RimFormat,
    rows: Rows,
) -> Result<(RimView, int), Failure> {
    match rows {
        Ok((pixels, end)) => Ok((RimView { ver, width, height, pitch, fmt, data: pixels }, end)),
        Err(e) => Err(e),
    }
}

/// Decodes the image that starts at `pos`: the image and the position behind
/// its last row, or the first error on the way and the position at which it
/// leaves the reader. A wrong signature is found behind its four bytes, and
/// an unknown format or a pitch too short behind the header, before any
/// pixel is read.
pub open spec fn rim_decode(data: Seq<u8>, pos: int) -> Result<(RimView, int), Failure> {
    if !readable(data, pos, 4) {
        Err((ZfsError::ShortRead, data.len() as int))
    } else if le32_at(data, pos) != RIM_SIGNATURE {
        Err((ZfsError::InvalidSignature, pos + 4))
    } else if !readable(data, pos, 16) {
        Err((ZfsError::ShortRead, data.len() as int))
    } else {
        let width = le16_at(data, pos + 8);
        let height = le16_at(data, pos + 10);
        let pitch = le16_at(data, pos + 12);
        match RimFormat::of_code(le16_at(data, pos + 14)) {
            None => Err((ZfsError::UnknownPixelFormat, pos + 16)),
            Some(fmt) => if pitch < 2 * width {
                Err((ZfsError::InvalidPitch, pos + 16))
            } else {
                rim_finish(
                    le32_at(data, pos + 4) as u32,
                    width as u16,
                    height as u16,
                    pitch as u16,
                    fmt,
                    rim_rows(data, pos + 16, width, pitch, height as nat),
                )
            },
        }
    }
}

/// A stream that does not start with the image signature gives
/// `InvalidSignature` and no pixels, whatever follows; the reader is left
/// behind the four bytes that were compared.
pub proof fn lemma_wrong_signature_is_refused(data: Seq<u8>, pos: int)
    requires
        readable(data, pos, 4),
        le32_at(data, pos) != RIM_SIGNATURE,
    ensures
        rim_decode(data, pos) == Err::<(RimView, int), Failure>(
            (ZfsError::InvalidSignature, pos + 4),
        ),
{
}

/// A header that is all there and starts with the signature, but whose
/// format code is neither 0 nor 1, gives `UnknownPixelFormat` whatever size
/// it declares; the reader is left behind the header, so no pixel was read.
pub proof fn lemma_unknown_format_is_refused(data: Seq<u8>, pos: int)
    requires
        readable(data, pos, 16),
        le32_at(data, pos) == RIM_SIGNATURE,
        le16_at(data, pos + 14) != 0,
        le16_at(data, pos + 14) != 1,
    ensures
        rim_decode(data, pos) == Err::<(RimView, int), Failure>(
            (ZfsError::UnknownPixelFormat, pos + 16),
        ),
{
}

/// Prefixes compose.
proof fn lemma_with_prefix_twice(a: Seq<u16>, b: Seq<u16>, rows: Rows)
    ensures
        with_prefix(a, with_prefix(b, rows)) == with_prefix(a + b, rows),
{
    match rows {
        Ok((pixels, end)) => {
            assert(a + (b + pixels) =~= (a + b) + pixels);
        },
        Err(_) => {},
    }
}

/// Rows that can be read give `width` pixels each and end `pitch` bytes
/// behind the start of the last.
pub proof fn lemma_rim_rows_shape(data: Seq<u8>, pos: int, width: int, pitch: int, rows: nat)
    requires
        0 <= width,
        rim_rows(data, pos, width, pitch, rows) is Ok,
    ensures
        rim_rows(data, pos, width, pitch, rows)->Ok_0.0.len() == width * rows,
        rim_rows(data, pos, width, pitch, rows)->Ok_0.1 == pos + rows * pitch,
    decreases rows,
{
    if rows > 0 {
        lemma_rim_rows_shape(data, pos + pitch, width, pitch, (rows - 1) as nat);
        assert(width + width * (rows - 1) == width * rows) by (nonlinear_arith);
        assert(pos + pitch + (rows - 1) * pitch == pos + rows * pitch) by (nonlinear_arith);
    } else {
        assert(width * rows == 0) by (nonlinear_arith)
            requires
                rows == 0,
        ;
        assert(rows * pitch == 0) by (nonlinear_arith)
            requires
                rows == 0,
        ;
    }
}

impl RimImage {
    /// There is one packed value for each pixel of each row.
    pub open spec fn has_all_pixels(&self) -> bool {
        self@.has_all_pixels()
    }

    /// A row is at least as long as its pixels, and every pixel is there.
    pub open spec fn wf(&self) -> bool {
        self@.wf()
    }

    /// Reads an image from `reader`, which stands at the image's signature:
    /// the header, then `height` rows of `width` pixels, skipping after each
    /// row the padding that the pitch leaves. The image, the error and the
    /// position at which the reader is left are those of [`rim_decode`].
    pub fn from_stream(reader: &mut ByteReader) -> (r: Result<RimImage, ZfsError>)
        ensures
            final(reader).data == old(reader).data,
            match r {
                Ok(img) => img.wf() && rim_decode(old(reader).data@, old(reader).pos as int)
                    == Ok::<(RimView, int), Failure>((img@, final(reader).pos as int)),
                Err(e) => rim_decode(old(reader).data@, old(reader).pos as int) == Err::<
                    (RimView, int),
                    Failure,
                >((e, final(reader).pos as int)),
            },
    {
        let ghost data = reader.data@;
        let ghost origin = reader.pos as int;
        let rim_sig = read_le32(reader)?;
        if rim_sig != RIM_SIGNATURE {
            return Err(ZfsError::InvalidSignature);
        }
        let rim_ver = read_le32(reader)?;
        let rim_width = read_le16(reader)?;
        let rim_height = read_le16(reader)?;
        let rim_pitch = read_le16(reader)?;
        let rim_fmt = read_le16(reader)?;
        let fmt = match RimFormat::from_code(rim_fmt) {
            Some(fmt) => fmt,
            None => {
                return Err(ZfsError::UnknownPixelFormat);
            },
        };
        let row_bytes: u32 = 2 * (rim_width as u32);
        if (rim_pitch as u32) < row_bytes {
            return Err(ZfsError::InvalidPitch);
        }
        let padding: u64 = (rim_pitch as u32 - row_bytes) as u64;
        let ghost start = origin + 16;
        let ghost width = rim_width as int;
        let ghost pitch = rim_pitch as int;
        let ghost whole = rim_rows(data, start, width, pitch, rim_height as nat);
        assert(rim_decode(data, origin) == rim_finish(
            rim_ver,
            rim_width,
            rim_height,
            rim_pitch,
            fmt,
            whole,
        ));
        let mut pixels: Vec<u16> = Vec::new();
        let mut y: u16 = 0;
        assert(with_prefix(pixels@, whole) == whole) by {
            match whole {
                Ok((p, e)) => {
                    assert(pixels@ + p =~= p);
                },
                Err(_) => {},
            }
        }
        while y < rim_height
            invariant
                reader.data == old(reader).data,
                reader.data@ == data,
                origin == old(reader).pos,
                rim_decode(data, origin) == rim_finish(
                    rim_ver,
                    rim_width,
                    rim_height,
                    rim_pitch,
                    fmt,
                    whole,
                ),
                y <= rim_height,
                width == rim_width,
                pitch == rim_pitch,
                padding == pitch - 2 * width,
                row_bytes == 2 * width,
                whole == rim_rows(data, start, width, pitch, rim_height as nat),
                whole == with_prefix(
                    pixels@,
                    rim_rows(data, reader.pos as int, width, pitch, (rim_height - y) as nat),
                ),
            decreases rim_height - y,
        {
            let ghost row = reader.pos as int;
            let ghost before = pixels@;
            let ghost rest = rim_rows(data, row + pitch, width, pitch, (rim_height - y - 1) as nat);
            let mut x: u16 = 0;
            assert(pixels@ =~= before + row_pixels(data, row, 0));
            while x < rim_width
                invariant
                    reader.data == old(reader).data,
                    reader.data@ == data,
                    origin == old(reader).pos,
                    rim_decode(data, origin) == rim_finish(
                        rim_ver,
                        rim_width,
                        rim_height,
                        rim_pitch,
                        fmt,
                        whole,
                    ),
                    x <= rim_width,
                    width == rim_width,
                    y < rim_height,
                    readable(data, row, 2 * x),
                    reader.pos == row + 2 * x,
                    pixels@ == before + row_pixels(data, row, x as int),
                    whole == with_prefix(
                        before,
                        rim_rows(data, row, width, pitch, (rim_height - y) as nat),
                    ),
                decreases rim_width - x,
            {
                match read_le16(reader) {
                    Ok(px) => {
                        pixels.push(px);
                    },
                    Err(e) => {
                        assert(!readable(data, row, 2 * width));
                        return Err(e);
                    },
                }
                x = x + 1;
                assert(pixels@ =~= before + row_pixels(data, row, x as int));
            }
            if row_bytes != rim_pitch as u32 {
                match reader.skip(padding) {
                    Ok(()) => {},
                    Err(e) => {
                        return Err(e);
                    },
                }
            }
            y = y + 1;
            proof {
                lemma_with_prefix_twice(before, row_pixels(data, row, width), rest);
            }
        }
        proof {
            lemma_rim_rows_shape(data, start, width, pitch, rim_height as nat);
            assert(pixels@ + Seq::<u16>::empty() =~= pixels@);
        }
        Ok(
            RimImage {
                ver: rim_ver,
                width: rim_width,
                height: rim_height,
                pitch: rim_pitch,
                fmt,
                data: pixels,
            },
        )
    }

    /// The image as tightly packed 32-bit RGBA, four bytes for each pixel in
    /// row-major order.
    pub fn to_rgba_bytes(&self) -> (out: Vec<u8>)
        requires
            self.has_all_pixels(),
        ensures
            out@ == rgba_bytes(self.fmt, self.data@),
            out@.len() == self.width * self.height * 4,
    {
        let mut data: Vec<u8> = Vec::new();
        let mut i: usize = 0;
        while i < self.data.len()
            invariant
                i <= self.data@.len(),
                data@ == rgba_bytes(self.fmt, self.data@.take(i as int)),
            decreases self.data@.len() - i,
        {
            let c = self.fmt.unpack(self.data[i]);
            data.push(c.0);
            data.push(c.1);
            data.push(c.2);
            data.push(c.3);
            i = i + 1;
            assert(data@ =~= rgba_bytes(self.fmt, self.data@.take(i as int)));
        }
        assert(self.data@.take(i as int) =~= self.data@);
        data
    }
}

} // verus!
