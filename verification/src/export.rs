//! What leaves an archive: an entry goes out as its bytes, or, where its
//! name marks it as an image, as a PNG file of its pixels.

use crate::binary_io::{readable, window, ByteReader};
use crate::error::ZfsError;
use crate::rim::{rgba_bytes, rim_decode, RimImage};
use crate::zfs::{EntryView, ZfsEntry};
use vstd::prelude::*;

verus! {

/// Whether `s` ends with `suffix`.
pub open spec fn ends_with(s: Seq<char>, suffix: Seq<char>) -> bool {
    s.len() >= suffix.len() && s.subrange(s.len() - suffix.len(), s.len() as int) == suffix
}

impl ZfsEntry {
    /// Whether the entry's name marks it as a RIM image: it ends in `.rim`.
    pub fn is_rim_image(&self) -> (b: bool)
        ensures
            b == ends_with(self.name@, ".rim"@),
    {
        proof {
            reveal_strlit(".rim");
        }
        let name = self.name.as_str();
        let n: usize = name.unicode_len();
        if n < 4 {
            return false;
        }
        let ghost tail = self.name@.subrange(n - 4, n as int);
        assert(tail[0] == self.name@[n - 4] && tail[1] == self.name@[n - 3]);
        assert(tail[2] == self.name@[n - 2] && tail[3] == self.name@[n - 1]);
        let dot = name.get_char(n - 4) == '.';
        let found = dot && name.get_char(n - 3) == 'r' && name.get_char(n - 2) == 'i'
            && name.get_char(n - 1) == 'm';
        assert(found ==> tail =~= ".rim"@);
        found
    }

    /// The name of the PNG file that the entry's image is written to: the
    /// entry's name, followed by `.png`.
    pub fn png_name(&self) -> (s: String)
        ensures
            s@ == self.name@ + ".png"@,
    {
        self.name.clone().concat(".png")
    }
}

/// The error of the `png` crate's encoder, `png::EncodingError`, carried
/// through without a look inside.
#[verifier::external_type_specification]
#[verifier::external_body]
pub struct ExEncodingError(png::EncodingError);

/// What the `png` crate's encoder gives for an image of `width` by `height`
/// pixels whose 8-bit RGBA samples are `rgba`: the bytes of the PNG file
/// that it writes, or nothing where it reports an error. The encoder writes
/// into memory with its default options, so its answer depends on these
/// three values alone.
pub uninterp spec fn png_rgba_file(width: u32, height: u32, rgba: Seq<u8>) -> Option<Seq<u8>>;

/// Encodes 8-bit RGBA samples with `png::Encoder`: the header for the given
/// size, `Writer::write_image_data` once, then `Writer::finish`, all into
/// memory. The answer is named, not spelled out: the file on success, and
/// no file where the encoder reports an error. That it succeeds is not
/// claimed. The sizes that it refuses or cannot compute with are kept out.
#[verifier::external_body]
fn png_encode_rgba(width: u32, height: u32, rgba: &Vec<u8>) -> (r: Result<
    Vec<u8>,
    png::EncodingError,
>)
    requires
        width > 0,
        height > 0,
        rgba@.len() == 4 * width * height,
    ensures
        match r {
            Ok(file) => png_rgba_file(width, height, rgba@) == Some(file@),
            Err(_) => png_rgba_file(width, height, rgba@) is None,
        },
{
    let mut out: Vec<u8> = Vec::new();
    let mut encoder = png::Encoder::new(&mut out, width, height);
    encoder.set_color(png::ColorType::Rgba);
    encoder.set_depth(png::BitDepth::Eight);
    let mut writer = encoder.write_header()?;
    writer.write_image_data(rgba)?;
    writer.finish()?;
    Ok(out)
}

/// What an encoder's answer becomes: the file, or `PngEncoding` for any
/// error of the encoder.
pub fn png_outcome(encoded: Result<Vec<u8>, png::EncodingError>) -> (r: Result<Vec<u8>, ZfsError>)
    ensures
        encoded is Ok ==> r == Ok::<Vec<u8>, ZfsError>(encoded->Ok_0),
        encoded is Err ==> r == Err::<Vec<u8>, ZfsError>(ZfsError::PngEncoding),
{
    match encoded {
        Ok(file) => Ok(file),
        Err(_) => Err(ZfsError::PngEncoding),
    }
}

impl RimImage {
    /// The image as a PNG file of 8-bit RGBA. An image without pixels has no
    /// PNG file and gives `EmptyImage`. For any other the encoder is asked
    /// with the image's RGBA bytes: its file is returned whenever it gives
    /// one, and `PngEncoding` only where it gives none.
    pub fn to_png(&self) -> (r: Result<Vec<u8>, ZfsError>)
        requires
            self.has_all_pixels(),
        ensures
            self.width == 0 || self.height == 0 ==> r == Err::<Vec<u8>, ZfsError>(
                ZfsError::EmptyImage,
            ),
            self.width > 0 && self.height > 0 ==> match png_rgba_file(
                self.width as u32,
                self.height as u32,
                rgba_bytes(self.fmt, self.data@),
            ) {
                Some(file) => r is Ok && r->Ok_0@ == file,
                None => r == Err::<Vec<u8>, ZfsError>(ZfsError::PngEncoding),
            },
    {
        if self.width == 0 || self.height == 0 {
            return Err(ZfsError::EmptyImage);
        }
        let rgba = self.to_rgba_bytes();
        assert(4 * (self.width as u32) * (self.height as u32) == self.width * self.height * 4)
            by (nonlinear_arith);
        png_outcome(png_encode_rgba(self.width as u32, self.height as u32, &rgba))
    }
}

/// A file to be written: its name, its bytes, and the time of its last
/// change in seconds since the Unix epoch.
#[derive(Debug)]
pub struct OutputFile {
    pub name: String,
    pub contents: Vec<u8>,
    pub modified: u64,
}

/// What an output file holds, as plain values.
pub struct OutputView {
    pub name: Seq<char>,
    pub contents: Seq<u8>,
    pub modified: u64,
}

impl View for OutputFile {
    type V = OutputView;

    open spec fn view(&self) -> OutputView {
        OutputView { name: self.name@, contents: self.contents@, modified: self.modified }
    }
}

/// Whether `r`, with the reader left at `end`, is what an image entry of the
/// archive `data` gives: the error of decoding the image at the entry's
/// offset; `EmptyImage` for an image without pixels; else, whenever the
/// encoder gives a file for the image's RGBA bytes, that file under the
/// entry's name followed by `.png`, with the entry's time, and `PngEncoding`
/// only where the encoder gives none.
pub open spec fn is_image_output(
    entry: EntryView,
    data: Seq<u8>,
    r: Result<OutputFile, ZfsError>,
    end: int,
) -> bool {
    match rim_decode(data, entry.offset as int) {
        Err((e, stop)) => r is Err && r->Err_0 == e && end == stop,
        Ok((image, stop)) => end == stop && if image.width == 0 || image.height == 0 {
            r is Err && r->Err_0 == ZfsError::EmptyImage
        } else {
            match png_rgba_file(
                image.width as u32,
                image.height as u32,
                rgba_bytes(image.fmt, image.data),
            ) {
                Some(contents) => r is Ok && r->Ok_0@ == (OutputView {
                    name: entry.name + ".png"@,
                    contents,
                    modified: entry.timestamp,
                }),
                None => r is Err && r->Err_0 == ZfsError::PngEncoding,
            }
        },
    }
}

/// Whether `r`, with the reader left at `end`, is what any other entry of
/// the archive `data` gives: the entry's bytes under the entry's name, with
/// the entry's time, or `ShortRead` where the archive does not hold them all.
pub open spec fn is_raw_output(
    entry: EntryView,
    data: Seq<u8>,
    r: Result<OutputFile, ZfsError>,
    end: int,
) -> bool {
    if readable(data, entry.offset as int, entry.size as int) {
        r is Ok && end == entry.offset + entry.size && r->Ok_0@ == (OutputView {
            name: entry.name,
            contents: window(data, entry.offset as int, entry.size as int),
            modified: entry.timestamp,
        })
    } else {
        r is Err && r->Err_0 == ZfsError::ShortRead && end == data.len()
    }
}

/// Decodes the image stored in `entry` and prepares its PNG file for saving.
pub fn save_rim_image(entry: &ZfsEntry, reader: &mut ByteReader) -> (r: Result<
    OutputFile,
    ZfsError,
>)
    ensures
        final(reader).data == old(reader).data,
        is_image_output(entry@, old(reader).data@, r, final(reader).pos as int),
{
    let image = entry.read_rim_image(reader)?;
    let contents = image.to_png()?;
    Ok(OutputFile { name: entry.png_name(), contents, modified: entry.timestamp })
}

/// Prepares the file that `entry` is extracted to: for an entry whose name
/// ends in `.rim` the PNG file of its image, for any other the entry's bytes
/// as they are.
pub fn extract_entry(entry: &ZfsEntry, reader: &mut ByteReader) -> (r: Result<
    OutputFile,
    ZfsError,
>)
    ensures
        final(reader).data == old(reader).data,
        ends_with(entry.name@, ".rim"@) ==> is_image_output(
            entry@,
            old(reader).data@,
            r,
            final(reader).pos as int,
        ),
        !ends_with(entry.name@, ".rim"@) ==> is_raw_output(
            entry@,
            old(reader).data@,
            r,
            final(reader).pos as int,
        ),
{
    if entry.is_rim_image() {
        save_rim_image(entry, reader)
    } else {
        let contents = entry.read_data(reader)?;
        Ok(OutputFile { name: entry.name.clone(), contents, modified: entry.timestamp })
    }
}

} // verus!
