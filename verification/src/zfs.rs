//! The ZFS archive: a header, then a chain of tables of file entries.
//!
//! Each table starts with the offset of the next and holds a fixed number of
//! fixed-size entries. The walk follows the chain for as many entries as the
//! header declares, or until an entry whose name starts with a zero byte.

use crate::binary_io::{le32_at, read_le32, readable, window, ByteReader};
use crate::error::{Failure, ZfsError};
use crate::rim::{rim_decode, RimImage, RimView};
use vstd::prelude::*;

verus! {

/// The four magic bytes `ZFS3`, read as a little-endian value.
pub const ZFS_SIGNATURE: u32 = 0x3353465a;

/// The text that `String::from_utf8_lossy` gives for `bytes`: their decoding
/// as UTF-8, with the replacement character for what is not valid.
pub uninterp spec fn utf8_lossy(bytes: Seq<u8>) -> Seq<char>;

/// Decodes `bytes` with `String::from_utf8_lossy`. The result is named, not
/// spelled out; for bytes that are valid UTF-8 it is their decoding, as the
/// function's documentation says.
#[verifier::external_body]
fn decode_utf8_lossy(bytes: &Vec<u8>) -> (s: String)
    ensures
        s@ == utf8_lossy(bytes@),
        vstd::utf8::valid_utf8(bytes@) ==> s@ == vstd::utf8::decode_utf8(bytes@),
{
    String::from_utf8_lossy(bytes).into_owned()
}

/// `s` without the NUL characters at its end.
pub open spec fn trimmed(s: Seq<char>) -> Seq<char>
    decreases s.len(),
{
    if s.len() > 0 && s.last() == '\0' {
        trimmed(s.drop_last())
    } else {
        s
    }
}

/// The name that a name field holds: its lossy decoding, without the NUL
/// padding at its end.
pub open spec fn entry_name(field: Seq<u8>) -> Seq<char> {
    trimmed(utf8_lossy(field))
}

/// Removes the NUL characters at the end of `s`.
pub fn trim_trailing_nul(s: &str) -> (r: String)
    ensures
        r@ == trimmed(s@),
{
    let len: usize = s.unicode_len();
    let mut seen: usize = 0;
    let mut kept: usize = 0;
    assert(s@.take(0) =~= Seq::<char>::empty());
    for c in chars: s.chars()
        invariant
            chars.seq() == s@,
            len == s@.len(),
            seen == chars.index(),
            kept <= seen <= len,
            trimmed(s@.take(seen as int)) == s@.take(kept as int),
    {
        assert(s@.take(seen + 1).drop_last() =~= s@.take(seen as int));
        seen = seen + 1;
        if c != '\0' {
            kept = seen;
        }
    }
    assert(s@.take(seen as int) =~= s@);
    String::from_str(s.substring_char(0, kept))
}

/// Decodes a name field: lossy UTF-8, then the NUL padding is trimmed. A
/// field of valid UTF-8 gives the characters that it encodes.
pub fn decode_name(field: &Vec<u8>) -> (name: String)
    ensures
        name@ == entry_name(field@),
        vstd::utf8::valid_utf8(field@) ==> name@ == trimmed(vstd::utf8::decode_utf8(field@)),
{
    let text = decode_utf8_lossy(field);
    trim_trailing_nul(text.as_str())
}

/// The header of an archive, behind its signature.
#[derive(Clone, Copy, Debug, PartialEq, Eq, Structural)]
pub struct ZfsHeader {
    /// The format version.
    pub version: u32,
    /// The bytes of every entry's name field.
    pub max_filename_len: u32,
    /// The entries that one table holds.
    pub files_per_table: u32,
    /// The entries that the archive declares.
    pub num_files: u32,
    /// The offset of the first table.
    pub filetable_offset: u32,
}

/// The header stored at `pos`, where 28 bytes can be read. The field at
/// offset 20 is reserved and read over.
pub open spec fn header_at(data: Seq<u8>, pos: int) -> ZfsHeader {
    ZfsHeader {
        version: le32_at(data, pos + 4) as u32,
        max_filename_len: le32_at(data, pos + 8) as u32,
        files_per_table: le32_at(data, pos + 12) as u32,
        num_files: le32_at(data, pos + 16) as u32,
        filetable_offset: le32_at(data, pos + 24) as u32,
    }
}

/// The header of the archive at `pos`, or why there is none and where that
/// leaves the reader: at the end of the data after a short read, behind the
/// four bytes of a wrong signature.
pub open spec fn header_decode(data: Seq<u8>, pos: int) -> Result<ZfsHeader, Failure> {
    if !readable(data, pos, 4) {
        Err((ZfsError::ShortRead, data.len() as int))
    } else if le32_at(data, pos) != ZFS_SIGNATURE {
        Err((ZfsError::InvalidSignature, pos + 4))
    } else if !readable(data, pos, 28) {
        Err((ZfsError::ShortRead, data.len() as int))
    } else {
        Ok(header_at(data, pos))
    }
}

impl ZfsHeader {
    /// Reads the signature and the header fields in their order.
    pub fn from_stream(reader: &mut ByteReader) -> (r: Result<ZfsHeader, ZfsError>)
        ensures
            final(reader).data == old(reader).data,
            match r {
                Ok(h) => header_decode(old(reader).data@, old(reader).pos as int) == Ok::<
                    ZfsHeader,
                    Failure,
                >(h) && final(reader).pos == old(reader).pos + 28,
                Err(e) => header_decode(old(reader).data@, old(reader).pos as int) == Err::<
                    ZfsHeader,
                    Failure,
                >((e, final(reader).pos as int)),
            },
    {
        let sig = read_le32(reader)?;
        if sig != ZFS_SIGNATURE {
            return Err(ZfsError::InvalidSignature);
        }
        let version = read_le32(reader)?;
        let max_filename_len = read_le32(reader)?;
        let files_per_table = read_le32(reader)?;
        let num_files = read_le32(reader)?;
        let _reserved = read_le32(reader)?;
        let filetable_offset = read_le32(reader)?;
        Ok(ZfsHeader { version, max_filename_len, files_per_table, num_files, filetable_offset })
    }
}

/// Represents a single entry in a ZFS file.
#[derive(Clone, Debug)]
pub struct ZfsEntry {
    /// The filename of the entry.
    pub name: String,
    /// The offset, in bytes, of the file data from the start of the ZFS file.
    pub offset: usize,
    /// The size, in bytes, of the file.
    pub size: usize,
    /// The timestamp of the file, in seconds since the Unix epoch.
    pub timestamp: u64,
    /// Flags stored in the entry header
    pub flags: u32,
}

/// What an entry holds, as plain values.
pub struct EntryView {
    pub name: Seq<char>,
    pub offset: usize,
    pub size: usize,
    pub timestamp: u64,
    pub flags: u32,
}

impl View for ZfsEntry {
    type V = EntryView;

    open spec fn view(&self) -> EntryView {
        EntryView {
            name: self.name@,
            offset: self.offset,
            size: self.size,
            timestamp: self.timestamp,
            flags: self.flags,
        }
    }
}

/// The views of `entries`, in their order.
pub open spec fn entry_views(entries: Seq<ZfsEntry>) -> Seq<EntryView> {
    Seq::new(entries.len(), |j: int| entries[j]@)
}

/// The entry stored at `pos`, with a name field of `name_len` bytes. The
/// field between offset and size is reserved and read over.
pub open spec fn entry_at(data: Seq<u8>, pos: int, name_len: int) -> EntryView {
    EntryView {
        name: entry_name(window(data, pos, name_len)),
        offset: le32_at(data, pos + name_len) as usize,
        size: le32_at(data, pos + name_len + 8) as usize,
        timestamp: le32_at(data, pos + name_len + 12) as u64,
        flags: le32_at(data, pos + name_len + 16) as u32,
    }
}

/// What a walk gives: the entries and the position behind the last read, or
/// the failure.
pub type Walk = Result<(Seq<EntryView>, int), Failure>;

/// The entries of `walk` behind those of `prefix`.
pub open spec fn with_entries(prefix: Seq<EntryView>, walk: Walk) -> Walk {
    match walk {
        Ok((entries, end)) => Ok((prefix + entries, end)),
        Err(e) => Err(e),
    }
}

/// Walks the tables from entry `i`, stored at `pos`, with `next` the offset
/// of the table behind the current one. The walk ends behind the last
/// declared entry, or behind a name field that starts with a zero byte. An
/// entry that fills its table is followed by a jump to `next`, where the
/// offset of the table after that is read.
pub open spec fn zfs_walk(data: Seq<u8>, h: ZfsHeader, i: nat, pos: int, next: int) -> Walk
    decreases h.num_files - i,
{
    let name_len = h.max_filename_len as int;
    if i >= h.num_files {
        Ok((Seq::empty(), pos))
    } else if !readable(data, pos, name_len) {
        Err((ZfsError::ShortRead, data.len() as int))
    } else if data[pos] == 0 {
        Ok((Seq::empty(), pos + name_len))
    } else if !readable(data, pos + name_len, 20) {
        Err((ZfsError::ShortRead, data.len() as int))
    } else if i % (h.files_per_table as nat) == h.files_per_table - 1 {
        if !readable(data, next, 4) {
            Err((ZfsError::ShortRead, data.len() as int))
        } else {
            with_entries(
                seq![entry_at(data, pos, name_len)],
                zfs_walk(data, h, i + 1, next + 4, le32_at(data, next)),
            )
        }
    } else {
        with_entries(
            seq![entry_at(data, pos, name_len)],
            zfs_walk(data, h, i + 1, pos + name_len + 20, next),
        )
    }
}

/// Represents the headers of a ZFS file.
///
/// This does not maintain a reference to the data. Any functions which
/// access the data will need to provide a reader.
pub struct ZfsFile {
    pub version: u32,
    pub max_filename_len: u32,
    pub files: Vec<ZfsEntry>,
}

/// What a listing holds, as plain values.
pub struct ZfsView {
    pub version: u32,
    pub max_filename_len: u32,
    pub files: Seq<EntryView>,
}

impl View for ZfsFile {
    type V = ZfsView;

    open spec fn view(&self) -> ZfsView {
        ZfsView {
            version: self.version,
            max_filename_len: self.max_filename_len,
            files: entry_views(self.files@),
        }
    }
}

/// The listing of a header and the walk behind it.
pub open spec fn zfs_finish(h: ZfsHeader, walk: Walk) -> Result<(ZfsView, int), Failure> {
    match walk {
        Ok((entries, end)) => Ok(
            (ZfsView { version: h.version, max_filename_len: h.max_filename_len, files: entries }, end),
        ),
        Err(e) => Err(e),
    }
}

/// The walk of the archive with header `h`, from its first table on.
pub open spec fn zfs_tables(data: Seq<u8>, h: ZfsHeader) -> Walk {
    if !readable(data, h.filetable_offset as int, 4) {
        Err((ZfsError::ShortRead, data.len() as int))
    } else if h.files_per_table == 0 {
        Err((ZfsError::EmptyTable, h.filetable_offset + 4))
    } else if h.num_files > 0 && h.max_filename_len == 0 {
        Err((ZfsError::EmptyNameField, h.filetable_offset + 4))
    } else {
        zfs_walk(
            data,
            h,
            0,
            h.filetable_offset + 4,
            le32_at(data, h.filetable_offset as int),
        )
    }
}

/// Decodes the archive that starts at `pos`: the listing and the position
/// behind the last read, or the first error on the way and the position at
/// which it leaves the reader. The header comes first, then the offset of
/// the second table, read at the first; tables of no entries and entries
/// without a name field are refused before the walk.
pub open spec fn zfs_decode(data: Seq<u8>, pos: int) -> Result<(ZfsView, int), Failure> {
    match header_decode(data, pos) {
        Err(e) => Err(e),
        Ok(h) => zfs_finish(h, zfs_tables(data, h)),
    }
}

/// A stream that does not start with the archive signature gives
/// `InvalidSignature` and no entries, whatever follows; the reader is left
/// behind the four bytes that were compared.
pub proof fn lemma_wrong_signature_is_refused(data: Seq<u8>, pos: int)
    requires
        readable(data, pos, 4),
        le32_at(data, pos) != ZFS_SIGNATURE,
    ensures
        zfs_decode(data, pos) == Err::<(ZfsView, int), Failure>(
            (ZfsError::InvalidSignature, pos + 4),
        ),
{
}

/// Prefixes compose.
proof fn lemma_with_entries_twice(a: Seq<EntryView>, b: Seq<EntryView>, walk: Walk)
    ensures
        with_entries(a, with_entries(b, walk)) == with_entries(a + b, walk),
{
    match walk {
        Ok((entries, end)) => {
            assert(a + (b + entries) =~= (a + b) + entries);
        },
        Err(_) => {},
    }
}

impl ZfsFile {
    /// Reads the listing of an archive from `reader`, which stands at the
    /// archive's signature. The listing, the error and the position at which
    /// the reader is left are those of [`zfs_decode`]: no listing is
    /// returned in part.
    pub fn from_stream(reader: &mut ByteReader) -> (r: Result<ZfsFile, ZfsError>)
        ensures
            final(reader).data == old(reader).data,
            match r {
                Ok(zfs) => zfs_decode(old(reader).data@, old(reader).pos as int) == Ok::<
                    (ZfsView, int),
                    Failure,
                >((zfs@, final(reader).pos as int)),
                Err(e) => zfs_decode(old(reader).data@, old(reader).pos as int) == Err::<
                    (ZfsView, int),
                    Failure,
                >((e, final(reader).pos as int)),
            },
    {
        let ghost data = reader.data@;
        let ghost origin = reader.pos as int;
        let h = ZfsHeader::from_stream(reader)?;
        let mut files: Vec<ZfsEntry> = Vec::new();
        reader.seek_to(h.filetable_offset as u64);
        let mut next_table_offset = read_le32(reader)?;
        if h.files_per_table == 0 {
            return Err(ZfsError::EmptyTable);
        }
        if h.num_files > 0 && h.max_filename_len == 0 {
            return Err(ZfsError::EmptyNameField);
        }
        let ghost whole = zfs_tables(data, h);
        assert(with_entries(entry_views(files@), whole) == whole) by {
            match whole {
                Ok((entries, end)) => {
                    assert(entry_views(files@) + entries =~= entries);
                },
                Err(_) => {},
            }
        }
        let mut i: u32 = 0;
        while i < h.num_files
            invariant
                reader.data == old(reader).data,
                reader.data@ == data,
                origin == old(reader).pos,
                zfs_decode(data, origin) == zfs_finish(h, whole),
                h.files_per_table > 0,
                h.num_files > 0 ==> h.max_filename_len > 0,
                i <= h.num_files,
                whole == with_entries(
                    entry_views(files@),
                    zfs_walk(data, h, i as nat, reader.pos as int, next_table_offset as int),
                ),
            decreases h.num_files - i,
        {
            let ghost pos = reader.pos as int;
            let ghost name_len = h.max_filename_len as int;
            let ghost before = entry_views(files@);
            let raw_name = reader.read_exact(h.max_filename_len as usize)?;
            if raw_name[0] == 0 {
                proof {
                    assert(before + Seq::<EntryView>::empty() =~= before);
                }
                return Ok(ZfsFile { version: h.version, max_filename_len: h.max_filename_len, files });
            }
            let name = decode_name(&raw_name);
            let data_offset = read_le32(reader)?;
            let _reserved = read_le32(reader)?;
            let data_size = read_le32(reader)?;
            let timestamp = read_le32(reader)?;
            let flags = read_le32(reader)?;
            let entry = ZfsEntry {
                name,
                offset: data_offset as usize,
                size: data_size as usize,
                timestamp: timestamp as u64,
                flags,
            };
            assert(entry@ == entry_at(data, pos, name_len));
            files.push(entry);
            assert(entry_views(files@) =~= before + seq![entry_at(data, pos, name_len)]);
            if i % h.files_per_table == h.files_per_table - 1 {
                reader.seek_to(next_table_offset as u64);
                let ghost jump = next_table_offset as int;
                next_table_offset = read_le32(reader)?;
                proof {
                    lemma_with_entries_twice(
                        before,
                        seq![entry_at(data, pos, name_len)],
                        zfs_walk(data, h, (i + 1) as nat, jump + 4, le32_at(data, jump)),
                    );
                }
            } else {
                proof {
                    lemma_with_entries_twice(
                        before,
                        seq![entry_at(data, pos, name_len)],
                        zfs_walk(data, h, (i + 1) as nat, pos + name_len + 20, next_table_offset as int),
                    );
                }
            }
            i = i + 1;
        }
        proof {
            assert(entry_views(files@) + Seq::<EntryView>::empty() =~= entry_views(files@));
        }
        Ok(ZfsFile { version: h.version, max_filename_len: h.max_filename_len, files })
    }
}

impl ZfsEntry {
    /// Reads the contents of an entry: the `size` bytes at `offset`.
    ///
    /// `reader` is a reader for the whole archive; it is moved to the start
    /// of the entry's data before reading.
    pub fn read_data(&self, reader: &mut ByteReader) -> (r: Result<Vec<u8>, ZfsError>)
        ensures
            final(reader).data == old(reader).data,
            readable(old(reader).data@, self.offset as int, self.size as int) ==> r is Ok
                && r->Ok_0@ == window(old(reader).data@, self.offset as int, self.size as int)
                && final(reader).pos == self.offset + self.size,
            !readable(old(reader).data@, self.offset as int, self.size as int) ==> r == Err::<
                Vec<u8>,
                ZfsError,
            >(ZfsError::ShortRead) && final(reader).pos == old(reader).data@.len(),
    {
        reader.seek_to(self.offset as u64);
        reader.read_exact(self.size)
    }

    /// Reads the image stored as the entry's data, from `offset` on.
    pub fn read_rim_image(&self, reader: &mut ByteReader) -> (r: Result<RimImage, ZfsError>)
        ensures
            final(reader).data == old(reader).data,
            match r {
                Ok(img) => img.wf() && rim_decode(old(reader).data@, self.offset as int) == Ok::<
                    (RimView, int),
                    Failure,
                >((img@, final(reader).pos as int)),
                Err(e) => rim_decode(old(reader).data@, self.offset as int) == Err::<
                    (RimView, int),
                    Failure,
                >((e, final(reader).pos as int)),
            },
    {
        reader.seek_to(self.offset as u64);
        RimImage::from_stream(reader)
    }
}

} // verus!
