//! Decoders for the ZFS asset archive and the RIM raster image it embeds.
//!
//! An archive is handed over as bytes behind a [`ByteReader`]; the decoders
//! walk it with explicit seeks and report every failure as a [`ZfsError`].

pub mod binary_io;
pub mod error;
pub mod export;
pub mod rim;
pub mod rim_layout;
pub mod zfs;
pub mod zfs_chain;

pub use binary_io::{
    read_be16, read_be32, read_byte, read_le16, read_le32, write_be16, write_be32, write_byte,
    write_le16, write_le32, ByteReader, ByteWriter,
};
pub use error::ZfsError;
pub use export::{extract_entry, save_rim_image, OutputFile};
pub use rim::{RimFormat, RimImage, RIM_SIGNATURE};
pub use zfs::{ZfsEntry, ZfsFile, ZfsHeader, ZFS_SIGNATURE};
