//! FAT16 file system constants.

use vstd::prelude::*;

verus! {

/// Size of a disk sector in bytes.
pub const SECTOR_SIZE: usize = 512;

/// Size of a FAT entry in bytes (16-bit).
pub const FAT_ENTRY_SIZE: usize = 2;

/// Maximum number of root directory entries.
pub const ROOT_DIR_ENTRIES: usize = 512;

/// Maximum length of a file name, extension excluded.
pub const MAX_FILENAME_LENGTH: usize = 8;

/// Maximum length of a file extension.
pub const MAX_EXTENSION_LENGTH: usize = 3;

/// File attribute: read-only.
pub const ATTR_READ_ONLY: u8 = 0x01;

/// File attribute: directory.
pub const ATTR_DIRECTORY: u8 = 0x10;

/// File attribute: archive.
pub const ATTR_ARCHIVE: u8 = 0x20;

/// First name byte of a deleted directory entry.
pub const DELETED_ENTRY_MARKER: u8 = 0xE5;

/// Size of a directory entry in bytes.
pub const DIR_ENTRY_SIZE: usize = 32;

/// Directory entries in a sector.
pub const ENTRIES_PER_SECTOR: usize = 16;

/// Sectors of the root directory.
pub const ROOT_DIR_SECTORS: usize = 32;

} // verus!
