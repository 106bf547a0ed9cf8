//! Reserved sector encodings and directory entry constants.

use vstd::prelude::*;

verus! {

/// The largest sector index that names a real sector.
pub const MAX_REGULAR_SECTOR: u32 = 0xfffffffa;

/// Marks a sector that holds a part of the DIFAT.
pub const DIF_SECTOR: u32 = 0xfffffffc;

/// Marks a sector that holds a part of the FAT.
pub const FAT_SECTOR: u32 = 0xfffffffd;

/// Ends a sector chain.
pub const END_OF_CHAIN: u32 = 0xfffffffe;

/// Marks an unallocated sector.
pub const FREE_SECTOR: u32 = 0xffffffff;

/// The absence sentinel for sibling tree links.
pub const NO_STREAM: u32 = 0xffffffff;

/// Directory entry object type: an unallocated slot.
pub const OBJ_TYPE_UNALLOCATED: u8 = 0;

/// Directory entry object type: a storage.
pub const OBJ_TYPE_STORAGE: u8 = 1;

/// Directory entry object type: a stream.
pub const OBJ_TYPE_STREAM: u8 = 2;

/// Directory entry object type: the root entry.
pub const OBJ_TYPE_ROOT: u8 = 5;

/// A directory entry takes 128 bytes on disk.
pub const DIR_ENTRY_LEN: usize = 128;

/// The header takes 512 bytes, whatever the version.
pub const HEADER_LEN: usize = 512;

/// A stream strictly shorter than this lives in the mini-stream.
pub const MINI_STREAM_CUTOFF: u32 = 4096;

/// A mini-sector takes 64 bytes.
pub const MINI_SECTOR_LEN: usize = 64;

} // verus!
