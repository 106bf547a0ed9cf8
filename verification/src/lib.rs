//! A library for reading and writing Compound File Binary (structured
//! storage) containers: a single flat byte image that embeds a hierarchical
//! filesystem of storages and streams, addressed through sector allocation
//! tables (FAT, DIFAT, MiniFAT) and a directory of fixed-size entries.
//!
//! The container is held as an in-memory byte image (`Vec<u8>`); reading the
//! image from a file or writing it back is the caller's concern.

use vstd::prelude::*;

pub mod chains;
pub mod codec;
pub mod consts;
pub mod container;
pub mod direntry;
pub mod error;
pub mod laws;
pub mod names;
pub mod storage;
pub mod stream;
pub mod version;

verus! {

pub use crate::container::CompoundFile;
pub use crate::error::CfbError;
pub use crate::storage::Storage;
pub use crate::stream::SeekFrom;
pub use crate::stream::Stream;
pub use crate::version::Version;

} // verus!
