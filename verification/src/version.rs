//! The CFB format version and the sector geometry derived from it.

use vstd::prelude::*;

verus! {

/// The CFB format version to use.
#[derive(Clone, Copy, Debug, PartialEq, Eq, Structural)]
pub enum Version {
    /// Version 3, which uses 512-byte sectors.
    V3,
    /// Version 4, which uses 4096-byte sectors.
    V4,
}

impl Version {
    /// Decodes the 16-bit on-disk version tag; tags other than 3 and 4 are
    /// not supported.
    pub fn from_number(number: u16) -> (r: Option<Version>)
        ensures
            r == (if number == 3 {
                Some(Version::V3)
            } else if number == 4 {
                Some(Version::V4)
            } else {
                None::<Version>
            }),
    {
        match number {
            3 => Some(Version::V3),
            4 => Some(Version::V4),
            _ => None,
        }
    }

    /// The 16-bit on-disk version tag.
    pub fn number(self) -> (r: u16)
        ensures
            r == self.spec_number(),
    {
        match self {
            Version::V3 => 3,
            Version::V4 => 4,
        }
    }

    /// The on-disk version tag, as a spec-level value.
    pub open spec fn spec_number(self) -> u16 {
        match self {
            Version::V3 => 3,
            Version::V4 => 4,
        }
    }

    /// The base-2 logarithm of the sector length: 9 for V3, 12 for V4.
    pub fn sector_shift(self) -> (r: u16)
        ensures
            r == self.spec_sector_shift(),
    {
        match self {
            Version::V3 => 9,
            Version::V4 => 12,
        }
    }

    /// The sector shift, as a spec-level value.
    pub open spec fn spec_sector_shift(self) -> u16 {
        match self {
            Version::V3 => 9,
            Version::V4 => 12,
        }
    }

    /// The sector length in bytes: 512 for V3, 4096 for V4.
    pub fn sector_len(self) -> (r: usize)
        ensures
            r == self.spec_sector_len(),
    {
        match self {
            Version::V3 => 512,
            Version::V4 => 4096,
        }
    }

    /// The sector length in bytes, as a spec-level value.
    pub open spec fn spec_sector_len(self) -> int {
        match self {
            Version::V3 => 512,
            Version::V4 => 4096,
        }
    }

    /// The sector length is always a positive multiple of 512, large enough
    /// to hold the 512-byte header, at least one FAT entry and at least one
    /// directory entry.
    pub proof fn lemma_sector_len(self)
        ensures
            512 <= self.spec_sector_len() <= 4096,
            self.spec_sector_len() % 4 == 0,
            self.spec_sector_len() % 128 == 0,
    {
    }
}

} // verus!
