//! Versions of the compound file format and the geometry they fix.
use vstd::prelude::*;

verus! {

/// Major version of a compound file. Version 3 uses 512-byte sectors and
/// version 4 uses 4096-byte sectors.
#[derive(Debug, Copy, Clone, PartialEq, Eq, Structural)]
pub enum CfVersion {
    V3,
    V4,
}

impl CfVersion {
    pub open spec fn spec_sector_shift(self) -> u16 {
        match self {
            CfVersion::V3 => 9,
            CfVersion::V4 => 12,
        }
    }

    pub open spec fn spec_sector_size(self) -> usize {
        match self {
            CfVersion::V3 => 512,
            CfVersion::V4 => 4096,
        }
    }

    pub open spec fn spec_entries_per_fat(self) -> usize {
        match self {
            CfVersion::V3 => 128,
            CfVersion::V4 => 1024,
        }
    }

    /// The sector shift: 9 (512-byte sectors) in version 3, 12 (4096-byte
    /// sectors) in version 4.
    pub fn sector_shift(&self) -> (r: u16)
        ensures
            r == self.spec_sector_shift(),
    {
        match self {
            CfVersion::V3 => 0x0009,
            CfVersion::V4 => 0x000C,
        }
    }

    /// The mini sector shift, 6 (64-byte mini sectors) in both versions.
    pub fn mini_sector_shift(&self) -> (r: u16)
        ensures
            r == 6,
    {
        0x0006u16
    }

    /// The sector size: 512 bytes in version 3, 4096 bytes in version 4.
    pub fn sector_size(&self) -> (r: usize)
        ensures
            r == self.spec_sector_size(),
    {
        match self {
            CfVersion::V3 => 512,
            CfVersion::V4 => 4096,
        }
    }

    /// The mini sector size, 64 bytes in both versions.
    pub fn mini_sector_size(&self) -> (r: usize)
        ensures
            r == 64,
    {
        64
    }

    /// The number of 32-bit entries in one FAT sector: 128 in version 3,
    /// 1024 in version 4.
    pub fn entries_per_fat(&self) -> (r: usize)
        ensures
            r == self.spec_entries_per_fat(),
    {
        match self {
            CfVersion::V3 => 128,
            CfVersion::V4 => 1024,
        }
    }
}

/// The geometry of a version is consistent: the sector size is two to the
/// power of the sector shift, a FAT sector holds exactly as many 4-byte
/// entries as fit in a sector, and the 64-byte mini sector is two to the
/// power of the mini sector shift.
pub proof fn lemma_version_geometry(v: CfVersion)
    ensures
        v.spec_sector_size() == vstd::arithmetic::power2::pow2(v.spec_sector_shift() as nat),
        v.spec_entries_per_fat() * 4 == v.spec_sector_size(),
        64 == vstd::arithmetic::power2::pow2(6),
        v.spec_sector_size() % 64 == 0,
{
    vstd::arithmetic::power2::lemma2_to64();
}

} // verus!
