//! The header at the start of a compound file.
use vstd::prelude::*;

use crate::bytes::{le_u16, le_u32, read_array, read_u16_le, read_u32_le};
use crate::error::{CfError, CfErrorInfo, CfResult};
use crate::pod::Pod;
use crate::version::CfVersion;

verus! {

/// The signature that opens every compound file.
pub open spec fn spec_header_signature() -> Seq<u8> {
    seq![0xD0u8, 0xCF, 0x11, 0xE0, 0xA1, 0xB1, 0x1A, 0xE1]
}

/// The array of `N` bytes whose contents are `s`.
pub open spec fn array_of<const N: usize>(s: Seq<u8>) -> [u8; N] {
    choose|a: [u8; N]| a@ == s
}

/// Copies the `N` bytes at `off` into an array equal to `array_of`.
pub fn read_bytes<const N: usize>(s: &[u8], off: usize) -> (a: [u8; N])
    requires
        off + N <= s.len(),
    ensures
        a == array_of::<N>(s@.subrange(off as int, off + N)),
        a@ == s@.subrange(off as int, off + N),
{
    let a: [u8; N] = read_array(s, off);
    proof {
        let c = choose|b: [u8; N]| b@ == s@.subrange(off as int, off + N);
        assert(c@ == a@);
    }
    a
}

/// Header of a compound file, without the 109 DIFAT entries that follow it
/// in the first sector (see `CfCore::difat_header`).
#[derive(Debug, Copy, Clone)]
pub struct CfHeader {
    pub header_signature: [u8; 8],
    pub header_clsid: [u8; 16],
    pub minor_version: u16,
    pub major_version: u16,
    pub byte_order: u16,
    pub sector_shift: u16,
    pub mini_sector_shift: u16,
    pub reserved: [u8; 6],
    pub number_dir_sector: u32,
    pub number_fat_sector: u32,
    pub first_directory_sector_id: u32,
    pub transaction_signature_number: u32,
    pub mini_stream_cutoff_size: u32,
    pub first_mini_fat_sector_id: u32,
    pub number_mini_fat_sector: u32,
    pub fitst_difat_sector_id: u32,
    pub number_difat_sector: u32,
}

impl Pod for CfHeader {
    open spec fn spec_size_of() -> nat {
        76
    }

    open spec fn spec_decode(b: Seq<u8>) -> CfHeader {
        CfHeader {
            header_signature: array_of::<8>(b.subrange(0, 8)),
            header_clsid: array_of::<16>(b.subrange(8, 24)),
            minor_version: le_u16(b, 24),
            major_version: le_u16(b, 26),
            byte_order: le_u16(b, 28),
            sector_shift: le_u16(b, 30),
            mini_sector_shift: le_u16(b, 32),
            reserved: array_of::<6>(b.subrange(34, 40)),
            number_dir_sector: le_u32(b, 40),
            number_fat_sector: le_u32(b, 44),
            first_directory_sector_id: le_u32(b, 48),
            transaction_signature_number: le_u32(b, 52),
            mini_stream_cutoff_size: le_u32(b, 56),
            first_mini_fat_sector_id: le_u32(b, 60),
            number_mini_fat_sector: le_u32(b, 64),
            fitst_difat_sector_id: le_u32(b, 68),
            number_difat_sector: le_u32(b, 72),
        }
    }

    fn size_of() -> (n: usize) {
        76
    }

    fn decode(b: &[u8]) -> (h: CfHeader) {
        CfHeader {
            header_signature: read_bytes(b, 0),
            header_clsid: read_bytes(b, 8),
            minor_version: read_u16_le(b, 24),
            major_version: read_u16_le(b, 26),
            byte_order: read_u16_le(b, 28),
            sector_shift: read_u16_le(b, 30),
            mini_sector_shift: read_u16_le(b, 32),
            reserved: read_bytes(b, 34),
            number_dir_sector: read_u32_le(b, 40),
            number_fat_sector: read_u32_le(b, 44),
            first_directory_sector_id: read_u32_le(b, 48),
            transaction_signature_number: read_u32_le(b, 52),
            mini_stream_cutoff_size: read_u32_le(b, 56),
            first_mini_fat_sector_id: read_u32_le(b, 60),
            number_mini_fat_sector: read_u32_le(b, 64),
            fitst_difat_sector_id: read_u32_le(b, 68),
            number_difat_sector: read_u32_le(b, 72),
        }
    }
}

/// Are all the bytes of `s` zero?
pub open spec fn is_zero_bytes(s: Seq<u8>) -> bool {
    forall|i: int| 0 <= i < s.len() ==> s[i] == 0
}

/// Are all the bytes of `a` zero?
pub fn all_zero<const N: usize>(a: &[u8; N]) -> (r: bool)
    ensures
        r == is_zero_bytes(a@),
{
    let mut i: usize = 0;
    while i < N
        invariant
            i <= N,
            a@.len() == N,
            forall|j: int| 0 <= j < i ==> a@[j] == 0,
        decreases N - i,
    {
        if a[i] != 0 {
            return false;
        }
        i = i + 1;
    }
    true
}

impl CfHeader {
    /// What `validate` returns for this header: the signature is checked
    /// first, then the major version (3 or 4), then the sector shift that the
    /// version requires.
    pub open spec fn spec_validate(self) -> Result<CfVersion, CfErrorInfo> {
        if self.header_signature@ != spec_header_signature() {
            Err(CfErrorInfo::BadHeaderSignature)
        } else if self.major_version != 3 && self.major_version != 4 {
            Err(CfErrorInfo::BadMajorVersion)
        } else {
            let version = if self.major_version == 3 {
                CfVersion::V3
            } else {
                CfVersion::V4
            };
            if self.sector_shift != version.spec_sector_shift() {
                Err(CfErrorInfo::BadSectorShift)
            } else {
                Ok(version)
            }
        }
    }

    /// What `validate_pedantic` returns for this header: every field that
    /// the format fixes is checked, in the order of the header: signature,
    /// class id (null), minor version (0x3E), major version, byte order
    /// (0xFFFE), sector shift, mini sector shift (6), reserved bytes (null),
    /// number of directory sectors (0 in version 3), mini stream cutoff size
    /// (4096).
    pub open spec fn spec_validate_pedantic(self) -> Result<CfVersion, CfErrorInfo> {
        if self.header_signature@ != spec_header_signature() {
            Err(CfErrorInfo::BadHeaderSignature)
        } else if !is_zero_bytes(self.header_clsid@) {
            Err(CfErrorInfo::BadHeaderClsid)
        } else if self.minor_version != 0x003E {
            Err(CfErrorInfo::BadMinorVersion)
        } else if self.major_version != 3 && self.major_version != 4 {
            Err(CfErrorInfo::BadMajorVersion)
        } else if self.byte_order != 0xFFFE {
            Err(CfErrorInfo::BadByteOrder)
        } else {
            let version = if self.major_version == 3 {
                CfVersion::V3
            } else {
                CfVersion::V4
            };
            if self.sector_shift != version.spec_sector_shift() {
                Err(CfErrorInfo::BadSectorShift)
            } else if self.mini_sector_shift != 6 {
                Err(CfErrorInfo::BadMiniSectorShift)
            } else if !is_zero_bytes(self.reserved@) {
                Err(CfErrorInfo::BadReservedField)
            } else if self.major_version == 3 && self.number_dir_sector != 0 {
                Err(CfErrorInfo::BadNumberOfDirectorySectors)
            } else if self.mini_stream_cutoff_size != 0x1000 {
                Err(CfErrorInfo::BadMiniStreamCutoffSize)
            } else {
                Ok(version)
            }
        }
    }

    /// Checks every field of the header that the format fixes (see
    /// `spec_validate_pedantic`) and returns the version it declares.
    pub fn validate_pedantic(&self) -> (r: CfResult<CfVersion>)
        ensures
            r is Ok <==> self.spec_validate_pedantic() is Ok,
            r matches Ok(v) ==> self.spec_validate_pedantic() == Ok::<CfVersion, CfErrorInfo>(v),
            r matches Err(e) ==> self.spec_validate_pedantic() == Err::<CfVersion, CfErrorInfo>(
                e.kind,
            ),
    {
        let signature: [u8; 8] = [0xD0, 0xCF, 0x11, 0xE0, 0xA1, 0xB1, 0x1A, 0xE1];
        assert(signature@ =~= spec_header_signature());
        let mut i: usize = 0;
        while i < 8
            invariant
                i <= 8,
                signature@ == spec_header_signature(),
                forall|j: int| 0 <= j < i ==> self.header_signature@[j] == signature@[j],
            decreases 8 - i,
        {
            if self.header_signature[i] != signature[i] {
                return Err(CfError::from_kind(CfErrorInfo::BadHeaderSignature));
            }
            i = i + 1;
        }
        assert(self.header_signature@ =~= spec_header_signature());
        if !all_zero(&self.header_clsid) {
            return Err(CfError::from_kind(CfErrorInfo::BadHeaderClsid));
        }
        if self.minor_version != 0x003E {
            return Err(CfError::from_kind(CfErrorInfo::BadMinorVersion));
        }
        if self.major_version != 3 && self.major_version != 4 {
            return Err(CfError::from_kind(CfErrorInfo::BadMajorVersion));
        }
        if self.byte_order != 0xFFFE {
            return Err(CfError::from_kind(CfErrorInfo::BadByteOrder));
        }
        let version = if self.major_version == 3 {
            CfVersion::V3
        } else {
            CfVersion::V4
        };
        if self.sector_shift != version.sector_shift() {
            return Err(CfError::from_kind(CfErrorInfo::BadSectorShift));
        }
        if self.mini_sector_shift != version.mini_sector_shift() {
            return Err(CfError::from_kind(CfErrorInfo::BadMiniSectorShift));
        }
        if !all_zero(&self.reserved) {
            return Err(CfError::from_kind(CfErrorInfo::BadReservedField));
        }
        if self.major_version == 3 && self.number_dir_sector != 0 {
            return Err(CfError::from_kind(CfErrorInfo::BadNumberOfDirectorySectors));
        }
        if self.mini_stream_cutoff_size != 0x1000 {
            return Err(CfError::from_kind(CfErrorInfo::BadMiniStreamCutoffSize));
        }
        Ok(version)
    }

    /// Checks the fields of the header and returns the version it declares.
    pub fn validate(&self) -> (r: CfResult<CfVersion>)
        ensures
            r is Ok <==> self.spec_validate() is Ok,
            r matches Ok(v) ==> self.spec_validate() == Ok::<CfVersion, CfErrorInfo>(v),
            r matches Err(e) ==> self.spec_validate() == Err::<CfVersion, CfErrorInfo>(e.kind),
    {
        let signature: [u8; 8] = [0xD0, 0xCF, 0x11, 0xE0, 0xA1, 0xB1, 0x1A, 0xE1];
        assert(signature@ =~= spec_header_signature());
        let mut i: usize = 0;
        while i < 8
            invariant
                i <= 8,
                signature@ == spec_header_signature(),
                forall|j: int| 0 <= j < i ==> self.header_signature@[j] == signature@[j],
            decreases 8 - i,
        {
            if self.header_signature[i] != signature[i] {
                return Err(CfError::from_kind(CfErrorInfo::BadHeaderSignature));
            }
            i = i + 1;
        }
        assert(self.header_signature@ =~= spec_header_signature());
        if self.major_version != 3 && self.major_version != 4 {
            return Err(CfError::from_kind(CfErrorInfo::BadMajorVersion));
        }
        let version = if self.major_version == 3 {
            CfVersion::V3
        } else {
            CfVersion::V4
        };
        if self.sector_shift != version.sector_shift() {
            return Err(CfError::from_kind(CfErrorInfo::BadSectorShift));
        }
        Ok(version)
    }
}

/// The versions that a header may declare: with the signature in place, a
/// header is accepted exactly when it declares major version 3 with
/// 512-byte sectors (shift 9), read as version 3, or major version 4 with
/// 4096-byte sectors (shift 12), read as version 4. Any other major version
/// is refused as such, and a known major version with the other shift is
/// refused for its sector shift.
pub proof fn lemma_validate_versions(h: CfHeader)
    requires
        h.header_signature@ == seq![0xD0u8, 0xCF, 0x11, 0xE0, 0xA1, 0xB1, 0x1A, 0xE1],
    ensures
        h.major_version == 3 && h.sector_shift == 9 ==> h.spec_validate() == Ok::<
            CfVersion,
            CfErrorInfo,
        >(CfVersion::V3),
        h.major_version == 4 && h.sector_shift == 12 ==> h.spec_validate() == Ok::<
            CfVersion,
            CfErrorInfo,
        >(CfVersion::V4),
        h.major_version != 3 && h.major_version != 4 ==> h.spec_validate() == Err::<
            CfVersion,
            CfErrorInfo,
        >(CfErrorInfo::BadMajorVersion),
        (h.major_version == 3 && h.sector_shift != 9) || (h.major_version == 4 && h.sector_shift
            != 12) ==> h.spec_validate() == Err::<CfVersion, CfErrorInfo>(
            CfErrorInfo::BadSectorShift,
        ),
        h.spec_validate() is Ok <==> (h.major_version == 3 && h.sector_shift == 9) || (
        h.major_version == 4 && h.sector_shift == 12),
{
}

/// A header that is not signed as a compound file is refused for its
/// signature, whatever else it holds, by both checks.
pub proof fn lemma_validate_signature(h: CfHeader)
    requires
        h.header_signature@ != seq![0xD0u8, 0xCF, 0x11, 0xE0, 0xA1, 0xB1, 0x1A, 0xE1],
    ensures
        h.spec_validate() == Err::<CfVersion, CfErrorInfo>(CfErrorInfo::BadHeaderSignature),
        h.spec_validate_pedantic() == Err::<CfVersion, CfErrorInfo>(
            CfErrorInfo::BadHeaderSignature,
        ),
{
}

/// The strict check accepts the same two versions as `validate`: a header
/// whose fixed fields all hold their values (null class id and reserved
/// bytes, minor version 0x3E, byte order 0xFFFE, mini sector shift 6, cutoff
/// 4096, no directory sector count in version 3) is read as version 3 with
/// shift 9 and as version 4 with shift 12; and whatever the strict check
/// accepts, `validate` accepts with the same version.
pub proof fn lemma_validate_pedantic_versions(h: CfHeader)
    requires
        h.header_signature@ == seq![0xD0u8, 0xCF, 0x11, 0xE0, 0xA1, 0xB1, 0x1A, 0xE1],
        is_zero_bytes(h.header_clsid@),
        h.minor_version == 0x3E,
        h.byte_order == 0xFFFE,
        h.mini_sector_shift == 6,
        is_zero_bytes(h.reserved@),
        h.mini_stream_cutoff_size == 0x1000,
    ensures
        h.major_version == 3 && h.sector_shift == 9 && h.number_dir_sector == 0
            ==> h.spec_validate_pedantic() == Ok::<CfVersion, CfErrorInfo>(CfVersion::V3),
        h.major_version == 4 && h.sector_shift == 12 ==> h.spec_validate_pedantic() == Ok::<
            CfVersion,
            CfErrorInfo,
        >(CfVersion::V4),
        h.major_version != 3 && h.major_version != 4 ==> h.spec_validate_pedantic() == Err::<
            CfVersion,
            CfErrorInfo,
        >(CfErrorInfo::BadMajorVersion),
{
}

/// Whatever the strict check accepts, the plain check accepts too, with the
/// same version.
pub proof fn lemma_pedantic_implies_validate(h: CfHeader)
    ensures
        h.spec_validate_pedantic() matches Ok(v) ==> h.spec_validate() == Ok::<
            CfVersion,
            CfErrorInfo,
        >(v),
{
}

} // verus!
