//! Access to the header, the DIFAT, the FAT and the sectors of a compound file.
use vstd::prelude::*;
use vstd::slice::slice_subrange;

use crate::bytes::{le_u32, read_u32_le};
use crate::error::{CfError, CfErrorInfo, CfResult};
use crate::header::CfHeader;
use crate::pod::Pod;
use crate::sector::{CfAnyCore, CF_MAXREGSECT};
use crate::version::CfVersion;

verus! {

/// Alias of a sector number for FAT sectors.
pub type CfFatId = u32;

/// Alias of a sector number for DIFAT sectors.
pub type CfDifatId = u32;

/// Byte offset of sector `id` in the file: sector `#0` follows the header,
/// which takes the first sector.
pub open spec fn spec_sector_offset(v: CfVersion, id: u32) -> int {
    v.spec_sector_size() * (id + 1)
}

/// The bytes of sector `id`, if the file holds the whole sector.
pub open spec fn spec_sector(file: Seq<u8>, v: CfVersion, id: u32) -> Option<Seq<u8>> {
    let start = spec_sector_offset(v, id);
    let end = start + v.spec_sector_size();
    if end <= file.len() {
        Some(file.subrange(start, end))
    } else {
        None
    }
}

/// The number of FAT sector numbers that a DIFAT sector holds: all its
/// slots but the last, which holds the number of the next DIFAT sector (127
/// in version 3, 1023 in version 4).
pub open spec fn spec_difat_per_sector(v: CfVersion) -> int {
    v.spec_entries_per_fat() - 1
}

/// The sector number of the `k`-th DIFAT sector (from 0): the header names
/// the first, and the last slot of each names the next. `DifatNotFound`
/// where the chain ends (a reserved number) before it, `SectorNotFound`
/// where a DIFAT sector of the way is not in the file.
pub open spec fn spec_difat_sector(file: Seq<u8>, v: CfVersion, k: nat) -> Result<u32, CfErrorInfo>
    decreases k,
{
    if k == 0 {
        let first = le_u32(file, 68);
        if first >= CF_MAXREGSECT {
            Err(CfErrorInfo::DifatNotFound)
        } else {
            Ok(first)
        }
    } else {
        match spec_difat_sector(file, v, (k - 1) as nat) {
            Err(e) => Err(e),
            Ok(id) => match spec_sector(file, v, id) {
                None => Err(CfErrorInfo::SectorNotFound(id)),
                Some(sector) => {
                    let next = le_u32(sector, 4 * spec_difat_per_sector(v));
                    if next >= CF_MAXREGSECT {
                        Err(CfErrorInfo::DifatNotFound)
                    } else {
                        Ok(next)
                    }
                },
            },
        }
    }
}

/// Once the walk of the DIFAT chain fails, it fails the same way further on.
proof fn lemma_difat_error_stays(file: Seq<u8>, v: CfVersion, k: nat, j: nat)
    requires
        spec_difat_sector(file, v, k) is Err,
        k <= j,
    ensures
        spec_difat_sector(file, v, j) == spec_difat_sector(file, v, k),
    decreases j - k,
{
    if k < j {
        lemma_difat_error_stays(file, v, k, (j - 1) as nat);
    }
}

/// The sector number of the `n`-th FAT sector: the first 109 are in the
/// header; FAT `n` from 109 on is slot `(n - 109) % per` of the
/// `(n - 109) / per`-th DIFAT sector, `per` FAT numbers to a DIFAT sector.
/// `DifatNotFound` where the file is shorter than its first sector.
pub open spec fn spec_nth_fat(file: Seq<u8>, v: CfVersion, n: int) -> Result<u32, CfErrorInfo> {
    if file.len() < 512 {
        Err(CfErrorInfo::DifatNotFound)
    } else if 0 <= n < 109 {
        Ok(le_u32(file, 76 + 4 * n))
    } else {
        let m = n - 109;
        let per = spec_difat_per_sector(v);
        match spec_difat_sector(file, v, (m / per) as nat) {
            Err(e) => Err(e),
            Ok(id) => match spec_sector(file, v, id) {
                None => Err(CfErrorInfo::SectorNotFound(id)),
                Some(sector) => Ok(le_u32(sector, 4 * (m % per))),
            },
        }
    }
}

/// The FAT entry of sector `id`: the next sector of its chain.
pub open spec fn spec_next_sector_id(file: Seq<u8>, v: CfVersion, id: u32) -> Result<
    u32,
    CfErrorInfo,
> {
    let epf = v.spec_entries_per_fat();
    match spec_nth_fat(file, v, id as int / epf as int) {
        Err(e) => Err(e),
        Ok(fat_id) => match spec_sector(file, v, fat_id) {
            None => Err(CfErrorInfo::SectorNotFound(fat_id)),
            Some(sector) => Ok(le_u32(sector, 4 * (id as int % epf as int))),
        },
    }
}

/// The bytes of the file and the version that its header declares.
pub struct CfCore {
    underlying_file: Vec<u8>,
    version: CfVersion,
}

impl CfCore {
    /// The bytes of the file.
    pub closed spec fn spec_file(&self) -> Seq<u8> {
        self.underlying_file@
    }

    /// The version that the header declares.
    pub closed spec fn spec_version(&self) -> CfVersion {
        self.version
    }

    /// The header that the first 76 bytes of the file hold.
    pub open spec fn spec_header(file: Seq<u8>) -> Result<CfHeader, CfErrorInfo> {
        if file.len() < 76 {
            Err(CfErrorInfo::HeaderNotFound)
        } else {
            Ok(CfHeader::spec_decode(file.take(76)))
        }
    }

    /// The bytes of the file.
    pub fn bytes(&self) -> (r: &[u8])
        ensures
            r@ == self.spec_file(),
    {
        self.underlying_file.as_slice()
    }

    /// The version that the header declares.
    pub fn version(&self) -> (r: CfVersion)
        ensures
            r == self.spec_version(),
    {
        self.version
    }

    /// Reads and checks the header of `file`; on success the core holds the
    /// file and the version that the header declares.
    pub fn new(file: Vec<u8>) -> (r: CfResult<Self>)
        ensures
            r is Ok <==> (Self::spec_header(file@) matches Ok(h) && h.spec_validate() is Ok),
            r matches Ok(core) ==> core.spec_file() == file@ && (Self::spec_header(file@) matches Ok(
                h,
            ) && h.spec_validate() == Ok::<CfVersion, CfErrorInfo>(core.spec_version())),
            r matches Err(e) ==> match Self::spec_header(file@) {
                Err(k) => e.kind == k,
                Ok(h) => h.spec_validate() == Err::<CfVersion, CfErrorInfo>(e.kind),
            },
    {
        let mut core = CfCore { underlying_file: file, version: CfVersion::V3 };
        let header = core.header()?;
        let version = header.validate()?;
        core.version = version;
        Ok(core)
    }

    /// The header that the first 76 bytes of the file hold, or
    /// `HeaderNotFound` if the file is shorter.
    pub fn header(&self) -> (r: CfResult<CfHeader>)
        ensures
            r is Ok <==> Self::spec_header(self.spec_file()) is Ok,
            r matches Ok(h) ==> Self::spec_header(self.spec_file()) == Ok::<
                CfHeader,
                CfErrorInfo,
            >(h),
            r matches Err(e) ==> Self::spec_header(self.spec_file()) == Err::<
                CfHeader,
                CfErrorInfo,
            >(e.kind),
    {
        let bytes = self.underlying_file.as_slice();
        if bytes.len() < 76 {
            return Err(CfError::from_kind(CfErrorInfo::HeaderNotFound));
        }
        let head = slice_subrange(bytes, 0, 76);
        Ok(CfHeader::decode(head))
    }

    /// The 109 DIFAT entries that follow the header in the first sector, or
    /// `DifatNotFound` if the file is shorter than 512 bytes.
    pub fn difat_header(&self) -> (r: CfResult<[u32; 109]>)
        ensures
            r is Ok <==> self.spec_file().len() >= 512,
            r matches Ok(d) ==> forall|i: int|
                0 <= i < 109 ==> d@[i] == le_u32(self.spec_file(), 76 + 4 * i),
            r matches Err(e) ==> e.kind == CfErrorInfo::DifatNotFound,
    {
        let bytes = self.underlying_file.as_slice();
        if bytes.len() < 512 {
            return Err(CfError::from_kind(CfErrorInfo::DifatNotFound));
        }
        let mut difat = [0u32; 109];
        let mut i: usize = 0;
        while i < 109
            invariant
                i <= 109,
                bytes@ == self.spec_file(),
                bytes.len() >= 512,
                difat@.len() == 109,
                forall|j: int| 0 <= j < i ==> difat@[j] == le_u32(bytes@, 76 + 4 * j),
            decreases 109 - i,
        {
            difat[i] = read_u32_le(bytes, 76 + 4 * i);
            i = i + 1;
        }
        Ok(difat)
    }

    /// Byte offset of sector `sector_id` in the file, saturated at
    /// `usize::MAX`.
    pub fn sector_offset(&self, sector_id: u32) -> (r: usize)
        ensures
            r == if spec_sector_offset(self.spec_version(), sector_id) <= usize::MAX {
                spec_sector_offset(self.spec_version(), sector_id)
            } else {
                usize::MAX as int
            },
    {
        let size = self.version.sector_size() as u64;
        assert(size * (sector_id as u64 + 1) <= 4096 * 0x1_0000_0000) by (nonlinear_arith)
            requires
                size <= 4096,
        ;
        let offset: u64 = size * (sector_id as u64 + 1);
        if offset > usize::MAX as u64 {
            usize::MAX
        } else {
            offset as usize
        }
    }

    /// Byte range of sector `sector_id` in the file.
    pub fn sector_range(&self, sector_id: u32) -> (r: core::ops::Range<usize>)
        requires
            spec_sector_offset(self.spec_version(), sector_id) + self.spec_version().spec_sector_size()
                <= usize::MAX,
        ensures
            r.start == spec_sector_offset(self.spec_version(), sector_id),
            r.end == spec_sector_offset(self.spec_version(), sector_id)
                + self.spec_version().spec_sector_size(),
    {
        let sector_offset = self.sector_offset(sector_id);
        sector_offset..(sector_offset + self.version.sector_size())
    }

    /// The bytes of sector `sector_id`, or `SectorNotFound` if the file does
    /// not hold the whole sector.
    pub fn locate_sector(&self, sector_id: u32) -> (r: CfResult<&[u8]>)
        ensures
            r is Ok <==> spec_sector(self.spec_file(), self.spec_version(), sector_id) is Some,
            r matches Ok(s) ==> spec_sector(self.spec_file(), self.spec_version(), sector_id)
                == Some(s@),
            r matches Ok(s) ==> s@.len() == self.spec_version().spec_sector_size(),
            r matches Err(e) ==> e.kind == CfErrorInfo::SectorNotFound(sector_id),
    {
        let bytes = self.underlying_file.as_slice();
        let size = self.version.sector_size() as u64;
        assert(size * (sector_id as u64 + 1) <= 4096 * 0x1_0000_0000) by (nonlinear_arith)
            requires
                size <= 4096,
        ;
        let start: u64 = size * (sector_id as u64 + 1);
        let end: u64 = start + size;
        if end > bytes.len() as u64 {
            return Err(CfError::from_kind(CfErrorInfo::SectorNotFound(sector_id)));
        }
        Ok(slice_subrange(bytes, start as usize, end as usize))
    }

    /// The elements of type `T` that sector `sector_id` holds, decoded one
    /// after the other from its bytes; a rest too short for an element is
    /// left out.
    pub fn locate_sector_as<T: Pod>(&self, sector_id: u32) -> (r: CfResult<Vec<T>>)
        requires
            T::spec_size_of() > 0,
        ensures
            r is Ok <==> spec_sector(self.spec_file(), self.spec_version(), sector_id) is Some,
            r matches Ok(v) ==> (spec_sector(self.spec_file(), self.spec_version(), sector_id)
                matches Some(s) && v@.len() == s.len() / T::spec_size_of() && forall|i: int|
                0 <= i < v@.len() ==> #[trigger] v@[i] == T::spec_decode(
                    s.subrange(i * T::spec_size_of(), (i + 1) * T::spec_size_of()),
                )),
            r matches Err(e) ==> e.kind == CfErrorInfo::SectorNotFound(sector_id),
    {
        let sector = self.locate_sector(sector_id)?;
        let size = T::size_of();
        let count = sector.len() / size;
        let mut elements: Vec<T> = Vec::new();
        let mut i: usize = 0;
        while i < count
            invariant
                i <= count,
                size == T::spec_size_of(),
                size > 0,
                count == sector@.len() as int / (size as int),
                sector@.len() == sector.len(),
                elements@.len() == i,
                forall|j: int|
                    0 <= j < i ==> #[trigger] elements@[j] == T::spec_decode(
                        sector@.subrange(j * size, (j + 1) * size),
                    ),
            decreases count - i,
        {
            assert(i * size <= (i + 1) * size <= count * size && (i + 1) * size == i * size + size) by (nonlinear_arith)
                requires
                    i < count,
            ;
            assert(count * size <= sector@.len()) by (nonlinear_arith)
                requires
                    count == sector@.len() as int / (size as int),
                    size > 0,
            ;
            let bytes = slice_subrange(sector, i * size, (i + 1) * size);
            elements.push(T::decode(bytes));
            i = i + 1;
        }
        Ok(elements)
    }

    /// The sector number of the FAT sector that holds the entry of
    /// `sector_id`.
    pub fn locate_fat_id(&self, sector_id: u32) -> (r: CfResult<CfFatId>)
        ensures
            r is Ok <==> spec_nth_fat(
                self.spec_file(),
                self.spec_version(),
                sector_id as int / self.spec_version().spec_entries_per_fat() as int,
            ) is Ok,
            r matches Ok(f) ==> spec_nth_fat(
                self.spec_file(),
                self.spec_version(),
                sector_id as int / self.spec_version().spec_entries_per_fat() as int,
            ) == Ok::<u32, CfErrorInfo>(f),
            r matches Err(e) ==> spec_nth_fat(
                self.spec_file(),
                self.spec_version(),
                sector_id as int / self.spec_version().spec_entries_per_fat() as int,
            ) == Err::<u32, CfErrorInfo>(e.kind),
    {
        self.nth_fat((sector_id as usize) / self.version.entries_per_fat())
    }

    /// The sector number of the `nth_fat`-th FAT sector (see `spec_nth_fat`):
    /// from the DIFAT of the header, then from the chain of DIFAT sectors.
    pub fn nth_fat(&self, nth_fat: usize) -> (r: CfResult<CfFatId>)
        ensures
            r is Ok <==> spec_nth_fat(self.spec_file(), self.spec_version(), nth_fat as int) is Ok,
            r matches Ok(f) ==> spec_nth_fat(
                self.spec_file(),
                self.spec_version(),
                nth_fat as int,
            ) == Ok::<u32, CfErrorInfo>(f),
            r matches Err(e) ==> spec_nth_fat(
                self.spec_file(),
                self.spec_version(),
                nth_fat as int,
            ) == Err::<u32, CfErrorInfo>(e.kind),
    {
        let bytes = self.underlying_file.as_slice();
        if bytes.len() < 512 {
            return Err(CfError::from_kind(CfErrorInfo::DifatNotFound));
        }
        if nth_fat < 109 {
            return Ok(read_u32_le(bytes, 76 + 4 * nth_fat));
        }
        let ghost v = self.spec_version();
        let per = self.version.entries_per_fat() - 1;
        let m = nth_fat - 109;
        let steps = m / per;
        let mut id = read_u32_le(bytes, 68);
        assert(m as int / per as int == steps);
        if id >= CF_MAXREGSECT {
            proof {
                lemma_difat_error_stays(self.spec_file(), v, 0, steps as nat);
            }
            return Err(CfError::from_kind(CfErrorInfo::DifatNotFound));
        }
        let mut k: usize = 0;
        while k < steps
            invariant
                k <= steps,
                bytes@ == self.spec_file(),
                v == self.spec_version(),
                per == spec_difat_per_sector(v),
                per == 127 || per == 1023,
                spec_difat_sector(self.spec_file(), v, k as nat) == Ok::<u32, CfErrorInfo>(id),
                steps == m / per,
                m == nth_fat - 109,
                nth_fat >= 109,
                self.spec_file().len() >= 512,
            decreases steps - k,
        {
            let sector = match self.locate_sector(id) {
                Ok(sector) => sector,
                Err(e) => {
                    proof {
                        lemma_difat_error_stays(self.spec_file(), v, (k + 1) as nat, steps as nat);
                    }
                    return Err(e);
                },
            };
            let next = read_u32_le(sector, 4 * per);
            if next >= CF_MAXREGSECT {
                proof {
                    lemma_difat_error_stays(self.spec_file(), v, (k + 1) as nat, steps as nat);
                }
                return Err(CfError::from_kind(CfErrorInfo::DifatNotFound));
            }
            id = next;
            k = k + 1;
        }
        let sector = self.locate_sector(id)?;
        assert(m % per < per) by (nonlinear_arith)
            requires
                per > 0,
        ;
        Ok(read_u32_le(sector, 4 * (m % per)))
    }

    /// The next sector of the chain of `sector_id`, as the FAT records it.
    pub fn next_sector_id(&self, sector_id: u32) -> (r: CfResult<u32>)
        ensures
            r is Ok <==> spec_next_sector_id(self.spec_file(), self.spec_version(), sector_id) is Ok,
            r matches Ok(n) ==> spec_next_sector_id(
                self.spec_file(),
                self.spec_version(),
                sector_id,
            ) == Ok::<u32, CfErrorInfo>(n),
            r matches Err(e) ==> spec_next_sector_id(
                self.spec_file(),
                self.spec_version(),
                sector_id,
            ) == Err::<u32, CfErrorInfo>(e.kind),
    {
        let fat_id = self.locate_fat_id(sector_id)?;
        let fat = self.locate_sector(fat_id)?;
        let epf = self.version.entries_per_fat();
        let index = (sector_id as usize) % epf;
        proof {
            assert(self.spec_version().spec_entries_per_fat() * 4 == fat@.len());
        }
        Ok(read_u32_le(fat, 4 * index))
    }
}

/// The sectors of a file hold 512 or 4096 bytes.
pub proof fn lemma_core_sector_size(c: CfCore)
    ensures
        c.spec_sector_size() == 512 || c.spec_sector_size() == 4096,
{
    match c.spec_version() {
        CfVersion::V3 => {},
        CfVersion::V4 => {},
    }
}

impl CfAnyCore for CfCore {
    open spec fn spec_sector_size(&self) -> nat {
        self.spec_version().spec_sector_size() as nat
    }

    open spec fn spec_next(&self, id: u32) -> Option<u32> {
        match spec_next_sector_id(self.spec_file(), self.spec_version(), id) {
            Ok(n) => Some(n),
            Err(_) => None,
        }
    }

    open spec fn spec_sector(&self, id: u32) -> Option<Seq<u8>> {
        spec_sector(self.spec_file(), self.spec_version(), id)
    }

    open spec fn spec_next_error(&self, id: u32, kind: CfErrorInfo) -> bool {
        spec_next_sector_id(self.spec_file(), self.spec_version(), id) == Err::<u32, CfErrorInfo>(
            kind,
        )
    }

    open spec fn spec_sector_error(&self, id: u32, kind: CfErrorInfo) -> bool {
        kind == CfErrorInfo::SectorNotFound(id)
    }

    fn sector_size(&self) -> (r: usize) {
        self.version.sector_size()
    }

    fn next_sector_id(&self, sector_id: u32) -> (r: CfResult<u32>) {
        CfCore::next_sector_id(self, sector_id)
    }

    fn locate_sector(&self, sector_id: u32) -> (r: CfResult<&[u8]>) {
        CfCore::locate_sector(self, sector_id)
    }
}

} // verus!
