use std::rc::Rc;

use mscfb::cache::{CfContiguousCache, CfLinearCache};
use mscfb::cfcore::CfCore;
use mscfb::direntry::{CfDirectoryEntry, CfDirectoryStream, CF_NOSTREAM};
use mscfb::error::CfErrorInfo;
use mscfb::header::CfHeader;
use mscfb::object::CfObjectType;
use mscfb::pod::Pod;
use mscfb::sector::{CfSectorChain, CfSectorIdChain, CfUserDataStream};
use mscfb::version::CfVersion;
use mscfb::CompoundFile;

const END: u32 = 0xFFFF_FFFE;
const FREE: u32 = 0xFFFF_FFFF;

fn put_u16(b: &mut [u8], off: usize, v: u16) {
    b[off..off + 2].copy_from_slice(&v.to_le_bytes());
}

fn put_u32(b: &mut [u8], off: usize, v: u32) {
    b[off..off + 4].copy_from_slice(&v.to_le_bytes());
}

fn put_u64(b: &mut [u8], off: usize, v: u64) {
    b[off..off + 8].copy_from_slice(&v.to_le_bytes());
}

fn sector(file: &mut [u8], id: usize) -> &mut [u8] {
    &mut file[512 * (id + 1)..512 * (id + 2)]
}

#[allow(clippy::too_many_arguments)]
fn entry(name: &str, kind: u8, left: u32, right: u32, child: u32, start: u32, size: u64) -> [u8; 128] {
    let mut e = [0u8; 128];
    let units: Vec<u16> = name.encode_utf16().collect();
    for (i, u) in units.iter().enumerate() {
        put_u16(&mut e, 2 * i, *u);
    }
    put_u16(&mut e, 64, ((units.len() + 1) * 2) as u16);
    e[66] = kind;
    put_u32(&mut e, 68, left);
    put_u32(&mut e, 72, right);
    put_u32(&mut e, 76, child);
    put_u32(&mut e, 116, start);
    put_u64(&mut e, 120, size);
    e
}

fn small_data() -> Vec<u8> {
    (0..70u32).map(|i| (i * 3 % 256) as u8).collect()
}

fn inner_data() -> Vec<u8> {
    b"inner data".to_vec()
}

fn big_data() -> Vec<u8> {
    (0..4096u32).map(|i| (i % 251) as u8).collect()
}

/// A version 3 file: a root storage holding the storage `Docs` (which holds
/// the mini stream `Inner`), the stream `Big` (in the file) and the mini
/// stream `Small`.
fn sample_file() -> Vec<u8> {
    let mut file = vec![0u8; 512 * 15];
    // Header.
    file[0..8].copy_from_slice(&[0xD0, 0xCF, 0x11, 0xE0, 0xA1, 0xB1, 0x1A, 0xE1]);
    put_u16(&mut file, 24, 0x3E);
    put_u16(&mut file, 26, 3);
    put_u16(&mut file, 28, 0xFFFE);
    put_u16(&mut file, 30, 9);
    put_u16(&mut file, 32, 6);
    put_u32(&mut file, 44, 1);
    put_u32(&mut file, 48, 1);
    put_u32(&mut file, 56, 4096);
    put_u32(&mut file, 60, 2);
    put_u32(&mut file, 64, 1);
    put_u32(&mut file, 68, END);
    put_u32(&mut file, 76, 0);
    for i in 1..109 {
        put_u32(&mut file, 76 + 4 * i, FREE);
    }
    // FAT.
    let mut fat = vec![FREE; 128];
    fat[0] = 0xFFFF_FFFD;
    fat[1] = 13;
    fat[2] = END;
    fat[3] = END;
    for (i, next) in fat.iter_mut().enumerate().take(12).skip(5) {
        *next = (i + 1) as u32;
    }
    fat[12] = END;
    fat[13] = END;
    for (i, v) in fat.iter().enumerate() {
        put_u32(sector(&mut file, 0), 4 * i, *v);
    }
    // Directory.
    let entries = [
        entry("Root Entry", 5, CF_NOSTREAM, CF_NOSTREAM, 1, 3, 192),
        entry("Docs", 1, 2, 3, 4, 0, 0),
        entry("Big", 2, CF_NOSTREAM, CF_NOSTREAM, CF_NOSTREAM, 5, 4096),
        entry("Small", 2, CF_NOSTREAM, CF_NOSTREAM, CF_NOSTREAM, 0, 70),
        entry("Inner", 2, CF_NOSTREAM, CF_NOSTREAM, CF_NOSTREAM, 2, 10),
    ];
    for (i, e) in entries.iter().enumerate().take(4) {
        sector(&mut file, 1)[128 * i..128 * (i + 1)].copy_from_slice(e);
    }
    sector(&mut file, 13)[0..128].copy_from_slice(&entries[4]);
    // Mini FAT.
    let mut mini_fat = vec![FREE; 128];
    mini_fat[0] = 1;
    mini_fat[1] = END;
    mini_fat[2] = END;
    for (i, v) in mini_fat.iter().enumerate() {
        put_u32(sector(&mut file, 2), 4 * i, *v);
    }
    // Mini stream.
    sector(&mut file, 3)[0..70].copy_from_slice(&small_data());
    sector(&mut file, 3)[128..138].copy_from_slice(&inner_data());
    // Big stream.
    let big = big_data();
    for k in 0..8 {
        sector(&mut file, 5 + k).copy_from_slice(&big[512 * k..512 * (k + 1)]);
    }
    file
}

fn read_all(mut stream: CfUserDataStream) -> Vec<u8> {
    let mut out = Vec::new();
    let mut buffer = [0u8; 100];
    loop {
        let n = stream.read(&mut buffer).expect("read");
        if n == 0 {
            return out;
        }
        out.extend_from_slice(&buffer[..n]);
    }
}

fn names(objects: &[mscfb::object::CfObject]) -> Vec<String> {
    objects.iter().map(|o| o.directory_entry().name().to_display_string()).collect()
}

#[test]
fn opens_the_root_storage() {
    let cf = CompoundFile::new(sample_file()).expect("open");
    let root = cf.root();
    assert_eq!(root.object_type(), CfObjectType::RootStorage);
    assert_eq!(root.directory_entry().name().to_display_string(), "Root Entry");
    let same = cf.open("").expect("empty path");
    assert_eq!(same.object_type(), CfObjectType::RootStorage);
    let same = cf.open("//\\").expect("separators only");
    assert_eq!(same.directory_entry().name().to_display_string(), "Root Entry");
}

#[test]
fn walks_the_root_in_name_order() {
    let cf = CompoundFile::new(sample_file()).expect("open");
    let children = cf.root().walk_directory().expect("walk");
    assert_eq!(names(&children), vec!["Big", "Docs", "Small"]);
    assert_eq!(children[0].object_type(), CfObjectType::Stream);
    assert_eq!(children[1].object_type(), CfObjectType::Storage);
    let docs = cf.open("Docs").expect("docs");
    assert_eq!(names(&docs.walk_directory().expect("walk docs")), vec!["Inner"]);
}

#[test]
fn locates_objects_by_path_in_any_case() {
    let cf = CompoundFile::new(sample_file()).expect("open");
    for path in ["Docs/Inner", "/docs/inner", "\\DOCS\\Inner\\", "Docs//Inner"] {
        let inner = cf.open(path).expect(path);
        assert_eq!(inner.directory_entry().name().to_display_string(), "Inner");
    }
    let big = cf.root().locate_object("big").expect("big");
    assert_eq!(big.directory_entry().stream_len(), 4096);
}

#[test]
fn reports_missing_objects_and_non_storages() {
    let cf = CompoundFile::new(sample_file()).expect("open");
    assert_eq!(cf.open("Nope").err().expect("missing").kind, CfErrorInfo::ObjectNotFound);
    assert_eq!(cf.open("Docs/Nope").err().expect("missing").kind, CfErrorInfo::ObjectNotFound);
    assert_eq!(cf.open("Big/x").err().expect("stream").kind, CfErrorInfo::InvalidStorageObject);
    let big = cf.open("Big").expect("big");
    assert_eq!(big.walk_directory().err().expect("stream").kind, CfErrorInfo::InvalidStorageObject);
    let inner = cf.open("Docs/Inner").expect("inner");
    assert_eq!(inner.locate_object("x").err().expect("stream").kind, CfErrorInfo::InvalidStorageObject);
}

#[test]
fn reads_mini_streams() {
    let cf = CompoundFile::new(sample_file()).expect("open");
    let small = cf.open("Small").expect("small").open_chain().expect("chain");
    assert!(matches!(small, CfUserDataStream::MiniStream(..)));
    assert_eq!(read_all(small), small_data());
    let inner = cf.open("Docs/Inner").expect("inner").open_chain().expect("chain");
    assert_eq!(read_all(inner), inner_data());
}

#[test]
fn reads_regular_streams() {
    let cf = CompoundFile::new(sample_file()).expect("open");
    let big = cf.open("Big").expect("big").open_chain().expect("chain");
    assert!(matches!(big, CfUserDataStream::Stream(..)));
    assert_eq!(read_all(big), big_data());
}

#[test]
fn storages_have_no_data_stream() {
    let cf = CompoundFile::new(sample_file()).expect("open");
    let docs = cf.open("Docs").expect("docs");
    assert_eq!(docs.open_chain().err().expect("storage").kind, CfErrorInfo::Todo);
}

#[test]
fn refuses_bad_files() {
    assert_eq!(CompoundFile::new(vec![0u8; 10]).err().expect("short").kind, CfErrorInfo::HeaderNotFound);
    let mut file = sample_file();
    file[0] = 0;
    assert_eq!(CompoundFile::new(file).err().expect("sig").kind, CfErrorInfo::BadHeaderSignature);
    let mut file = sample_file();
    put_u16(&mut file, 26, 5);
    assert_eq!(CompoundFile::new(file).err().expect("major").kind, CfErrorInfo::BadMajorVersion);
    let mut file = sample_file();
    put_u16(&mut file, 30, 12);
    assert_eq!(CompoundFile::new(file).err().expect("shift").kind, CfErrorInfo::BadSectorShift);
    let mut file = sample_file();
    sector(&mut file, 1)[66] = 1;
    assert_eq!(CompoundFile::new(file).err().expect("root").kind, CfErrorInfo::InvalidStorageObject);
    let mut file = sample_file();
    sector(&mut file, 1)[66] = 9;
    assert_eq!(CompoundFile::new(file).err().expect("type").kind, CfErrorInfo::BadObjectType(9));
}

#[test]
fn core_reads_header_and_sectors() {
    let core = CfCore::new(sample_file()).expect("core");
    assert_eq!(core.version(), CfVersion::V3);
    let header = core.header().expect("header");
    assert_eq!(header.first_directory_sector_id, 1);
    assert_eq!(header.first_mini_fat_sector_id, 2);
    let difat = core.difat_header().expect("difat");
    assert_eq!(difat[0], 0);
    assert_eq!(difat[1], FREE);
    assert_eq!(core.sector_offset(0), 512);
    assert_eq!(core.next_sector_id(5).expect("fat"), 6);
    assert_eq!(core.next_sector_id(12).expect("fat"), END);
    assert_eq!(core.locate_sector(5).expect("sector")[..4], big_data()[..4]);
    assert!(core.locate_sector(14).is_err());
}

#[test]
fn chains_follow_the_fat() {
    let core = Rc::new(CfCore::new(sample_file()).expect("core"));
    let mut chain = CfSectorIdChain::new(5, core.clone());
    let mut ids = Vec::new();
    while let Some(id) = chain.next() {
        ids.push(id.expect("id"));
    }
    assert_eq!(ids, vec![5, 6, 7, 8, 9, 10, 11, 12]);
    assert!(chain.next().is_none());

    let mut bytes = CfSectorChain::new(1, core.clone());
    let mut buffer = vec![0u8; 1024];
    assert_eq!(bytes.read(&mut buffer).expect("read"), 1024);
    let mut buffer = vec![0u8; 10];
    assert_eq!(bytes.read(&mut buffer).expect("end"), 0);
}

#[test]
fn both_caches_give_the_chain() {
    let core = Rc::new(CfCore::new(sample_file()).expect("core"));
    let mut linear = CfLinearCache::new();
    let mut chain = CfSectorIdChain::new(5, core.clone());
    let mut contiguous = CfContiguousCache::new(CfSectorIdChain::new(5, core.clone()));
    for index in [3usize, 0, 7, 5] {
        let a = linear.nth_sector_id(index, &mut chain).expect("linear");
        let b = contiguous.nth_sector_id(index).expect("contiguous");
        assert_eq!(a, 5 + index as u32);
        assert_eq!(a, b);
    }
    assert_eq!(linear.nth_sector_id(8, &mut chain).err().expect("end").kind, CfErrorInfo::OutOfRange(8));
    assert_eq!(contiguous.nth_sector_id(8).err().expect("end").kind, CfErrorInfo::OutOfRange(8));
    let footprint = contiguous.footprint();
    assert_eq!(footprint.linear_length, 8);
    assert_eq!(footprint.contiguous_length, 1);
    assert_eq!(footprint.addressable_v3, 4096);
    assert_eq!(
        contiguous.report(),
        "Cache { CfLinearCache: Estimed { type: \"Vec<CfSectorId>\", length: 8, element: 4 bytes, total: 32 bytes }, CfContiguousCache: Estimed { type: \"Vec<CfRangeInclusive>\", length: 1, element: 24 bytes, total: 24 bytes }, _: Addressable { V3: 4096 bytes, V4: 32768 bytes, mini: 512 bytes } }"
    );
}

#[test]
fn renamed_entry_compares_equal_to_its_name() {
    let file = sample_file();
    let bytes = &file[1024 + 256..1024 + 384];
    let (mut entry, rest) = CfDirectoryEntry::from_bytes(bytes).expect("entry");
    assert!(rest.is_empty());
    assert_eq!(entry.name().to_display_string(), "Big");
    entry.set_name("Été 2024").expect("rename");
    assert_eq!(entry.name().to_display_string(), "Été 2024");
    assert_eq!(entry.name().try_compare("été 2024").expect("cmp"), std::cmp::Ordering::Equal);
    assert_eq!(entry.name().try_compare("Zz").expect("cmp"), std::cmp::Ordering::Greater);
    assert_eq!(entry.name().try_compare("Été 20245").expect("cmp"), std::cmp::Ordering::Less);
    let long = "x".repeat(32);
    assert_eq!(entry.set_name(&long).err().expect("long").kind, CfErrorInfo::DirectoryNameTooLong);
    assert_eq!(entry.name().to_display_string(), "Été 2024");
    entry.set_name("").expect("empty");
    assert_eq!(entry.name().to_display_string(), "(empty)");
}

#[test]
fn names_show_control_characters_escaped() {
    let file = sample_file();
    let (mut entry, _) = CfDirectoryEntry::from_bytes(&file[1024..1152]).expect("entry");
    entry.set_name("\u{5}Summary\u{85}").expect("rename");
    assert!(entry.is_property_set());
    assert_eq!(entry.name().to_display_string(), "\\x{05}Summary\\u{0085}");
}

#[test]
fn version_geometry() {
    assert_eq!(CfVersion::V3.sector_size(), 512);
    assert_eq!(CfVersion::V4.sector_size(), 4096);
    assert_eq!(CfVersion::V3.sector_shift(), 9);
    assert_eq!(CfVersion::V4.sector_shift(), 12);
    assert_eq!(CfVersion::V3.mini_sector_size(), 64);
    assert_eq!(CfVersion::V3.entries_per_fat(), 128);
    assert_eq!(CfVersion::V4.entries_per_fat(), 1024);
}

#[test]
fn fat_sectors_past_the_header_follow_the_difat_chain() {
    let mut file = sample_file();
    // DIFAT sector #4: FAT #109 is sector 0, FAT #110 is sector 13, and the
    // chain ends there.
    put_u32(&mut file, 68, 4);
    let mut difat = vec![FREE; 128];
    difat[0] = 0;
    difat[1] = 13;
    difat[127] = END;
    for (i, v) in difat.iter().enumerate() {
        put_u32(sector(&mut file, 4), 4 * i, *v);
    }
    let core = CfCore::new(file).expect("core");
    assert_eq!(core.nth_fat(3).expect("header"), FREE);
    assert_eq!(core.nth_fat(109).expect("difat #0"), 0);
    assert_eq!(core.nth_fat(110).expect("difat #0"), 13);
    assert_eq!(core.nth_fat(235).expect("difat #0"), FREE);
    assert_eq!(core.nth_fat(236).err().expect("difat #1").kind, CfErrorInfo::DifatNotFound);
    // Without a DIFAT sector.
    let core = CfCore::new(sample_file()).expect("core");
    assert_eq!(core.nth_fat(109).err().expect("no difat").kind, CfErrorInfo::DifatNotFound);
}

#[test]
fn difat_sector_out_of_the_file() {
    let mut file = sample_file();
    put_u32(&mut file, 68, 500);
    let core = CfCore::new(file).expect("core");
    assert_eq!(core.nth_fat(109).err().expect("far").kind, CfErrorInfo::SectorNotFound(500));
}

#[test]
fn chain_errors_pass_through_and_stay_cached() {
    let core = Rc::new(CfCore::new(sample_file()).expect("core"));
    // Sector 200 needs FAT #1, which the header leaves free: its lookup fails.
    let mut contiguous = CfContiguousCache::new(CfSectorIdChain::new(200, core.clone()));
    assert_eq!(contiguous.nth_sector_id(0).expect("first"), 200);
    assert_eq!(
        contiguous.nth_sector_id(3).err().expect("fat").kind,
        CfErrorInfo::SectorNotFound(FREE)
    );
    // The walk is over: the numbers met stay, and the rest is out of range.
    assert_eq!(contiguous.nth_sector_id(0).expect("kept"), 200);
    assert_eq!(contiguous.nth_sector_id(3).err().expect("over").kind, CfErrorInfo::OutOfRange(3));

    let mut linear = CfLinearCache::new();
    let mut chain = CfSectorIdChain::new(200, core.clone());
    assert_eq!(
        linear.nth_sector_id(1, &mut chain).err().expect("fat").kind,
        CfErrorInfo::SectorNotFound(FREE)
    );
    assert_eq!(linear.nth_sector_id(0, &mut chain).expect("kept"), 200);
    assert_eq!(linear.nth_sector_id(1, &mut chain).err().expect("over").kind, CfErrorInfo::OutOfRange(1));
}

#[test]
fn control_streams_report_the_sector_position() {
    let core = Rc::new(CfCore::new(sample_file()).expect("core"));
    let directory = CfDirectoryStream::new(1, core.clone());
    assert_eq!(directory.entry(4).expect("second sector").name().to_display_string(), "Inner");
    // Two sectors of four entries: entry 8 is in sector position 2.
    assert_eq!(directory.entry(8).err().expect("past").kind, CfErrorInfo::OutOfRange(2));
    let broken = CfDirectoryStream::new(200, core.clone());
    assert_eq!(broken.entry(4).err().expect("fat").kind, CfErrorInfo::SectorNotFound(FREE));
    // The walk that failed is over: a later read past it is out of range.
    assert_eq!(broken.entry(4).err().expect("over").kind, CfErrorInfo::OutOfRange(1));
}

#[test]
fn unreadable_siblings_give_the_read_error() {
    let mut file = sample_file();
    // `Docs` sends smaller names to entry 20, past the directory.
    put_u32(sector(&mut file, 1), 128 + 68, 20);
    let cf = CompoundFile::new(file).expect("open");
    assert_eq!(cf.open("Big").err().expect("sibling").kind, CfErrorInfo::OutOfRange(5));
    assert_eq!(cf.root().walk_directory().expect("walk").len(), 2);
}

#[test]
fn report_counts_runs() {
    let mut file = sample_file();
    let mut fat = [0u32; 3];
    fat[0] = 6;
    fat[1] = 9;
    fat[2] = END;
    put_u32(sector(&mut file, 0), 4 * 5, fat[0]);
    put_u32(sector(&mut file, 0), 4 * 6, fat[1]);
    put_u32(sector(&mut file, 0), 4 * 9, fat[2]);
    let core = Rc::new(CfCore::new(file).expect("core"));
    let mut cache = CfContiguousCache::new(CfSectorIdChain::new(5, core));
    assert_eq!(cache.nth_sector_id(2).expect("third"), 9);
    assert_eq!(
        cache.to_debug_string(),
        "CfContiguousCache { total_index: 3, cache: [0/5..=1/6[2], 2/9..=2/9[1]] }"
    );
    assert_eq!(
        cache.report(),
        "Cache { CfLinearCache: Estimed { type: \"Vec<CfSectorId>\", length: 3, element: 4 bytes, total: 12 bytes }, CfContiguousCache: Estimed { type: \"Vec<CfRangeInclusive>\", length: 2, element: 24 bytes, total: 48 bytes }, _: Addressable { V3: 1536 bytes, V4: 12288 bytes, mini: 192 bytes } }"
    );
}

#[test]
fn renaming_keeps_the_other_fields() {
    let file = sample_file();
    let (mut entry, _) = CfDirectoryEntry::from_bytes(&file[1024 + 128..1024 + 256]).expect("docs");
    entry.set_name("Renamed").expect("rename");
    assert_eq!(entry.child(), 4);
    assert_eq!(entry.stream_len(), 0);
    assert_eq!(entry.left_sibling, 2);
    assert_eq!(entry.right_sibling, 3);
    assert_eq!(entry.object_type().expect("type"), CfObjectType::Storage);
}

#[test]
fn pedantic_header_checks() {
    let file = sample_file();
    let (header, _) = CfHeader::from_bytes(&file[..76]).expect("header");
    assert_eq!(header.validate_pedantic().expect("valid"), CfVersion::V3);
    let mut file = sample_file();
    put_u16(&mut file, 24, 0x3B);
    let (header, _) = CfHeader::from_bytes(&file[..76]).expect("header");
    assert_eq!(header.validate().expect("lenient"), CfVersion::V3);
    assert_eq!(header.validate_pedantic().err().expect("minor").kind, CfErrorInfo::BadMinorVersion);
    let mut file = sample_file();
    put_u32(&mut file, 56, 512);
    let (header, _) = CfHeader::from_bytes(&file[..76]).expect("header");
    assert_eq!(header.validate_pedantic().err().expect("cutoff").kind, CfErrorInfo::BadMiniStreamCutoffSize);
}

#[test]
fn pedantic_entry_checks() {
    let file = sample_file();
    let big = &file[1024 + 256..1024 + 384];
    let (entry, _) = CfDirectoryEntry::from_bytes(big).expect("big");
    assert_eq!(entry.validate_pedantic().expect("valid"), CfObjectType::Stream);
    let mut bytes = big.to_vec();
    put_u32(&mut bytes, 76, 1);
    let (entry, _) = CfDirectoryEntry::from_bytes(&bytes).expect("big");
    assert_eq!(entry.validate().expect("lenient"), CfObjectType::Stream);
    assert_eq!(entry.validate_pedantic().err().expect("child").kind, CfErrorInfo::BadChildId);
    let mut bytes = big.to_vec();
    put_u16(&mut bytes, 64, 7);
    let (entry, _) = CfDirectoryEntry::from_bytes(&bytes).expect("big");
    assert_eq!(entry.validate_pedantic().err().expect("length").kind, CfErrorInfo::BadDirectoryNameLength);
    let mut bytes = big.to_vec();
    bytes[0] = b'/';
    let (entry, _) = CfDirectoryEntry::from_bytes(&bytes).expect("big");
    assert_eq!(entry.validate_pedantic().err().expect("name").kind, CfErrorInfo::BadDirectoryName);
}

#[test]
fn read_errors_name_the_failing_lookup() {
    let core = Rc::new(CfCore::new(sample_file()).expect("core"));
    let mut far = CfSectorChain::new(200, core.clone());
    let mut buffer = [0u8; 10];
    assert_eq!(far.read(&mut buffer).err().expect("sector").kind, CfErrorInfo::SectorNotFound(200));
    let mut file = sample_file();
    // Sector 12 now leads to sector 300, past the end of the file.
    put_u32(sector(&mut file, 0), 4 * 12, 300);
    let core = Rc::new(CfCore::new(file).expect("core"));
    let mut chain = CfSectorChain::new(5, core);
    let mut buffer = vec![0u8; 5000];
    assert_eq!(chain.read(&mut buffer).err().expect("sector").kind, CfErrorInfo::SectorNotFound(300));
}
