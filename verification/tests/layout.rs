use std::mem::{align_of, size_of};

use mscfb::direntry::CfDirectoryEntry;
use mscfb::header::CfHeader;

#[test]
fn sizeo_of() {
    assert_eq!(128, size_of::<CfDirectoryEntry>());
}

#[test]
fn size_and_align_of() {
    let difat_size: usize = 109 * size_of::<u32>();
    assert_eq!(size_of::<CfHeader>(), 512 - difat_size);
    assert_eq!(align_of::<CfHeader>(), 4);
}
