use std::cmp::Ordering;

use mscfb::error::{CfError, CfErrorInfo, PodError};
use mscfb::object::CfObjectType;
use mscfb::utf16::{compare_utf16le, decode_utf16le, encode_utf16le};

#[test]
fn encodes_and_decodes_names() {
    let mut buffer = [0xAAu8; 64];
    let n = encode_utf16le("a\u{1F600}", &mut buffer).expect("fits");
    assert_eq!(n, 6);
    assert_eq!(&buffer[..6], &[0x61, 0x00, 0x3D, 0xD8, 0x00, 0xDE]);
    assert!(buffer[6..].iter().all(|b| *b == 0));
    let (chars, end) = decode_utf16le(&buffer[..6]);
    assert_eq!(chars, vec!['a', '\u{1F600}']);
    assert_eq!(end, 6);
}

#[test]
fn too_long_names_are_refused() {
    let mut buffer = [7u8; 64];
    assert_eq!(encode_utf16le(&"y".repeat(32), &mut buffer), None);
    assert_eq!(buffer, [7u8; 64]);
    assert_eq!(encode_utf16le(&"y".repeat(31), &mut buffer), Some(62));
}

#[test]
fn decoding_stops_at_an_unpaired_surrogate() {
    let (chars, end) = decode_utf16le(&[0x41, 0x00, 0x00, 0xD8, 0x42, 0x00]);
    assert_eq!(chars, vec!['A']);
    assert_eq!(end, 2);
}

#[test]
fn comparison_folds_case() {
    assert_eq!(compare_utf16le(&[0x61, 0], &[0x41, 0]), Ordering::Equal);
    assert_eq!(compare_utf16le(&[0x61, 0], &[0x42, 0]), Ordering::Less);
}

#[test]
fn object_types() {
    assert_eq!(CfObjectType::try_from(5).expect("root"), CfObjectType::RootStorage);
    assert!(CfObjectType::try_from(3).is_err());
    assert_eq!(CfObjectType::Storage.letter(), 'd');
    assert_eq!(CfObjectType::Stream.letter(), '-');
}

#[test]
fn pod_error_messages() {
    let e = PodError::SizeOfMismatch { length: 3, size_of: 16 };
    assert_eq!(e.to_display_string(), "Byte array is 3 bytes, expected at least 16 bytes.");
    let e = PodError::AlignOfMismatch { pointer: 0x1234_5679, align_of: 8 };
    assert_eq!(e.to_display_string(), "Byte array's pointer 0x******01 is not aligned to 8 bytes.");
}

#[test]
fn error_texts() {
    assert_eq!(CfError::from_kind(CfErrorInfo::ObjectNotFound).to_display_string(), "ObjectNotFound");
    assert_eq!(
        CfError::new(CfErrorInfo::OutOfRange(12), "past the chain").to_display_string(),
        "OutOfRange(12): past the chain"
    );
    assert_eq!(
        CfError::from_kind(CfErrorInfo::PodError(PodError::SizeOfMismatch { length: 1, size_of: 2 }))
            .to_display_string(),
        "Byte array is 1 bytes, expected at least 2 bytes."
    );
}
