//! Errors produced by the library.
use vstd::prelude::*;

use crate::text::{digits, pad_left, push_digits, push_padded, push_str};

verus! {

/// Why plain data could not be decoded from a byte sequence.
#[derive(Debug, Clone, Copy, PartialEq, Eq, Structural)]
pub enum PodError {
    /// The byte sequence is shorter than the encoded value.
    SizeOfMismatch { length: usize, size_of: usize },
    /// The byte sequence is not aligned for the value. Decoding copies the
    /// bytes, so this library never produces it; it stays for callers that
    /// match on it.
    AlignOfMismatch { pointer: usize, align_of: usize },
}

/// The message of a decoding error: the length found and the size
/// expected, or the misalignment of the bytes (the low part of their address
/// only, so as not to show the address) and the alignment expected.
pub open spec fn pod_error_text(e: PodError) -> Seq<char> {
    match e {
        PodError::SizeOfMismatch { length, size_of } => "Byte array is "@ + digits(
            length as nat,
            10,
        ) + " bytes, expected at least "@ + digits(size_of as nat, 10) + " bytes."@,
        PodError::AlignOfMismatch { pointer, align_of } => "Byte array's pointer 0x******"@
            + pad_left(digits((pointer % align_of) as nat, 16), 2, '0') + " is not aligned to "@
            + digits(align_of as nat, 10) + " bytes."@,
    }
}

impl PodError {
    /// The message of the error (see `pod_error_text`).
    pub fn to_display_string(&self) -> (r: String)
        requires
            self matches PodError::AlignOfMismatch { align_of, .. } ==> align_of > 0,
        ensures
            r@ == pod_error_text(*self),
    {
        let mut s = String::new();
        match *self {
            PodError::SizeOfMismatch { length, size_of } => {
                push_str(&mut s, "Byte array is ");
                push_digits(&mut s, length as u64, 10);
                push_str(&mut s, " bytes, expected at least ");
                push_digits(&mut s, size_of as u64, 10);
                push_str(&mut s, " bytes.");
            },
            PodError::AlignOfMismatch { pointer, align_of } => {
                push_str(&mut s, "Byte array's pointer 0x******");
                push_padded(&mut s, (pointer % align_of) as u64, 16, 2, '0');
                push_str(&mut s, " is not aligned to ");
                push_digits(&mut s, align_of as u64, 10);
                push_str(&mut s, " bytes.");
            },
        }
        assert(s@ =~= pod_error_text(*self));
        s
    }
}

/// The kind of a [`CfError`].
#[derive(Debug, Clone, Copy, PartialEq, Eq, Structural)]
pub enum CfErrorInfo {
    PodError(PodError),
    // Header
    BadHeaderSignature,
    BadHeaderClsid,
    BadMinorVersion,
    BadMajorVersion,
    BadByteOrder,
    BadSectorShift,
    BadMiniSectorShift,
    BadReservedField,
    BadNumberOfDirectorySectors,
    BadMiniStreamCutoffSize,
    // Directory entry
    BadDirectoryName,
    BadDirectoryNameLength,
    BadObjectType(u8),
    BadColorFlag,
    BadChildId,
    BadDirectoryClsid,
    BadStartingSectorLocation,
    BadStreamSize,
    // Not found
    OutOfRange(usize),
    SectorNotFound(u32),
    HeaderNotFound,
    DifatNotFound,
    ObjectNotFound,
    // Unaligned
    UnalignedHeader,
    UnalignedSector,
    UnalignedDifat,
    UnalignedFat,
    // Misc
    DirectoryNameTooLong,
    InvalidStorageObject,
    Other,
    Todo,
}

/// An error of the library: its kind and an optional message.
#[derive(Debug)]
pub struct CfError {
    pub message: String,
    pub kind: CfErrorInfo,
}

pub type CfResult<T> = Result<T, CfError>;

impl CfError {
    /// Builds an error of the given kind with a message.
    pub fn new(kind: CfErrorInfo, message: &str) -> (e: CfError)
        ensures
            e.kind == kind,
            e.message@ == message@,
    {
        CfError { message: message.to_owned(), kind }
    }

    /// Builds an error of the given kind with an empty message.
    pub fn from_kind(kind: CfErrorInfo) -> (e: CfError)
        ensures
            e.kind == kind,
            e.message@.len() == 0,
    {
        CfError { message: String::new(), kind }
    }
}

/// The text of an error kind: the message of a decoding error, else the
/// name of the kind, with its number between parentheses where it has one.
pub open spec fn kind_text(k: CfErrorInfo) -> Seq<char> {
    match k {
        CfErrorInfo::PodError(e) => pod_error_text(e),
        CfErrorInfo::BadHeaderSignature => "BadHeaderSignature"@,
        CfErrorInfo::BadHeaderClsid => "BadHeaderClsid"@,
        CfErrorInfo::BadMinorVersion => "BadMinorVersion"@,
        CfErrorInfo::BadMajorVersion => "BadMajorVersion"@,
        CfErrorInfo::BadByteOrder => "BadByteOrder"@,
        CfErrorInfo::BadSectorShift => "BadSectorShift"@,
        CfErrorInfo::BadMiniSectorShift => "BadMiniSectorShift"@,
        CfErrorInfo::BadReservedField => "BadReservedField"@,
        CfErrorInfo::BadNumberOfDirectorySectors => "BadNumberOfDirectorySectors"@,
        CfErrorInfo::BadMiniStreamCutoffSize => "BadMiniStreamCutoffSize"@,
        CfErrorInfo::BadDirectoryName => "BadDirectoryName"@,
        CfErrorInfo::BadDirectoryNameLength => "BadDirectoryNameLength"@,
        CfErrorInfo::BadColorFlag => "BadColorFlag"@,
        CfErrorInfo::BadChildId => "BadChildId"@,
        CfErrorInfo::BadDirectoryClsid => "BadDirectoryClsid"@,
        CfErrorInfo::BadStartingSectorLocation => "BadStartingSectorLocation"@,
        CfErrorInfo::BadStreamSize => "BadStreamSize"@,
        CfErrorInfo::HeaderNotFound => "HeaderNotFound"@,
        CfErrorInfo::DifatNotFound => "DifatNotFound"@,
        CfErrorInfo::ObjectNotFound => "ObjectNotFound"@,
        CfErrorInfo::UnalignedHeader => "UnalignedHeader"@,
        CfErrorInfo::UnalignedSector => "UnalignedSector"@,
        CfErrorInfo::UnalignedDifat => "UnalignedDifat"@,
        CfErrorInfo::UnalignedFat => "UnalignedFat"@,
        CfErrorInfo::DirectoryNameTooLong => "DirectoryNameTooLong"@,
        CfErrorInfo::InvalidStorageObject => "InvalidStorageObject"@,
        CfErrorInfo::Other => "Other"@,
        CfErrorInfo::Todo => "Todo"@,
        CfErrorInfo::BadObjectType(v) => "BadObjectType("@ + digits(v as nat, 10) + ")"@,
        CfErrorInfo::OutOfRange(v) => "OutOfRange("@ + digits(v as nat, 10) + ")"@,
        CfErrorInfo::SectorNotFound(v) => "SectorNotFound("@ + digits(v as nat, 10) + ")"@,
    }
}

/// The text of an error: the text of its kind, then `: ` and its message
/// where it has one.
pub open spec fn error_text(e: CfError) -> Seq<char> {
    if e.message@.len() == 0 {
        kind_text(e.kind)
    } else {
        kind_text(e.kind) + ": "@ + e.message@
    }
}

impl CfErrorInfo {
    /// Appends the text of the kind (see `kind_text`) to `s`.
    fn push_text(&self, s: &mut String)
        requires
            self matches CfErrorInfo::PodError(PodError::AlignOfMismatch { align_of, .. }) ==> align_of > 0,
        ensures
            final(s)@ == old(s)@ + kind_text(*self),
    {
        match *self {
            CfErrorInfo::PodError(e) => {
                let t = e.to_display_string();
                push_str(s, t.as_str());
            },
            CfErrorInfo::BadHeaderSignature => push_str(s, "BadHeaderSignature"),
            CfErrorInfo::BadHeaderClsid => push_str(s, "BadHeaderClsid"),
            CfErrorInfo::BadMinorVersion => push_str(s, "BadMinorVersion"),
            CfErrorInfo::BadMajorVersion => push_str(s, "BadMajorVersion"),
            CfErrorInfo::BadByteOrder => push_str(s, "BadByteOrder"),
            CfErrorInfo::BadSectorShift => push_str(s, "BadSectorShift"),
            CfErrorInfo::BadMiniSectorShift => push_str(s, "BadMiniSectorShift"),
            CfErrorInfo::BadReservedField => push_str(s, "BadReservedField"),
            CfErrorInfo::BadNumberOfDirectorySectors => push_str(s, "BadNumberOfDirectorySectors"),
            CfErrorInfo::BadMiniStreamCutoffSize => push_str(s, "BadMiniStreamCutoffSize"),
            CfErrorInfo::BadDirectoryName => push_str(s, "BadDirectoryName"),
            CfErrorInfo::BadDirectoryNameLength => push_str(s, "BadDirectoryNameLength"),
            CfErrorInfo::BadColorFlag => push_str(s, "BadColorFlag"),
            CfErrorInfo::BadChildId => push_str(s, "BadChildId"),
            CfErrorInfo::BadDirectoryClsid => push_str(s, "BadDirectoryClsid"),
            CfErrorInfo::BadStartingSectorLocation => push_str(s, "BadStartingSectorLocation"),
            CfErrorInfo::BadStreamSize => push_str(s, "BadStreamSize"),
            CfErrorInfo::HeaderNotFound => push_str(s, "HeaderNotFound"),
            CfErrorInfo::DifatNotFound => push_str(s, "DifatNotFound"),
            CfErrorInfo::ObjectNotFound => push_str(s, "ObjectNotFound"),
            CfErrorInfo::UnalignedHeader => push_str(s, "UnalignedHeader"),
            CfErrorInfo::UnalignedSector => push_str(s, "UnalignedSector"),
            CfErrorInfo::UnalignedDifat => push_str(s, "UnalignedDifat"),
            CfErrorInfo::UnalignedFat => push_str(s, "UnalignedFat"),
            CfErrorInfo::DirectoryNameTooLong => push_str(s, "DirectoryNameTooLong"),
            CfErrorInfo::InvalidStorageObject => push_str(s, "InvalidStorageObject"),
            CfErrorInfo::Other => push_str(s, "Other"),
            CfErrorInfo::Todo => push_str(s, "Todo"),
            CfErrorInfo::BadObjectType(v) => {
                push_str(s, "BadObjectType(");
                push_digits(s, v as u64, 10);
                push_str(s, ")");
            },
            CfErrorInfo::OutOfRange(v) => {
                push_str(s, "OutOfRange(");
                push_digits(s, v as u64, 10);
                push_str(s, ")");
            },
            CfErrorInfo::SectorNotFound(v) => {
                push_str(s, "SectorNotFound(");
                push_digits(s, v as u64, 10);
                push_str(s, ")");
            },
        }
    }
}

impl CfError {
    /// The text of the error (see `error_text`).
    pub fn to_display_string(&self) -> (r: String)
        requires
            self.kind matches CfErrorInfo::PodError(PodError::AlignOfMismatch { align_of, .. })
                ==> align_of > 0,
        ensures
            r@ == error_text(*self),
    {
        let mut s = String::new();
        self.kind.push_text(&mut s);
        if vstd::string::StrSliceExecFns::unicode_len(self.message.as_str()) > 0 {
            push_str(&mut s, ": ");
            push_str(&mut s, self.message.as_str());
        }
        assert(s@ =~= error_text(*self));
        s
    }
}

} // verus!
