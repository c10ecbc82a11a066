//! Directory entries: the storage and stream objects of a compound file.
use std::cmp::Ordering;
use vstd::prelude::*;
use vstd::slice::slice_subrange;

use crate::control::CfControlStream;
use crate::bytes::{le_u16, le_u32, le_u64, read_u16_le, read_u32_le, read_u64_le};
use crate::error::{CfError, CfErrorInfo, CfResult};
use crate::header::{all_zero, array_of, is_zero_bytes, read_bytes};
use crate::object::{spec_object_type, CfObjectType};
use crate::pod::Pod;
use crate::text::{digits, pad_left, push_char, push_padded};
use crate::utf16::{
    char_from_u32,
    is_scalar,
    lemma_decode_scalars,
    lemma_encode_last_nonzero,
    lemma_lex_compare_refl,
    lemma_utf16_roundtrip,
    compare_utf16le, decode_from, decode_utf16le, encode_utf16le, folded, le_units, lex_compare,
    units_le_bytes, utf16_encode,
};

verus! {

/// The largest regular directory entry number.
pub const CF_MAXREGSID: u32 = 0xFFFFFFFA;

/// "No entry": the sibling or child number that points nowhere.
pub const CF_NOSTREAM: u32 = 0xFFFFFFFF;

/// Identifier of a directory entry: its index in the directory stream.
pub type CfDirectoryId = u32;

/// An entry of the directory: the name, type, tree links and stream of a
/// storage or stream object (128 bytes in the file).
#[derive(Copy, Clone)]
pub struct CfDirectoryEntry {
    directory_name: [u8; 64],
    directory_name_length: u16,
    object_type: u8,
    color_flag: u8,
    pub left_sibling: u32,
    pub right_sibling: u32,
    pub child_id: u32,
    clsid: [u8; 16],
    state_bits: u32,
    creation_time: [u8; 8],
    modified_time: [u8; 8],
    pub starting_sector: u32,
    pub stream_size: u64,
}

impl Pod for CfDirectoryEntry {
    open spec fn spec_size_of() -> nat {
        128
    }

    closed spec fn spec_decode(b: Seq<u8>) -> CfDirectoryEntry {
        CfDirectoryEntry {
            directory_name: array_of::<64>(b.subrange(0, 64)),
            directory_name_length: le_u16(b, 64),
            object_type: b[66],
            color_flag: b[67],
            left_sibling: le_u32(b, 68),
            right_sibling: le_u32(b, 72),
            child_id: le_u32(b, 76),
            clsid: array_of::<16>(b.subrange(80, 96)),
            state_bits: le_u32(b, 96),
            creation_time: array_of::<8>(b.subrange(100, 108)),
            modified_time: array_of::<8>(b.subrange(108, 116)),
            starting_sector: le_u32(b, 116),
            stream_size: le_u64(b, 120),
        }
    }

    fn size_of() -> (n: usize) {
        128
    }

    fn decode(b: &[u8]) -> (e: CfDirectoryEntry) {
        CfDirectoryEntry {
            directory_name: read_bytes(b, 0),
            directory_name_length: read_u16_le(b, 64),
            object_type: b[66],
            color_flag: b[67],
            left_sibling: read_u32_le(b, 68),
            right_sibling: read_u32_le(b, 72),
            child_id: read_u32_le(b, 76),
            clsid: read_bytes(b, 80),
            state_bits: read_u32_le(b, 96),
            creation_time: read_bytes(b, 100),
            modified_time: read_bytes(b, 108),
            starting_sector: read_u32_le(b, 116),
            stream_size: read_u64_le(b, 120),
        }
    }
}

/// The length in bytes of a name: the declared length (at most 64) where it
/// is not zero, else up to and including the first null character (64 where
/// there is none).
pub open spec fn spec_length_in_bytes(name: Seq<u8>, length: usize) -> int {
    if length > 0 {
        if length < 64 {
            length as int
        } else {
            64
        }
    } else {
        match first_null_unit(name, 0) {
            Some(p) => 2 * p + 2,
            None => 64,
        }
    }
}

/// The first null code unit of a 64-byte name from unit `i` on.
pub open spec fn first_null_unit(name: Seq<u8>, i: int) -> Option<int>
    decreases 32 - i,
{
    if i < 0 || i >= 32 {
        None
    } else if name[2 * i] == 0 && name[2 * i + 1] == 0 {
        Some(i)
    } else {
        first_null_unit(name, i + 1)
    }
}

/// The bytes of a name, as its length declares them.
pub open spec fn spec_name_bytes(name: Seq<u8>, length: usize) -> Seq<u8> {
    name.take(spec_length_in_bytes(name, length))
}

/// The bytes of a name without its null terminator: the last whole code
/// unit is dropped where it is null.
pub open spec fn spec_name_nz(bytes: Seq<u8>) -> Seq<u8> {
    let units = bytes.len() / 2;
    if units > 0 && bytes[2 * units - 2] == 0 && bytes[2 * units - 1] == 0 {
        bytes.take(bytes.len() - 2)
    } else {
        bytes
    }
}

/// A name is valid when it ends with a null unit, decodes entirely as
/// UTF-16LE and holds none of the characters `/`, `\`, `:` and `!`.
pub open spec fn spec_name_valid(bytes: Seq<u8>) -> bool {
    let units = bytes.len() / 2;
    &&& units > 0 && bytes[2 * units - 2] == 0 && bytes[2 * units - 1] == 0
    &&& 2 * decode_from(le_units(bytes), 0).1 == bytes.len()
    &&& forall|i: int|
        0 <= i < decode_from(le_units(bytes), 0).0.len() ==> !is_forbidden_scalar(
            #[trigger] decode_from(le_units(bytes), 0).0[i],
        )
}

/// The scalar values of `/`, `\`, `:` and `!`.
pub open spec fn is_forbidden_scalar(v: u32) -> bool {
    v == 0x2F || v == 0x5C || v == 0x3A || v == 0x21
}

/// How a name compares with `other`: `None` where `other` is too long to be
/// a name; else the sign of the comparison (shorter names come first, then
/// names of the same length compare unit by unit after simple uppercase
/// mapping).
pub open spec fn spec_compare_name(bytes: Seq<u8>, other: Seq<char>) -> Option<int> {
    if utf16_encode(other).len() > 31 {
        None
    } else {
        let name = spec_name_nz(bytes);
        let o = units_le_bytes(utf16_encode(other));
        if name.len() < o.len() {
            Some(-1)
        } else if name.len() > o.len() {
            Some(1)
        } else {
            Some(lex_compare(folded(le_units(name)), folded(le_units(o)), 0))
        }
    }
}

/// Directory order puts shorter names first: where the name (without its
/// terminator) is shorter than the encoding of `other`, the name comes
/// before `other`, and where it is longer, after, whatever the units hold.
/// A key of more than 31 UTF-16 units is never compared.
pub proof fn lemma_compare_name_by_length(bytes: Seq<u8>, other: Seq<char>)
    ensures
        utf16_encode(other).len() > 31 <==> spec_compare_name(bytes, other) is None,
        utf16_encode(other).len() <= 31 && spec_name_nz(bytes).len() < 2 * utf16_encode(other).len()
            ==> (spec_compare_name(bytes, other) matches Some(c) && c < 0),
        utf16_encode(other).len() <= 31 && spec_name_nz(bytes).len() > 2 * utf16_encode(other).len()
            ==> (spec_compare_name(bytes, other) matches Some(c) && c > 0),
{
}

/// Names of the same length compare unit by unit: two names whose units
/// are the same after folding compare equal, and a name compares before
/// `other` exactly where `other`'s encoding compares before it (the order
/// is antisymmetric).
pub proof fn lemma_compare_same_length(a: Seq<u16>, b: Seq<u16>, i: int)
    requires
        0 <= i,
        a.len() == b.len(),
    ensures
        lex_compare(a, b, i) < 0 <==> lex_compare(b, a, i) > 0,
        lex_compare(a, b, i) == 0 <==> lex_compare(b, a, i) == 0,
        a == b ==> lex_compare(a, b, i) == 0,
    decreases a.len() - i,
{
    if i < a.len() {
        lemma_compare_same_length(a, b, i + 1);
    }
}

impl CfDirectoryEntry {
    pub closed spec fn spec_name(&self) -> Seq<u8> {
        self.directory_name@
    }

    pub closed spec fn spec_name_length(&self) -> usize {
        self.directory_name_length as usize
    }

    pub closed spec fn spec_object_type_byte(&self) -> u8 {
        self.object_type
    }

    pub closed spec fn spec_modified_time(&self) -> [u8; 8] {
        self.modified_time
    }

    pub closed spec fn spec_left(&self) -> u32 {
        self.left_sibling
    }

    pub closed spec fn spec_right(&self) -> u32 {
        self.right_sibling
    }

    pub closed spec fn spec_child(&self) -> u32 {
        self.child_id
    }

    pub closed spec fn spec_starting_sector(&self) -> u32 {
        self.starting_sector
    }

    pub closed spec fn spec_stream_size(&self) -> u64 {
        self.stream_size
    }

    /// Do `self` and `other` hold the same fields, but for the name and its
    /// length?
    pub closed spec fn spec_same_but_name(&self, other: CfDirectoryEntry) -> bool {
        &&& self.object_type == other.object_type
        &&& self.color_flag == other.color_flag
        &&& self.left_sibling == other.left_sibling
        &&& self.right_sibling == other.right_sibling
        &&& self.child_id == other.child_id
        &&& self.clsid == other.clsid
        &&& self.state_bits == other.state_bits
        &&& self.creation_time == other.creation_time
        &&& self.modified_time == other.modified_time
        &&& self.starting_sector == other.starting_sector
        &&& self.stream_size == other.stream_size
    }

    /// Entries that differ only by their names agree on every field that has
    /// an accessor.
    pub proof fn lemma_same_but_name(&self, other: CfDirectoryEntry)
        requires
            self.spec_same_but_name(other),
        ensures
            self.spec_object_type_byte() == other.spec_object_type_byte(),
            self.spec_left() == other.spec_left(),
            self.spec_right() == other.spec_right(),
            self.spec_child() == other.spec_child(),
            self.spec_starting_sector() == other.spec_starting_sector(),
            self.spec_stream_size() == other.spec_stream_size(),
            self.spec_modified_time() == other.spec_modified_time(),
    {
    }

    pub closed spec fn spec_color_flag(&self) -> u8 {
        self.color_flag
    }

    pub closed spec fn spec_clsid(&self) -> Seq<u8> {
        self.clsid@
    }

    /// What `validate_pedantic` returns for this entry: the declared name
    /// length must be even and at most 64, the name valid, the type known,
    /// the color red or black, a stream without children and with a null
    /// class id, a storage without stream.
    pub open spec fn spec_validate_pedantic(&self) -> Result<CfObjectType, CfErrorInfo> {
        if self.spec_name_length() % 2 != 0 || self.spec_name_length() > 64 {
            Err(CfErrorInfo::BadDirectoryNameLength)
        } else if !spec_name_valid(self.spec_name_key_bytes()) {
            Err(CfErrorInfo::BadDirectoryName)
        } else {
            match spec_object_type(self.spec_object_type_byte()) {
                None => Err(CfErrorInfo::BadObjectType(self.spec_object_type_byte())),
                Some(t) => if self.spec_color_flag() != 0 && self.spec_color_flag() != 1 {
                    Err(CfErrorInfo::BadColorFlag)
                } else if t == CfObjectType::Stream && self.spec_child() != CF_NOSTREAM {
                    Err(CfErrorInfo::BadChildId)
                } else if t == CfObjectType::Stream && !is_zero_bytes(self.spec_clsid()) {
                    Err(CfErrorInfo::BadDirectoryClsid)
                } else if t == CfObjectType::Storage && self.spec_starting_sector() != 0 {
                    Err(CfErrorInfo::BadStartingSectorLocation)
                } else if t == CfObjectType::Storage && self.spec_stream_size() != 0 {
                    Err(CfErrorInfo::BadStreamSize)
                } else {
                    Ok(t)
                },
            }
        }
    }

    /// Checks every field of the entry that the format constrains (see
    /// `spec_validate_pedantic`) and returns its object type.
    pub fn validate_pedantic(&self) -> (r: CfResult<CfObjectType>)
        ensures
            r is Ok <==> self.spec_validate_pedantic() is Ok,
            r matches Ok(t) ==> self.spec_validate_pedantic() == Ok::<CfObjectType, CfErrorInfo>(t),
            r matches Err(e) ==> self.spec_validate_pedantic() == Err::<CfObjectType, CfErrorInfo>(
                e.kind,
            ),
    {
        if self.directory_name_length % 2 != 0 || self.directory_name_length > 64 {
            return Err(CfError::from_kind(CfErrorInfo::BadDirectoryNameLength));
        }
        self.name().validate()?;
        let object_type = CfObjectType::try_from(self.object_type)?;
        if self.color_flag != 0 && self.color_flag != 1 {
            return Err(CfError::from_kind(CfErrorInfo::BadColorFlag));
        }
        if object_type.is_stream() && self.child_id != CF_NOSTREAM {
            return Err(CfError::from_kind(CfErrorInfo::BadChildId));
        }
        if object_type.is_stream() && !all_zero(&self.clsid) {
            return Err(CfError::from_kind(CfErrorInfo::BadDirectoryClsid));
        }
        if object_type.is_storage() && self.starting_sector != 0 {
            return Err(CfError::from_kind(CfErrorInfo::BadStartingSectorLocation));
        }
        if object_type.is_storage() && self.stream_size != 0 {
            return Err(CfError::from_kind(CfErrorInfo::BadStreamSize));
        }
        Ok(object_type)
    }

    /// The bytes of the name, as its length declares them.
    pub open spec fn spec_name_key_bytes(&self) -> Seq<u8> {
        spec_name_bytes(self.spec_name(), self.spec_name_length())
    }

    /// The first child of the entry, or `CF_NOSTREAM`.
    pub fn child(&self) -> (r: u32)
        ensures
            r == self.spec_child(),
    {
        self.child_id
    }

    /// The first sector of the entry's stream.
    pub fn first_sector(&self) -> (r: u32)
        ensures
            r == self.spec_starting_sector(),
    {
        self.starting_sector
    }

    /// The size of the entry's stream, in bytes.
    pub fn stream_len(&self) -> (r: u64)
        ensures
            r == self.spec_stream_size(),
    {
        self.stream_size
    }

    /// The name starts with 0x05: the entry is a property set (MS-OLEPS).
    pub fn is_property_set(&self) -> (r: bool)
        ensures
            r == (self.spec_name()[0] == 0x05),
    {
        self.directory_name[0] == 0x05
    }

    /// The name of the entry.
    pub fn name(&self) -> (r: CfDirectoryName<'_>)
        ensures
            r.name@ == self.spec_name(),
            r.length == self.spec_name_length(),
    {
        CfDirectoryName { name: &self.directory_name, length: self.directory_name_length as usize }
    }

    /// The object type that the entry declares.
    pub fn object_type(&self) -> (r: CfResult<CfObjectType>)
        ensures
            r is Ok <==> spec_object_type(self.spec_object_type_byte()) is Some,
            r matches Ok(t) ==> spec_object_type(self.spec_object_type_byte()) == Some(t),
            r matches Err(e) ==> e.kind == CfErrorInfo::BadObjectType(self.spec_object_type_byte()),
    {
        CfObjectType::try_from(self.object_type)
    }

    /// Checks the entry and returns its object type; the one check made is
    /// that the object type byte is a known type.
    pub fn validate(&self) -> (r: CfResult<CfObjectType>)
        ensures
            r is Ok <==> spec_object_type(self.spec_object_type_byte()) is Some,
            r matches Ok(t) ==> spec_object_type(self.spec_object_type_byte()) == Some(t),
            r matches Err(e) ==> e.kind == CfErrorInfo::BadObjectType(self.spec_object_type_byte()),
    {
        CfObjectType::try_from(self.object_type)
    }

    /// The modification time, a little-endian Windows FILETIME.
    pub fn modified_time(&self) -> (r: [u8; 8])
        ensures
            r == self.spec_modified_time(),
    {
        self.modified_time
    }

    /// Renames the entry: the name is stored in UTF-16LE, zero-filled, and
    /// its length (without terminator) recorded. `DirectoryNameTooLong`, with
    /// the entry unchanged, where the name takes more than 31 code units.
    pub fn set_name(&mut self, name: &str) -> (r: CfResult<&Self>)
        ensures
            r matches Ok(e) ==> *e == *final(self),
            r is Ok <==> utf16_encode(name@).len() <= 31,
            r is Ok ==> final(self).spec_name().take(2 * utf16_encode(name@).len() as int)
                == units_le_bytes(utf16_encode(name@)) && final(self).spec_name_length() == 2
                * utf16_encode(name@).len() && forall|i: int|
                2 * utf16_encode(name@).len() <= i < 64 ==> #[trigger] final(self).spec_name()[i]
                    == 0,
            final(self).spec_same_but_name(*old(self)),
            r matches Err(e) ==> e.kind == CfErrorInfo::DirectoryNameTooLong && *final(self)
                == *old(self),
    {
        let mut buffer = self.directory_name;
        match encode_utf16le(name, &mut buffer) {
            None => Err(CfError::from_kind(CfErrorInfo::DirectoryNameTooLong)),
            Some(length) => {
                self.directory_name = buffer;
                self.directory_name_length = length as u16;
                Ok(&*self)
            },
        }
    }
}

/// How a character of a name shows: an ASCII control character as
/// `\x{XX}`, another control character (U+0080 to U+009F) as `\u{XXXX}`,
/// any other character as itself.
pub open spec fn shown_scalar(v: u32) -> Seq<char> {
    if v < 0x20 || v == 0x7F {
        seq!['\\', 'x', '{'] + pad_left(digits(v as nat, 16), 2, '0') + seq!['}']
    } else if 0x80 <= v <= 0x9F {
        seq!['\\', 'u', '{'] + pad_left(digits(v as nat, 16), 4, '0') + seq!['}']
    } else {
        seq![v as char]
    }
}

/// The characters `vs` as a name shows them.
pub open spec fn shown_scalars(vs: Seq<u32>) -> Seq<char>
    decreases vs.len(),
{
    if vs.len() == 0 {
        seq![]
    } else {
        shown_scalars(vs.drop_last()) + shown_scalar(vs.last())
    }
}

/// Bytes that do not decode, each as `\x{XX}`.
pub open spec fn escaped_bytes(bs: Seq<u8>) -> Seq<char>
    decreases bs.len(),
{
    if bs.len() == 0 {
        seq![]
    } else {
        escaped_bytes(bs.drop_last()) + seq!['\\', 'x', '{'] + pad_left(
            digits(bs.last() as nat, 16),
            2,
            '0',
        ) + seq!['}']
    }
}

/// How the name whose bytes are `bytes` shows: `(empty)` where it holds
/// nothing but its terminator, else its characters (see `shown_scalar`)
/// and then the bytes that do not decode (see `escaped_bytes`).
pub open spec fn name_text(bytes: Seq<u8>) -> Seq<char> {
    let nz = spec_name_nz(bytes);
    if nz.len() == 0 {
        seq!['(', 'e', 'm', 'p', 't', 'y', ')']
    } else {
        let (vs, end) = decode_from(le_units(nz), 0);
        shown_scalars(vs) + escaped_bytes(nz.skip(2 * end))
    }
}

/// What `set_name(n)` writes reads back as `n`: the bytes of the name
/// without its terminator are the UTF-16LE encoding of `n`, they decode to
/// the characters of `n`, and the name compares equal to `n`. A name that
/// ends with U+0000 is left out: that character reads as a terminator.
pub proof fn lemma_set_name_roundtrip(e: CfDirectoryEntry, n: Seq<char>)
    requires
        utf16_encode(n).len() <= 31,
        e.spec_name().take(2 * utf16_encode(n).len() as int) == units_le_bytes(utf16_encode(n)),
        e.spec_name_length() == 2 * utf16_encode(n).len(),
        forall|i: int| 2 * utf16_encode(n).len() <= i < 64 ==> #[trigger] e.spec_name()[i] == 0,
        n.len() == 0 || n.last() != '\0',
    ensures
        spec_name_nz(e.spec_name_key_bytes()) == units_le_bytes(utf16_encode(n)),
        decode_from(le_units(spec_name_nz(e.spec_name_key_bytes())), 0).0 == n.map_values(
            |c: char| c as u32,
        ),
        spec_compare_name(e.spec_name_key_bytes(), n) == Some(0int),
{
    let units = utf16_encode(n);
    let b = units_le_bytes(units);
    let name = e.spec_name();
    let key = e.spec_name_key_bytes();
    assert(name.len() == 64);
    if units.len() == 0 {
        if n.len() > 0 {
            lemma_encode_last_nonzero(n);
        }
        assert(name[0] == 0 && name[1] == 0);
        assert(first_null_unit(name, 0) == Some(0int));
        assert(key =~= name.take(2));
        assert(spec_name_nz(key) =~= b);
    } else {
        assert(n.len() > 0) by {
            if n.len() == 0 {
                assert(utf16_encode(n) =~= Seq::<u16>::empty());
            }
        }
        lemma_encode_last_nonzero(n);
        assert(key == name.take(2 * units.len() as int));
        let k = units.len() - 1;
        assert(b[2 * k] == (units[k] % 256) as u8);
        assert(b[2 * k + 1] == (units[k] / 256) as u8);
        assert(!(units[k] % 256 == 0 && units[k] / 256 == 0));
        assert(spec_name_nz(key) == b);
    }
    lemma_utf16_roundtrip(n);
    lemma_lex_compare_refl(folded(le_units(b)), 0);
}

/// The name of a directory entry: 64 bytes of UTF-16LE and the length that
/// the entry declares.
pub struct CfDirectoryName<'directory> {
    pub name: &'directory [u8; 64],
    pub length: usize,
}

impl<'directory> CfDirectoryName<'directory> {
    /// The characters that names may not hold: `/`, `\`, `:` and `!`.
    fn is_forbidden(character: char) -> (r: bool)
        ensures
            r == is_forbidden_scalar(character as u32),
    {
        character == '/' || character == '\\' || character == ':' || character == '!'
    }

    /// The length of the name in bytes, between 0 and 64 (see
    /// `spec_length_in_bytes`).
    fn length_in_bytes(&self) -> (r: usize)
        ensures
            r == spec_length_in_bytes(self.name@, self.length),
            r <= 64,
    {
        if self.length > 0 {
            return if self.length < 64 {
                self.length
            } else {
                64
            };
        }
        let mut i: usize = 0;
        while i < 32
            invariant
                i <= 32,
                self.length == 0,
                self.name@.len() == 64,
                first_null_unit(self.name@, i as int) == first_null_unit(self.name@, 0),
            decreases 32 - i,
        {
            if self.name[2 * i] == 0 && self.name[2 * i + 1] == 0 {
                return 2 * i + 2;
            }
            i = i + 1;
        }
        64
    }

    /// The bytes of the name, as its length declares them.
    fn as_bytes(&self) -> (r: &[u8])
        ensures
            r@ == spec_name_bytes(self.name@, self.length),
    {
        let length = self.length_in_bytes();
        slice_subrange(self.name.as_slice(), 0, length)
    }

    /// The bytes of the name without its null terminator.
    fn as_slice_nz(&self) -> (r: &[u8])
        ensures
            r@ == spec_name_nz(spec_name_bytes(self.name@, self.length)),
    {
        let name = self.as_bytes();
        let length = name.len();
        let units = length / 2;
        if units > 0 && name[2 * units - 2] == 0 && name[2 * units - 1] == 0 {
            slice_subrange(name, 0, length - 2)
        } else {
            name
        }
    }

    /// How the name shows (see `name_text`).
    pub fn to_display_string(&self) -> (r: String)
        ensures
            r@ == name_text(spec_name_bytes(self.name@, self.length)),
    {
        let name = self.as_slice_nz();
        let mut s = String::new();
        if name.len() == 0 {
            push_char(&mut s, '(');
            push_char(&mut s, 'e');
            push_char(&mut s, 'm');
            push_char(&mut s, 'p');
            push_char(&mut s, 't');
            push_char(&mut s, 'y');
            push_char(&mut s, ')');
            assert(s@ =~= seq!['(', 'e', 'm', 'p', 't', 'y', ')']);
            return s;
        }
        let (characters, end) = decode_utf16le(name);
        let ghost vs = decode_from(le_units(name@), 0).0;
        proof {
            lemma_decode_scalars(le_units(name@), 0);
        }
        let mut i: usize = 0;
        while i < characters.len()
            invariant
                i <= characters@.len(),
                characters@.len() == vs.len(),
                forall|j: int| 0 <= j < vs.len() ==> #[trigger] characters@[j] as u32 == vs[j],
                forall|j: int| 0 <= j < vs.len() ==> is_scalar(#[trigger] vs[j]),
                s@ == shown_scalars(vs.take(i as int)),
            decreases characters@.len() - i,
        {
            let c = characters[i];
            let v = c as u32;
            assert(v == vs[i as int]);
            if v < 0x20 || v == 0x7F {
                push_char(&mut s, '\\');
                push_char(&mut s, 'x');
                push_char(&mut s, '{');
                push_padded(&mut s, v as u64, 16, 2, '0');
                push_char(&mut s, '}');
            } else if 0x80 <= v && v <= 0x9F {
                push_char(&mut s, '\\');
                push_char(&mut s, 'u');
                push_char(&mut s, '{');
                push_padded(&mut s, v as u64, 16, 4, '0');
                push_char(&mut s, '}');
            } else {
                assert(is_scalar(vs[i as int]));
                match char_from_u32(v) {
                    Some(shown) => push_char(&mut s, shown),
                    None => push_char(&mut s, c),
                }
            }
            proof {
                let t = vs.take(i + 1);
                assert(t.drop_last() =~= vs.take(i as int));
                assert(t.last() == v);
            }
            i = i + 1;
            assert(s@ =~= shown_scalars(vs.take(i as int)));
        }
        assert(vs.take(vs.len() as int) =~= vs);
        let ghost shown = s@;
        let mut k = end;
        while k < name.len()
            invariant
                end <= k <= name@.len(),
                s@ == shown + escaped_bytes(name@.subrange(end as int, k as int)),
            decreases name@.len() - k,
        {
            let b = name[k];
            push_char(&mut s, '\\');
            push_char(&mut s, 'x');
            push_char(&mut s, '{');
            push_padded(&mut s, b as u64, 16, 2, '0');
            push_char(&mut s, '}');
            proof {
                let t = name@.subrange(end as int, k + 1);
                assert(t.drop_last() =~= name@.subrange(end as int, k as int));
                assert(t.last() == b);
            }
            k = k + 1;
            assert(s@ =~= shown + escaped_bytes(name@.subrange(end as int, k as int)));
        }
        assert(name@.subrange(end as int, name@.len() as int) =~= name@.skip(end as int));
        s
    }

    /// Checks that the name ends with a null unit, decodes entirely as
    /// UTF-16LE and holds no forbidden character; else `BadDirectoryName`.
    pub fn validate(&self) -> (r: CfResult<()>)
        ensures
            r is Ok <==> spec_name_valid(spec_name_bytes(self.name@, self.length)),
            r matches Err(e) ==> e.kind == CfErrorInfo::BadDirectoryName,
    {
        let name = self.as_bytes();
        let units = name.len() / 2;
        if !(units > 0 && name[2 * units - 2] == 0 && name[2 * units - 1] == 0) {
            return Err(CfError::from_kind(CfErrorInfo::BadDirectoryName));
        }
        let (characters, end) = decode_utf16le(name);
        if end != name.len() {
            return Err(CfError::from_kind(CfErrorInfo::BadDirectoryName));
        }
        let mut i: usize = 0;
        while i < characters.len()
            invariant
                i <= characters@.len(),
                name@ == spec_name_bytes(self.name@, self.length),
                characters@.len() == decode_from(le_units(name@), 0).0.len(),
                forall|j: int|
                    0 <= j < characters@.len() ==> #[trigger] characters@[j] as u32 == decode_from(
                        le_units(name@),
                        0,
                    ).0[j],
                forall|j: int|
                    0 <= j < i ==> !is_forbidden_scalar(
                        #[trigger] decode_from(le_units(name@), 0).0[j],
                    ),
            decreases characters@.len() - i,
        {
            if Self::is_forbidden(characters[i]) {
                assert(is_forbidden_scalar(decode_from(le_units(name@), 0).0[i as int]));
                return Err(CfError::from_kind(CfErrorInfo::BadDirectoryName));
            }
            i = i + 1;
        }
        Ok(())
    }

    /// Compares the name with `other` as directories order their entries:
    /// a shorter name comes first; names of the same length compare unit by
    /// unit after simple uppercase mapping. The terminator does not take
    /// part. `DirectoryNameTooLong` where `other` takes more than 31 UTF-16
    /// code units.
    pub fn try_compare(&self, other: &str) -> (r: CfResult<Ordering>)
        ensures
            r is Ok <==> spec_compare_name(spec_name_bytes(self.name@, self.length), other@) is Some,
            r matches Ok(o) ==> spec_compare_name(spec_name_bytes(self.name@, self.length), other@)
                matches Some(c) && (o == Ordering::Less) == (c < 0) && (o == Ordering::Equal) == (c
                == 0) && (o == Ordering::Greater) == (c > 0),
            r matches Err(e) ==> e.kind == CfErrorInfo::DirectoryNameTooLong,
    {
        let mut buffer = [0u8; 64];
        let length = match encode_utf16le(other, &mut buffer) {
            None => {
                return Err(CfError::from_kind(CfErrorInfo::DirectoryNameTooLong));
            },
            Some(length) => length,
        };
        let other_bytes = slice_subrange(buffer.as_slice(), 0, length);
        let name = self.as_slice_nz();
        if name.len() < other_bytes.len() {
            return Ok(Ordering::Less);
        }
        if name.len() > other_bytes.len() {
            return Ok(Ordering::Greater);
        }
        Ok(compare_utf16le(name, other_bytes))
    }
}

/// The sign of the comparison of `name` with `other` (see `try_compare`).
fn compare_sign(name: &CfDirectoryName, other: &str) -> (r: CfResult<i8>)
    ensures
        r is Ok <==> spec_compare_name(spec_name_bytes(name.name@, name.length), other@) is Some,
        r matches Ok(c) ==> spec_compare_name(spec_name_bytes(name.name@, name.length), other@)
            matches Some(s) && (c < 0) == (s < 0) && (c == 0) == (s == 0) && (c > 0) == (s > 0),
        r matches Err(e) ==> e.kind == CfErrorInfo::DirectoryNameTooLong,
{
    match name.try_compare(other) {
        Ok(Ordering::Less) => Ok(-1i8),
        Ok(Ordering::Equal) => Ok(0i8),
        Ok(Ordering::Greater) => Ok(1i8),
        Err(e) => Err(e),
    }
}

/// The stream of directory entries.
pub type CfDirectoryStream = CfControlStream<CfDirectoryEntry>;

/// The entry that the directory stream holds at index `id`.
pub open spec fn entry_at(stream: CfDirectoryStream, id: u32) -> Option<CfDirectoryEntry> {
    match stream.spec_element(id as nat) {
        Some(b) => Some(CfDirectoryEntry::spec_decode(b)),
        None => None,
    }
}

/// Why a search or a walk of the directory fails: an error of a known kind,
/// or an entry that cannot be read (whose error is the one that reading it
/// gives, see `CfControlStream::spec_error`).
#[derive(Debug, Clone, Copy, PartialEq, Eq, Structural)]
pub enum CfDirectoryFailure {
    Kind(CfErrorInfo),
    Unreadable(u32),
}

/// May a search or walk of directory `stream` that fails for `f` give an
/// error of kind `kind`?
pub open spec fn failure_error(stream: CfDirectoryStream, f: CfDirectoryFailure, kind: CfErrorInfo) -> bool {
    match f {
        CfDirectoryFailure::Kind(k) => kind == k,
        CfDirectoryFailure::Unreadable(id) => stream.spec_error(id as nat, kind),
    }
}

/// The search for `key` among the siblings from entry `id` on, where
/// `visited` holds the entries already compared: entries are compared with
/// the key and the search goes right from a smaller name and left from a
/// greater one, until the name is found (`Some`) or a side is empty
/// (`None`). It fails where the search comes back to an entry already
/// compared (`Other`), where an entry cannot be read (the error of that
/// read, see `spec_error`), has an unknown type (`BadObjectType`) or the
/// unallocated type (`Todo`), or where `key` is too long to be a name
/// (`DirectoryNameTooLong`).
pub open spec fn search_spec(
    stream: CfDirectoryStream,
    id: u32,
    key: Seq<char>,
    visited: Seq<u32>,
) -> Result<Option<CfDirectoryEntry>, CfDirectoryFailure>
    decreases 0x1_0000_0000 - visited.len(),
{
    if visited.len() >= 0x1_0000_0000 || visited.contains(id) {
        Err(CfDirectoryFailure::Kind(CfErrorInfo::Other))
    } else {
        match entry_at(stream, id) {
            None => Err(CfDirectoryFailure::Unreadable(id)),
            Some(e) => match spec_object_type(e.spec_object_type_byte()) {
                None => Err(CfDirectoryFailure::Kind(CfErrorInfo::BadObjectType(e.spec_object_type_byte()))),
                Some(t) => if t == CfObjectType::Unallocated {
                    Err(CfDirectoryFailure::Kind(CfErrorInfo::Todo))
                } else {
                    match spec_compare_name(e.spec_name_key_bytes(), key) {
                        None => Err(CfDirectoryFailure::Kind(CfErrorInfo::DirectoryNameTooLong)),
                        Some(c) => if c == 0 {
                            Ok(Some(e))
                        } else if c < 0 {
                            if e.spec_right() != CF_NOSTREAM {
                                search_spec(stream, e.spec_right(), key, visited.push(id))
                            } else {
                                Ok(None)
                            }
                        } else {
                            if e.spec_left() != CF_NOSTREAM {
                                search_spec(stream, e.spec_left(), key, visited.push(id))
                            } else {
                                Ok(None)
                            }
                        },
                    }
                },
            },
        }
    }
}

/// The in-order walk of the siblings tree from entry `id`: left subtree,
/// entry, right subtree. A subtree that cannot be walked is left out; the
/// walk fails where its root comes back to one of its ancestors (`Other`),
/// cannot be read (the error of that read, see `spec_error`), has an unknown
/// type (`BadObjectType`) or the unallocated type (`Todo`).
pub open spec fn walk_spec(stream: CfDirectoryStream, id: u32, ancestors: Seq<u32>) -> Result<
    Seq<CfDirectoryEntry>,
    CfDirectoryFailure,
>
    decreases 0x1_0000_0000 - ancestors.len(),
{
    if ancestors.len() >= 0x1_0000_0000 || ancestors.contains(id) {
        Err(CfDirectoryFailure::Kind(CfErrorInfo::Other))
    } else {
        match entry_at(stream, id) {
            None => Err(CfDirectoryFailure::Unreadable(id)),
            Some(e) => match spec_object_type(e.spec_object_type_byte()) {
                None => Err(CfDirectoryFailure::Kind(CfErrorInfo::BadObjectType(e.spec_object_type_byte()))),
                Some(t) => if t == CfObjectType::Unallocated {
                    Err(CfDirectoryFailure::Kind(CfErrorInfo::Todo))
                } else {
                    let inner = ancestors.push(id);
                    let left = if e.spec_left() < CF_MAXREGSID {
                        match walk_spec(stream, e.spec_left(), inner) {
                            Ok(s) => s,
                            Err(_) => Seq::empty(),
                        }
                    } else {
                        Seq::empty()
                    };
                    let right = if e.spec_right() < CF_MAXREGSID {
                        match walk_spec(stream, e.spec_right(), inner) {
                            Ok(s) => s,
                            Err(_) => Seq::empty(),
                        }
                    } else {
                        Seq::empty()
                    };
                    Ok(left + seq![e] + right)
                },
            },
        }
    }
}

/// Does `ids` hold `id`?
fn holds(ids: &Vec<u32>, id: u32) -> (r: bool)
    ensures
        r == ids@.contains(id),
{
    let mut i: usize = 0;
    while i < ids.len()
        invariant
            i <= ids@.len(),
            forall|j: int| 0 <= j < i ==> ids@[j] != id,
        decreases ids@.len() - i,
    {
        if ids[i] == id {
            return true;
        }
        i = i + 1;
    }
    false
}

impl CfControlStream<CfDirectoryEntry> {
    /// The entry at index `id`.
    pub fn entry(&self, id: CfDirectoryId) -> (r: CfResult<CfDirectoryEntry>)
        ensures
            r is Ok <==> entry_at(*self, id) is Some,
            r matches Ok(e) ==> entry_at(*self, id) == Some(e),
            r matches Err(e) ==> self.spec_error(id as nat, e.kind),
    {
        proof {
            crate::cfcore::lemma_core_sector_size(self.spec_core());
            self.lemma_index_ok(id as nat);
        }
        self.nth_element(id as usize)
    }

    /// Looks for the entry named `child_name` among the siblings from entry
    /// `current_id` on (see `search_spec`).
    pub fn locate_entry(&self, current_id: CfDirectoryId, child_name: &str) -> (r: CfResult<
        Option<CfDirectoryEntry>,
    >)
        ensures
            r is Ok <==> search_spec(*self, current_id, child_name@, Seq::empty()) is Ok,
            r matches Ok(o) ==> search_spec(*self, current_id, child_name@, Seq::empty()) == Ok::<
                Option<CfDirectoryEntry>,
                CfDirectoryFailure,
            >(o),
            r matches Err(e) ==> search_spec(*self, current_id, child_name@, Seq::empty()) matches Err(
                f,
            ) && failure_error(*self, f, e.kind),
    {
        let mut id = current_id;
        let mut visited: Vec<u32> = Vec::new();
        loop
            invariant
                search_spec(*self, id, child_name@, visited@) == search_spec(
                    *self,
                    current_id,
                    child_name@,
                    Seq::empty(),
                ),
            decreases 0x1_0000_0000 - visited@.len(),
        {
            if visited.len() as u64 >= 0x1_0000_0000u64 || holds(&visited, id) {
                return Err(CfError::new(CfErrorInfo::Other, "cycle among the directory entries"));
            }
            let entry = self.entry(id)?;
            let object_type = entry.object_type()?;
            if object_type.is_unallocated() {
                return Err(CfError::new(CfErrorInfo::Todo, "is_unallocated"));
            }
            let sign = compare_sign(&entry.name(), child_name)?;
            if sign == 0 {
                return Ok(Some(entry));
            }
            let next = if sign < 0 {
                entry.right_sibling
            } else {
                entry.left_sibling
            };
            if next == CF_NOSTREAM {
                return Ok(None);
            }
            visited.push(id);
            id = next;
        }
    }

    fn walk_entries(
        &self,
        id: CfDirectoryId,
        ancestors: &Vec<u32>,
        out: &mut Vec<CfDirectoryEntry>,
    ) -> (r: CfResult<()>)
        ensures
            r is Ok <==> walk_spec(*self, id, ancestors@) is Ok,
            r is Ok ==> final(out)@ == old(out)@ + walk_spec(*self, id, ancestors@)->Ok_0,
            r is Err ==> final(out)@ == old(out)@,
            r matches Err(e) ==> walk_spec(*self, id, ancestors@) matches Err(f) && failure_error(
                *self,
                f,
                e.kind,
            ),
        decreases 0x1_0000_0000 - ancestors@.len(),
    {
        if ancestors.len() as u64 >= 0x1_0000_0000u64 || holds(ancestors, id) {
            return Err(CfError::new(CfErrorInfo::Other, "cycle among the directory entries"));
        }
        let entry = self.entry(id)?;
        let object_type = entry.validate()?;
        if object_type.is_unallocated() {
            return Err(CfError::new(CfErrorInfo::Todo, "is_unallocated"));
        }
        let mut inner = ancestors.clone();
        inner.push(id);
        let ghost out0 = out@;
        if entry.left_sibling < CF_MAXREGSID {
            let _ = self.walk_entries(entry.left_sibling, &inner, out);
        }
        let ghost out1 = out@;
        out.push(entry);
        if entry.right_sibling < CF_MAXREGSID {
            let _ = self.walk_entries(entry.right_sibling, &inner, out);
        }
        proof {
            let left = out1.subrange(out0.len() as int, out1.len() as int);
            assert(out1 =~= out0 + left);
            assert(out@ =~= out0 + walk_spec(*self, id, ancestors@)->Ok_0);
        }
        Ok(())
    }

    /// The entries of the siblings tree from entry `directory_id`, in order
    /// (see `walk_spec`).
    pub fn walk_directory(&self, directory_id: CfDirectoryId) -> (r: CfResult<
        Vec<CfDirectoryEntry>,
    >)
        ensures
            r is Ok <==> walk_spec(*self, directory_id, Seq::empty()) is Ok,
            r matches Ok(v) ==> walk_spec(*self, directory_id, Seq::empty()) == Ok::<
                Seq<CfDirectoryEntry>,
                CfDirectoryFailure,
            >(v@),
            r matches Err(e) ==> walk_spec(*self, directory_id, Seq::empty()) matches Err(f)
                && failure_error(*self, f, e.kind),
    {
        let ancestors: Vec<u32> = Vec::new();
        let mut out: Vec<CfDirectoryEntry> = Vec::new();
        self.walk_entries(directory_id, &ancestors, &mut out)?;
        assert(out@ =~= Seq::<CfDirectoryEntry>::empty() + walk_spec(*self, directory_id, Seq::empty())->Ok_0);
        Ok(out)
    }
}

/// An entry is never refused for its color when it is red (0) or black
/// (1), and an entry that the strict check accepts is red or black.
pub proof fn lemma_color_flags(e: CfDirectoryEntry)
    ensures
        e.spec_color_flag() == 0 || e.spec_color_flag() == 1 ==> e.spec_validate_pedantic() != Err::<
            CfObjectType,
            CfErrorInfo,
        >(CfErrorInfo::BadColorFlag),
        e.spec_validate_pedantic() is Ok ==> e.spec_color_flag() == 0 || e.spec_color_flag() == 1,
        e.spec_validate_pedantic() == Err::<CfObjectType, CfErrorInfo>(CfErrorInfo::BadColorFlag)
            ==> e.spec_color_flag() > 1,
{
}

} // verus!
