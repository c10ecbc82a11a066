//! Reader for compound files (the Microsoft Compound File Binary format).
use std::rc::Rc;
use vstd::prelude::*;
use vstd::string::StrSliceExecFns;

pub mod bytes;
pub mod cache;
pub mod cfcore;
pub mod command;
pub mod control;
pub mod direntry;
pub mod error;
pub mod header;
pub mod hexdump;
pub mod in_bytes;
pub mod mini;
pub mod object;
pub mod pod;
pub mod sector;
pub mod text;
pub mod timestamp;
pub mod utf16;
pub mod version;

use crate::cfcore::CfCore;
use crate::control::{lemma_element_bytes_congruent, spec_element_bytes, spec_element_error};
use crate::direntry::{failure_error, CfDirectoryEntry, CfDirectoryFailure, CfDirectoryStream};
use crate::error::{CfError, CfErrorInfo, CfResult};
use crate::mini::{CfMiniCore, CfMiniFat, CfMiniStream};
use crate::object::{locate_entry_spec, spec_object_type, CfInternal, CfObject, CfObjectType};
use crate::pod::Pod;
use crate::version::CfVersion;

verus! {

/// A core that holds `file` read with version `v` (all such cores hold the
/// same sectors and chains).
pub open spec fn core_of(file: Seq<u8>, v: CfVersion) -> CfCore {
    choose|c: CfCore| c.spec_file() == file && c.spec_version() == v
}

/// The entry of the root storage of `file`: entry 0 of the directory whose
/// chain the header names, which must have the root storage type; or why it
/// cannot be had (an entry 0 that cannot be read is `Unreadable(0)`, see
/// `root_error`).
pub open spec fn root_spec(file: Seq<u8>) -> Result<CfDirectoryEntry, CfDirectoryFailure> {
    match CfCore::spec_header(file) {
        Err(k) => Err(CfDirectoryFailure::Kind(k)),
        Ok(h) => match h.spec_validate() {
            Err(k) => Err(CfDirectoryFailure::Kind(k)),
            Ok(v) => {
                match spec_element_bytes(
                    core_of(file, v),
                    h.first_directory_sector_id,
                    CfDirectoryEntry::spec_size_of(),
                    0,
                ) {
                    None => Err(CfDirectoryFailure::Unreadable(0)),
                    Some(b) => {
                        let e = CfDirectoryEntry::spec_decode(b);
                        match spec_object_type(e.spec_object_type_byte()) {
                            None => Err(
                                CfDirectoryFailure::Kind(CfErrorInfo::BadObjectType(e.spec_object_type_byte())),
                            ),
                            Some(t) => if t == CfObjectType::RootStorage {
                                Ok(e)
                            } else {
                                Err(CfDirectoryFailure::Kind(CfErrorInfo::InvalidStorageObject))
                            },
                        }
                    },
                }
            },
        },
    }
}

/// May opening `file`, failing for `f` (see `root_spec`), give an error of
/// kind `kind`? An unreadable entry gives an error that reading it from the
/// directory may give (see `spec_element_error`).
pub open spec fn root_error(file: Seq<u8>, f: CfDirectoryFailure, kind: CfErrorInfo) -> bool {
    match f {
        CfDirectoryFailure::Kind(k) => kind == k,
        CfDirectoryFailure::Unreadable(id) => match CfCore::spec_header(file) {
            Err(_) => false,
            Ok(h) => match h.spec_validate() {
                Err(_) => false,
                Ok(v) => spec_element_error(
                    core_of(file, v),
                    h.first_directory_sector_id,
                    CfDirectoryEntry::spec_size_of(),
                    id as nat,
                    kind,
                ),
            },
        },
    }
}

/// How the objects of the compound file `file` reach its parts: the core
/// holds the file, the directory and the mini FAT start where the header
/// says, and the mini stream where the root entry `root` says.
pub open spec fn internal_spec(internal: CfInternal, file: Seq<u8>, root: CfDirectoryEntry) -> bool {
    let core = *internal.core;
    &&& core.spec_file() == file
    &&& CfCore::spec_header(file) is Ok
    &&& CfCore::spec_header(file)->Ok_0.spec_validate() == Ok::<CfVersion, CfErrorInfo>(
        core.spec_version(),
    )
    &&& internal.directory_stream.spec_core() == core
    &&& internal.directory_stream.spec_first() == CfCore::spec_header(file)->Ok_0.first_directory_sector_id
    &&& internal.mini_core.spec_mini_fat().spec_core() == core
    &&& internal.mini_core.spec_mini_fat().spec_first() == CfCore::spec_header(file)->Ok_0.first_mini_fat_sector_id
    &&& internal.mini_core.spec_mini_stream().spec_core() == core
    &&& internal.mini_core.spec_mini_stream().spec_first() == root.spec_starting_sector()
}

/// Is `c` a separator of path segments?
pub open spec fn is_separator(c: char) -> bool {
    c == '/' || c == '\\'
}

/// The segment `cur`, unless it is empty.
pub open spec fn segment_list(cur: Seq<char>) -> Seq<Seq<char>> {
    if cur.len() == 0 {
        seq![]
    } else {
        seq![cur]
    }
}

/// The non-empty segments of the path `cur + p`, where `cur` holds no
/// separator: `/` and `\\` separate segments.
pub open spec fn path_segments(p: Seq<char>, cur: Seq<char>) -> Seq<Seq<char>>
    decreases p.len(),
{
    if p.len() == 0 {
        segment_list(cur)
    } else if is_separator(p[0]) {
        segment_list(cur) + path_segments(p.drop_first(), seq![])
    } else {
        path_segments(p.drop_first(), cur.push(p[0]))
    }
}

/// The entry that the segments `segs` lead to from `entry`, each looked up
/// among the children of the entry before it; or the first failure.
pub open spec fn path_spec(
    dir: CfDirectoryStream,
    entry: CfDirectoryEntry,
    segs: Seq<Seq<char>>,
) -> Result<CfDirectoryEntry, CfDirectoryFailure>
    decreases segs.len(),
{
    if segs.len() == 0 {
        Ok(entry)
    } else {
        match locate_entry_spec(dir, entry, segs[0]) {
            Err(k) => Err(k),
            Ok(next) => path_spec(dir, next, segs.drop_first()),
        }
    }
}

/// A separator in front of a path changes nothing: `/a/b` and `a/b` (and
/// `\\a/b`) name the same segments; and the empty path names none, so it
/// opens the root.
pub proof fn lemma_path_leading_separator(p: Seq<char>, sep: char)
    requires
        is_separator(sep),
    ensures
        path_segments(seq![sep] + p, seq![]) == path_segments(p, seq![]),
        path_segments(seq![], seq![]) == Seq::<Seq<char>>::empty(),
{
    let q = seq![sep] + p;
    assert(q.drop_first() =~= p);
    assert(segment_list(seq![]) + path_segments(p, seq![]) =~= path_segments(p, seq![]));
}

/// Following a segment list of one segment or none, then `rest`.
proof fn lemma_path_spec_step(
    dir: CfDirectoryStream,
    entry: CfDirectoryEntry,
    cur: Seq<char>,
    rest: Seq<Seq<char>>,
)
    ensures
        path_spec(dir, entry, segment_list(cur) + rest) == if cur.len() == 0 {
            path_spec(dir, entry, rest)
        } else {
            match locate_entry_spec(dir, entry, cur) {
                Err(k) => Err(k),
                Ok(next) => path_spec(dir, next, rest),
            }
        },
{
    if cur.len() == 0 {
        assert(segment_list(cur) + rest =~= rest);
    } else {
        let segs = segment_list(cur) + rest;
        assert(segs[0] == cur);
        assert(segs.drop_first() =~= rest);
    }
}

/// A compound file, opened at its root storage.
pub struct CompoundFile {
    root_entry: CfObject,
}

impl CompoundFile {
    /// The root storage of the file.
    pub closed spec fn spec_root(&self) -> CfObject {
        self.root_entry
    }

    /// Opens the compound file whose bytes are `file`: reads and checks the
    /// header, then reads the root entry (see `root_spec`).
    pub fn new(file: Vec<u8>) -> (r: CfResult<CompoundFile>)
        ensures
            r is Ok <==> root_spec(file@) is Ok,
            r matches Ok(cf) ==> root_spec(file@) == Ok::<CfDirectoryEntry, CfDirectoryFailure>(
                cf.spec_root().spec_entry(),
            ) && cf.spec_root().spec_type() == CfObjectType::RootStorage && internal_spec(
                cf.spec_root().spec_internal(),
                file@,
                cf.spec_root().spec_entry(),
            ),
            r matches Err(e) ==> root_spec(file@) matches Err(f) && root_error(file@, f, e.kind),
    {
        let ghost bytes = file@;
        let core = CfCore::new(file)?;
        let ghost cc: CfCore = core;
        let core = Rc::new(core);
        let header = core.header()?;
        proof {
            let v = cc.spec_version();
            assert(v.spec_sector_size() >= 512) by {
                match v {
                    crate::version::CfVersion::V3 => {},
                    crate::version::CfVersion::V4 => {},
                }
            }
            let c = core_of(bytes, v);
            assert(exists|c: CfCore| c.spec_file() == bytes && c.spec_version() == v) by {
                assert(cc.spec_file() == bytes && cc.spec_version() == v);
            }
            lemma_element_bytes_congruent(
                c,
                cc,
                header.first_directory_sector_id,
                CfDirectoryEntry::spec_size_of(),
                0,
            );
        }
        let directory = Rc::new(
            CfDirectoryStream::new(header.first_directory_sector_id, core.clone()),
        );
        let root_entry = directory.nth_element(0)?;
        let object_type = root_entry.object_type()?;
        if !object_type.is_root_storage() {
            return Err(CfError::new(CfErrorInfo::InvalidStorageObject, "Bad root storage object"));
        }
        let mini_fat = CfMiniFat::new(header.first_mini_fat_sector_id, core.clone());
        let mini_stream = CfMiniStream::new(root_entry.first_sector(), core.clone());
        let mini_core = Rc::new(CfMiniCore::new(mini_stream, mini_fat));
        let internal = CfInternal { core, mini_core, directory_stream: directory };
        let root = CfObject::new(root_entry, internal)?;
        Ok(CompoundFile { root_entry: root })
    }

    /// The root storage of the file.
    pub fn root(&self) -> (r: &CfObject)
        ensures
            *r == self.spec_root(),
    {
        &self.root_entry
    }

    /// Opens the object at `path` from the root: each non-empty segment of
    /// the path, separated by `/` or `\\`, names a child of the object
    /// before it (see `path_spec`).
    pub fn open(&self, path: &str) -> (r: CfResult<CfObject>)
        ensures
            r is Ok <==> path_spec(
                self.spec_root().spec_directory(),
                self.spec_root().spec_entry(),
                path_segments(path@, seq![]),
            ) is Ok,
            r matches Ok(o) ==> path_spec(
                self.spec_root().spec_directory(),
                self.spec_root().spec_entry(),
                path_segments(path@, seq![]),
            ) == Ok::<CfDirectoryEntry, CfDirectoryFailure>(o.spec_entry()) && o.spec_internal()
                == self.spec_root().spec_internal(),
            r matches Err(e) ==> path_spec(
                self.spec_root().spec_directory(),
                self.spec_root().spec_entry(),
                path_segments(path@, seq![]),
            ) matches Err(f) && failure_error(self.spec_root().spec_directory(), f, e.kind),
    {
        let ghost p = path@;
        let ghost dir = self.root_entry.spec_directory();
        let ghost target = path_spec(dir, self.root_entry.spec_entry(), path_segments(p, seq![]));
        let n = path.unicode_len();
        let mut object = self.root_entry.duplicate();
        let mut start: usize = 0;
        let mut i: usize = 0;
        assert(p.skip(0) =~= p);
        assert(p.subrange(0, 0) =~= Seq::<char>::empty());
        while i < n
            invariant
                n == p.len(),
                p == path@,
                start <= i <= n,
                object.spec_internal() == self.root_entry.spec_internal(),
                dir == object.spec_directory(),
                target == path_spec(dir, self.root_entry.spec_entry(), path_segments(p, seq![])),
                path_spec(
                    dir,
                    object.spec_entry(),
                    path_segments(p.skip(i as int), p.subrange(start as int, i as int)),
                ) == target,
            decreases n - i,
        {
            let c = path.get_char(i);
            let ghost cur = p.subrange(start as int, i as int);
            let ghost tail = p.skip(i as int);
            assert(tail[0] == c);
            assert(tail.drop_first() =~= p.skip(i + 1));
            if c == '/' || c == '\\' {
                assert(path_segments(tail, cur) == segment_list(cur) + path_segments(
                    p.skip(i + 1),
                    seq![],
                ));
                proof {
                    lemma_path_spec_step(dir, object.spec_entry(), cur, path_segments(p.skip(i + 1), seq![]));
                }
                if start < i {
                    let segment = path.substring_char(start, i);
                    object = object.locate_object(segment)?;
                }
                start = i + 1;
                assert(p.subrange(start as int, start as int) =~= Seq::<char>::empty());
            } else {
                assert(cur.push(c) =~= p.subrange(start as int, i + 1));
            }
            i = i + 1;
        }
        let ghost cur = p.subrange(start as int, n as int);
        assert(p.skip(n as int) =~= Seq::<char>::empty());
        assert(path_segments(p.skip(n as int), cur) == segment_list(cur) + Seq::<Seq<char>>::empty());
        proof {
            lemma_path_spec_step(dir, object.spec_entry(), cur, Seq::<Seq<char>>::empty());
        }
        if start < n {
            let segment = path.substring_char(start, n);
            object = object.locate_object(segment)?;
        }
        Ok(object)
    }
}

} // verus!
