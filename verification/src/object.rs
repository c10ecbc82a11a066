//! Objects of a compound file: storages (directories) and streams (files).
use std::rc::Rc;
use vstd::prelude::*;

use crate::cfcore::CfCore;
use crate::direntry::{
    entry_at, failure_error, search_spec, spec_compare_name, walk_spec, CfDirectoryEntry, CfDirectoryFailure,
    CfDirectoryStream, CF_MAXREGSID, CF_NOSTREAM,
};
use crate::error::{CfError, CfErrorInfo, CfResult};
use crate::mini::CfMiniCore;
use crate::sector::{CfMiniSectorChain, CfSectorChain, CfUserDataStream};

verus! {

/// The type of a directory entry.
#[derive(Debug, Copy, Clone, PartialEq, Eq, Structural)]
pub enum CfObjectType {
    Unallocated,
    Storage,
    Stream,
    RootStorage,
}

/// The object type that byte `value` encodes: 0, 1, 2 and 5 are the
/// unallocated, storage, stream and root storage types.
pub open spec fn spec_object_type(value: u8) -> Option<CfObjectType> {
    if value == 0 {
        Some(CfObjectType::Unallocated)
    } else if value == 1 {
        Some(CfObjectType::Storage)
    } else if value == 2 {
        Some(CfObjectType::Stream)
    } else if value == 5 {
        Some(CfObjectType::RootStorage)
    } else {
        None
    }
}

impl CfObjectType {
    /// The object type that `value` encodes, or `BadObjectType(value)`.
    pub fn try_from(value: u8) -> (r: CfResult<CfObjectType>)
        ensures
            r is Ok <==> spec_object_type(value) is Some,
            r matches Ok(t) ==> spec_object_type(value) == Some(t),
            r matches Err(e) ==> e.kind == CfErrorInfo::BadObjectType(value),
    {
        match value {
            0 => Ok(CfObjectType::Unallocated),
            1 => Ok(CfObjectType::Storage),
            2 => Ok(CfObjectType::Stream),
            5 => Ok(CfObjectType::RootStorage),
            _ => Err(CfError::from_kind(CfErrorInfo::BadObjectType(value))),
        }
    }

    pub fn is_unallocated(self) -> (r: bool)
        ensures
            r == (self == CfObjectType::Unallocated),
    {
        matches!(self, CfObjectType::Unallocated)
    }

    pub fn is_storage(self) -> (r: bool)
        ensures
            r == (self == CfObjectType::Storage),
    {
        matches!(self, CfObjectType::Storage)
    }

    pub fn is_stream(self) -> (r: bool)
        ensures
            r == (self == CfObjectType::Stream),
    {
        matches!(self, CfObjectType::Stream)
    }

    pub fn is_root_storage(self) -> (r: bool)
        ensures
            r == (self == CfObjectType::RootStorage),
    {
        matches!(self, CfObjectType::RootStorage)
    }

    /// The letter that listings show for the type.
    pub fn letter(self) -> (r: char)
        ensures
            r == match self {
                CfObjectType::Unallocated => 'u',
                CfObjectType::Storage => 'd',
                CfObjectType::Stream => '-',
                CfObjectType::RootStorage => 'R',
            },
    {
        match self {
            CfObjectType::Unallocated => 'u',
            CfObjectType::Storage => 'd',
            CfObjectType::Stream => '-',
            CfObjectType::RootStorage => 'R',
        }
    }
}

/// Is `t` the type of a directory (a storage or the root storage)?
pub open spec fn is_directory_type(t: CfObjectType) -> bool {
    t == CfObjectType::Storage || t == CfObjectType::RootStorage
}

/// Is `e` an entry whose type byte is known and not the unallocated type?
pub open spec fn is_allocated_entry(e: CfDirectoryEntry) -> bool {
    spec_object_type(e.spec_object_type_byte()) matches Some(t) && t != CfObjectType::Unallocated
}

/// A found entry is allocated: the search checks each entry it compares.
pub proof fn lemma_search_found_allocated(
    stream: CfDirectoryStream,
    id: u32,
    key: Seq<char>,
    visited: Seq<u32>,
)
    ensures
        search_spec(stream, id, key, visited) matches Ok(Some(e)) ==> is_allocated_entry(e),
    decreases 0x1_0000_0000 - visited.len(),
{
    if visited.len() < 0x1_0000_0000 && !visited.contains(id) {
        if let Some(e) = entry_at(stream, id) {
            lemma_search_found_allocated(stream, e.spec_right(), key, visited.push(id));
            lemma_search_found_allocated(stream, e.spec_left(), key, visited.push(id));
        }
    }
}

/// Every entry of a walk is allocated: the walk checks each entry it visits.
pub proof fn lemma_walk_allocated(stream: CfDirectoryStream, id: u32, ancestors: Seq<u32>)
    ensures
        walk_spec(stream, id, ancestors) matches Ok(s) ==> forall|i: int|
            0 <= i < s.len() ==> is_allocated_entry(#[trigger] s[i]),
    decreases 0x1_0000_0000 - ancestors.len(),
{
    if ancestors.len() < 0x1_0000_0000 && !ancestors.contains(id) {
        if let Some(e) = entry_at(stream, id) {
            lemma_walk_allocated(stream, e.spec_left(), ancestors.push(id));
            lemma_walk_allocated(stream, e.spec_right(), ancestors.push(id));
            if let Ok(s) = walk_spec(stream, id, ancestors) {
                let left = if e.spec_left() < CF_MAXREGSID {
                    match walk_spec(stream, e.spec_left(), ancestors.push(id)) {
                        Ok(l) => l,
                        Err(_) => Seq::empty(),
                    }
                } else {
                    Seq::empty()
                };
                let right = if e.spec_right() < CF_MAXREGSID {
                    match walk_spec(stream, e.spec_right(), ancestors.push(id)) {
                        Ok(r) => r,
                        Err(_) => Seq::empty(),
                    }
                } else {
                    Seq::empty()
                };
                assert(s == left + seq![e] + right);
                assert forall|i: int| 0 <= i < s.len() implies is_allocated_entry(#[trigger] s[i]) by {
                    if i < left.len() {
                        assert(s[i] == left[i]);
                    } else if i == left.len() {
                        assert(s[i] == e);
                    } else {
                        assert(s[i] == right[i - left.len() - 1]);
                    }
                }
            }
        }
    }
}

/// Does the directory hold no entry at a reserved number (from
/// `CF_MAXREGSID` on)?
pub open spec fn regular_directory(stream: CfDirectoryStream) -> bool {
    forall|id: u32| id >= CF_MAXREGSID ==> #[trigger] entry_at(stream, id) is None
}

/// An entry that the search finds is among the entries of the walk from
/// the same place.
pub proof fn lemma_search_in_walk(stream: CfDirectoryStream, id: u32, key: Seq<char>, visited: Seq<u32>)
    requires
        regular_directory(stream),
    ensures
        search_spec(stream, id, key, visited) matches Ok(Some(e)) ==> walk_spec(
            stream,
            id,
            visited,
        ) matches Ok(s) && s.contains(e),
    decreases 0x1_0000_0000 - visited.len(),
{
    if visited.len() < 0x1_0000_0000 && !visited.contains(id) {
        if let Some(e) = entry_at(stream, id) {
            let inner = visited.push(id);
            lemma_search_in_walk(stream, e.spec_right(), key, inner);
            lemma_search_in_walk(stream, e.spec_left(), key, inner);
            if let Ok(Some(found)) = search_spec(stream, id, key, visited) {
                let left = if e.spec_left() < CF_MAXREGSID {
                    match walk_spec(stream, e.spec_left(), inner) {
                        Ok(l) => l,
                        Err(_) => Seq::empty(),
                    }
                } else {
                    Seq::empty()
                };
                let right = if e.spec_right() < CF_MAXREGSID {
                    match walk_spec(stream, e.spec_right(), inner) {
                        Ok(r) => r,
                        Err(_) => Seq::empty(),
                    }
                } else {
                    Seq::empty()
                };
                let all = left + seq![e] + right;
                assert(walk_spec(stream, id, visited) == Ok::<Seq<CfDirectoryEntry>, CfDirectoryFailure>(all));
                let c = spec_compare_name(e.spec_name_key_bytes(), key)->Some_0;
                if c == 0 {
                    assert(all[left.len() as int] == e);
                } else if c < 0 {
                    assert(search_spec(stream, e.spec_right(), key, inner) == Ok::<
                        Option<CfDirectoryEntry>,
                        CfDirectoryFailure,
                    >(Some(found)));
                    assert(e.spec_right() < CF_MAXREGSID);
                    let j = choose|j: int| 0 <= j < right.len() && right[j] == found;
                    assert(all[left.len() + 1 + j] == found);
                } else {
                    assert(search_spec(stream, e.spec_left(), key, inner) == Ok::<
                        Option<CfDirectoryEntry>,
                        CfDirectoryFailure,
                    >(Some(found)));
                    assert(e.spec_left() < CF_MAXREGSID);
                    let j = choose|j: int| 0 <= j < left.len() && left[j] == found;
                    assert(all[j] == found);
                }
            }
        }
    }
}

/// What looking up `name` among the children of the entry `entry` of
/// directory `dir` gives: the entry found, or the failure. The entry must be
/// a storage with a child (`InvalidStorageObject`), and a child must have the
/// name (`ObjectNotFound`); the search itself may fail (see `search_spec`).
pub open spec fn locate_entry_spec(
    dir: CfDirectoryStream,
    entry: CfDirectoryEntry,
    name: Seq<char>,
) -> Result<CfDirectoryEntry, CfDirectoryFailure> {
    let child = entry.spec_child();
    match spec_object_type(entry.spec_object_type_byte()) {
        None => Err(CfDirectoryFailure::Kind(CfErrorInfo::BadObjectType(entry.spec_object_type_byte()))),
        Some(t) => if !is_directory_type(t) {
            Err(CfDirectoryFailure::Kind(CfErrorInfo::InvalidStorageObject))
        } else if child == CF_NOSTREAM {
            Err(CfDirectoryFailure::Kind(CfErrorInfo::InvalidStorageObject))
        } else {
            match search_spec(dir, child, name, Seq::empty()) {
                Err(k) => Err(k),
                Ok(None) => Err(CfDirectoryFailure::Kind(CfErrorInfo::ObjectNotFound)),
                Ok(Some(e)) => Ok(e),
            }
        },
    }
}

/// What the objects of one compound file share: the file, the mini stream
/// and the directory.
pub struct CfInternal {
    pub core: Rc<CfCore>,
    pub mini_core: Rc<CfMiniCore>,
    pub directory_stream: Rc<CfDirectoryStream>,
}

impl CfInternal {
    /// Another handle on the same file, mini stream and directory.
    pub fn share(&self) -> (r: Self)
        ensures
            r == *self,
    {
        CfInternal {
            core: self.core.clone(),
            mini_core: self.mini_core.clone(),
            directory_stream: self.directory_stream.clone(),
        }
    }
}

/// A storage or stream object of a compound file: its directory entry, the
/// type that the entry declares, and the file it belongs to.
pub struct CfObject {
    directory_entry: CfDirectoryEntry,
    object_type: CfObjectType,
    internal: CfInternal,
}

impl CfObject {
    #[verifier::type_invariant]
    spec fn inv(self) -> bool {
        &&& spec_object_type(self.directory_entry.spec_object_type_byte()) == Some(self.object_type)
        &&& self.object_type != CfObjectType::Unallocated
    }

    /// The directory entry of the object.
    pub closed spec fn spec_entry(&self) -> CfDirectoryEntry {
        self.directory_entry
    }

    /// The type of the object.
    pub closed spec fn spec_type(&self) -> CfObjectType {
        self.object_type
    }

    /// The file that the object belongs to.
    pub closed spec fn spec_internal(&self) -> CfInternal {
        self.internal
    }

    /// The directory of the file that the object belongs to.
    pub open spec fn spec_directory(&self) -> CfDirectoryStream {
        *self.spec_internal().directory_stream
    }

    /// What looking up `name` among the children of the object gives (see
    /// `locate_entry_spec`).
    pub open spec fn locate_spec(&self, name: Seq<char>) -> Result<CfDirectoryEntry, CfDirectoryFailure> {
        locate_entry_spec(self.spec_directory(), self.spec_entry(), name)
    }

    /// The entries of the children of the object, in order, or the failure
    /// (see `walk_spec` for the failures of the walk).
    pub open spec fn children_spec(&self) -> Result<Seq<CfDirectoryEntry>, CfDirectoryFailure> {
        let entry = self.spec_entry();
        let child = entry.spec_child();
        match spec_object_type(entry.spec_object_type_byte()) {
            None => Err(CfDirectoryFailure::Kind(CfErrorInfo::BadObjectType(entry.spec_object_type_byte()))),
            Some(t) => if !is_directory_type(t) {
                Err(CfDirectoryFailure::Kind(CfErrorInfo::InvalidStorageObject))
            } else if child == CF_NOSTREAM {
                Ok(Seq::empty())
            } else {
                match walk_spec(self.spec_directory(), child, Seq::empty()) {
                    Err(k) => Err(k),
                    Ok(s) => Ok(s),
                }
            },
        }
    }

    /// Every child that looking up a name finds is among the children that
    /// the walk lists (in a directory without entries at reserved numbers).
    pub proof fn lemma_located_is_listed(&self, name: Seq<char>)
        requires
            regular_directory(self.spec_directory()),
        ensures
            self.locate_spec(name) matches Ok(e) ==> self.children_spec() matches Ok(s)
                && s.contains(e),
    {
        let child = self.spec_entry().spec_child();
        lemma_search_in_walk(self.spec_directory(), child, name, Seq::empty());
    }

    /// The type of the object.
    pub fn object_type(&self) -> (r: CfObjectType)
        ensures
            r == self.spec_type(),
    {
        self.object_type
    }

    /// The directory entry of the object.
    pub fn directory_entry(&self) -> (r: &CfDirectoryEntry)
        ensures
            *r == self.spec_entry(),
    {
        &self.directory_entry
    }

    /// The object of `entry` in the file of `internal`: the entry's type must
    /// be known (`BadObjectType`) and not the unallocated type (`Todo`).
    pub fn new(entry: CfDirectoryEntry, internal: CfInternal) -> (r: CfResult<Self>)
        ensures
            r is Ok <==> is_allocated_entry(entry),
            r matches Ok(o) ==> o.spec_entry() == entry && o.spec_internal() == internal && Some(
                o.spec_type(),
            ) == spec_object_type(entry.spec_object_type_byte()),
            r matches Err(e) ==> match spec_object_type(entry.spec_object_type_byte()) {
                None => e.kind == CfErrorInfo::BadObjectType(entry.spec_object_type_byte()),
                Some(_) => e.kind == CfErrorInfo::Todo,
            },
    {
        let object_type = entry.validate()?;
        if object_type.is_unallocated() {
            return Err(CfError::new(CfErrorInfo::Todo, "is_unallocated"));
        }
        Ok(CfObject { directory_entry: entry, object_type, internal })
    }

    /// Another handle on the same object.
    pub fn duplicate(&self) -> (r: Self)
        ensures
            r == *self,
    {
        proof {
            use_type_invariant(self);
        }
        CfObject {
            directory_entry: self.directory_entry,
            object_type: self.object_type,
            internal: self.internal.share(),
        }
    }

    /// The child of this storage object named `directory_name` (see
    /// `locate_spec`): `InvalidStorageObject` where the object is not a
    /// storage or has no child, `ObjectNotFound` where no child has the name.
    pub fn locate_object(&self, directory_name: &str) -> (r: CfResult<Self>)
        ensures
            r is Ok <==> self.locate_spec(directory_name@) is Ok,
            r matches Ok(o) ==> self.locate_spec(directory_name@) == Ok::<
                CfDirectoryEntry,
                CfDirectoryFailure,
            >(o.spec_entry()) && o.spec_internal() == self.spec_internal() && Some(o.spec_type())
                == spec_object_type(o.spec_entry().spec_object_type_byte()),
            r matches Err(e) ==> self.locate_spec(directory_name@) matches Err(f) && failure_error(
                self.spec_directory(),
                f,
                e.kind,
            ),
            r matches Err(e) ==> (!is_directory_type(self.spec_type()) ==> e.message@
                == "Storage object is required"@),
    {
        proof {
            use_type_invariant(self);
        }
        let object_type = self.directory_entry.object_type()?;
        if !object_type.is_storage() && !object_type.is_root_storage() {
            return Err(CfError::new(CfErrorInfo::InvalidStorageObject, "Storage object is required"));
        }
        let child_id = self.directory_entry.child();
        if child_id == CF_NOSTREAM {
            return Err(CfError::from_kind(CfErrorInfo::InvalidStorageObject));
        }
        proof {
            lemma_search_found_allocated(
                self.spec_directory(),
                child_id,
                directory_name@,
                Seq::empty(),
            );
        }
        let entry = self.internal.directory_stream.locate_entry(child_id, directory_name)?;
        let entry = match entry {
            Some(entry) => entry,
            None => {
                return Err(CfError::from_kind(CfErrorInfo::ObjectNotFound));
            },
        };
        let object_type = entry.validate()?;
        if object_type.is_unallocated() {
            return Err(CfError::new(CfErrorInfo::Todo, "is_unallocated"));
        }
        Ok(CfObject { internal: self.internal.share(), directory_entry: entry, object_type })
    }

    /// The children of this storage object, in order (see `children_spec`):
    /// `InvalidStorageObject` where the object is not a storage.
    pub fn walk_directory(&self) -> (r: CfResult<Vec<CfObject>>)
        ensures
            r is Ok <==> self.children_spec() is Ok,
            r matches Ok(v) ==> self.children_spec() matches Ok(s) && v@.len() == s.len() && (
            forall|i: int|
                0 <= i < s.len() ==> (#[trigger] v@[i]).spec_entry() == s[i] && v@[i].spec_internal()
                    == self.spec_internal() && Some(v@[i].spec_type()) == spec_object_type(
                    s[i].spec_object_type_byte(),
                )),
            r matches Err(e) ==> self.children_spec() matches Err(f) && failure_error(
                self.spec_directory(),
                f,
                e.kind,
            ),
            r matches Err(e) ==> (!is_directory_type(self.spec_type()) ==> e.message@
                == "Storage object is required"@),
    {
        proof {
            use_type_invariant(self);
        }
        let object_type = self.directory_entry.object_type()?;
        if !object_type.is_storage() && !object_type.is_root_storage() {
            return Err(CfError::new(CfErrorInfo::InvalidStorageObject, "Storage object is required"));
        }
        let child_id = self.directory_entry.child();
        let mut objects: Vec<CfObject> = Vec::new();
        if child_id == CF_NOSTREAM {
            return Ok(objects);
        }
        proof {
            lemma_walk_allocated(self.spec_directory(), child_id, Seq::empty());
        }
        let entries = self.internal.directory_stream.walk_directory(child_id)?;
        let ghost s = entries@;
        let mut i: usize = 0;
        while i < entries.len()
            invariant
                s == entries@,
                forall|j: int| 0 <= j < s.len() ==> is_allocated_entry(#[trigger] s[j]),
                i <= s.len(),
                objects@.len() == i,
                forall|j: int|
                    0 <= j < i ==> (#[trigger] objects@[j]).spec_entry() == s[j]
                        && objects@[j].spec_internal() == self.spec_internal() && Some(
                        objects@[j].spec_type(),
                    ) == spec_object_type(s[j].spec_object_type_byte()),
            decreases s.len() - i,
        {
            let entry = entries[i];
            assert(is_allocated_entry(s[i as int]));
            let object_type = entry.object_type()?;
            objects.push(
                CfObject { internal: self.internal.share(), object_type, directory_entry: entry },
            );
            i = i + 1;
        }
        Ok(objects)
    }

    /// A reader of the data of this stream object: in the mini stream where
    /// the stream is smaller than 4096 bytes, in the file otherwise; `Todo`
    /// where the object is not a stream.
    pub fn open_chain(&self) -> (r: CfResult<CfUserDataStream>)
        ensures
            r is Ok <==> self.spec_type() == CfObjectType::Stream,
            r matches Ok(stream) ==> stream.wf() && match stream {
                CfUserDataStream::MiniStream(chain, left) => {
                    &&& self.spec_entry().spec_stream_size() < 4096
                    &&& left == self.spec_entry().spec_stream_size()
                    &&& chain.spec_core() == *self.spec_internal().mini_core
                    &&& chain.spec_first() == self.spec_entry().spec_starting_sector()
                    &&& chain.spec_position() == 0
                },
                CfUserDataStream::Stream(chain, left) => {
                    &&& self.spec_entry().spec_stream_size() >= 4096
                    &&& left == self.spec_entry().spec_stream_size()
                    &&& chain.spec_core() == *self.spec_internal().core
                    &&& chain.spec_first() == self.spec_entry().spec_starting_sector()
                    &&& chain.spec_position() == 0
                },
            },
            r matches Err(e) ==> e.kind == CfErrorInfo::Todo,
    {
        if !self.object_type.is_stream() {
            return Err(CfError::new(CfErrorInfo::Todo, "Stream object is required"));
        }
        let entry = &self.directory_entry;
        let size = entry.stream_len();
        if size < 4096 {
            Ok(
                CfUserDataStream::from_mini(
                    size,
                    CfMiniSectorChain::new(entry.first_sector(), self.internal.mini_core.clone()),
                ),
            )
        } else {
            Ok(
                CfUserDataStream::from(
                    size,
                    CfSectorChain::new(entry.first_sector(), self.internal.core.clone()),
                ),
            )
        }
    }
}

} // verus!
