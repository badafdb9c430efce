use vstd::prelude::*;
use vstd::string::*;

use crate::path_map::PathMap;
use crate::text::{
    begins_with, lemma_last_part, normal_path, normalize_path, parent_path, path_parent, same_text, text_begins_with,
};

verus! {

/// Directory number of the volume's root.
pub const ROOT_DIR_ID: u32 = 2;
/// Directory number of the first folder.
pub const FIRST_DIR_ID: u32 = 16;
/// Reference number of the first working directory.
pub const FIRST_WORKING_DIR: u16 = 0x8001;
/// File type and creator of a file about which nothing else is known: `????`.
pub const UNKNOWN_TYPE: u32 = 0x3F3F_3F3F;

/// What the catalog says about a file.
#[derive(Clone, Copy, Debug, PartialEq, Eq)]
pub struct VfsMetadata {
    pub file_id: u32,
    pub parent_dir_id: u32,
    pub file_type: u32,
    pub creator: u32,
    pub finder_flags: u16,
    pub created_date: u32,
    pub modified_date: u32,
}

impl View for VfsMetadata {
    type V = VfsMetadata;

    open spec fn view(&self) -> VfsMetadata {
        *self
    }
}

/// A folder.
pub struct VfsDirectory {
    pub id: u32,
    pub parent: u32,
    pub path: String,
}

/// A folder as a mathematical value.
pub struct DirView {
    pub id: u32,
    pub parent: u32,
    pub path: Seq<char>,
}

impl VfsDirectory {
    pub open spec fn view(&self) -> DirView {
        DirView { id: self.id, parent: self.parent, path: self.path@ }
    }
}

/// The files of the guest's volume: data forks, resource forks and catalog
/// entries by path, and the folders.
pub struct Vfs {
    pub(crate) data: PathMap<Vec<u8>>,
    pub(crate) resources: PathMap<Vec<u8>>,
    pub(crate) metadata: PathMap<VfsMetadata>,
    pub(crate) directories: Vec<VfsDirectory>,
    pub(crate) next_dir_id: u32,
    pub(crate) next_file_id: u32,
    pub(crate) next_timestamp: u32,
    /// Files that must not be changed.
    pub(crate) locked: Vec<String>,
    pub(crate) next_working_dir: u16,
}

/// The files as a mathematical value.
#[verifier::ext_equal]
pub struct VfsView {
    pub data: Map<Seq<char>, Seq<u8>>,
    pub resources: Map<Seq<char>, Seq<u8>>,
    pub metadata: Map<Seq<char>, VfsMetadata>,
    pub directories: Seq<DirView>,
    pub next_dir_id: u32,
    pub next_file_id: u32,
    pub next_timestamp: u32,
    pub locked: Seq<Seq<char>>,
    pub next_working_dir: u16,
}

/// Everything about one file.
#[derive(Clone, Debug, PartialEq, Eq)]
pub struct VfsFileSnapshot {
    pub path: String,
    pub data_fork: Vec<u8>,
    pub resource_fork: Vec<u8>,
    pub file_type: u32,
    pub creator: u32,
    pub finder_flags: u16,
    pub created_date: u32,
    pub modified_date: u32,
}

/// A file as a mathematical value.
#[verifier::ext_equal]
pub struct SnapshotView {
    pub path: Seq<char>,
    pub data_fork: Seq<u8>,
    pub resource_fork: Seq<u8>,
    pub file_type: u32,
    pub creator: u32,
    pub finder_flags: u16,
    pub created_date: u32,
    pub modified_date: u32,
}

impl VfsFileSnapshot {
    pub open spec fn view(&self) -> SnapshotView {
        SnapshotView {
            path: self.path@,
            data_fork: self.data_fork@,
            resource_fork: self.resource_fork@,
            file_type: self.file_type,
            creator: self.creator,
            finder_flags: self.finder_flags,
            created_date: self.created_date,
            modified_date: self.modified_date,
        }
    }
}

/// What marks a path that stands for a resource fork.
pub open spec fn resource_mark() -> Seq<char> {
    "__rsrc__"@
}

/// A path that can name a file: not empty, and no resource fork's.
pub open spec fn names_file(path: Seq<char>) -> bool {
    path.len() > 0 && !begins_with(path, resource_mark())
}

/// Whether a path can name a file.
pub fn can_name_file(path: &str) -> (r: bool)
    ensures
        r == names_file(path@),
{
    path.unicode_len() > 0 && !text_begins_with(path, "__rsrc__")
}

/// The first folder of some path, from position `from` on.
pub open spec fn dir_at(dirs: Seq<DirView>, path: Seq<char>, from: int) -> Option<int>
    decreases dirs.len() - from,
{
    if from < 0 || from >= dirs.len() {
        None
    } else if dirs[from].path == path {
        Some(from)
    } else {
        dir_at(dirs, path, from + 1)
    }
}

/// The first folder of some number, from position `from` on.
pub open spec fn dir_numbered(dirs: Seq<DirView>, id: u32, from: int) -> Option<int>
    decreases dirs.len() - from,
{
    if from < 0 || from >= dirs.len() {
        None
    } else if dirs[from].id == id {
        Some(from)
    } else {
        dir_numbered(dirs, id, from + 1)
    }
}

impl VfsView {
    /// There is a file at `path`.
    pub open spec fn is_file(self, path: Seq<char>) -> bool {
        self.data.dom().contains(path) || self.resources.dom().contains(path)
    }

    /// The files with the folder at `path` in place, and its number; folders
    /// above it come first.
    pub open spec fn with_dir(self, path: Seq<char>) -> (VfsView, u32)
        decreases path.len(),
    {
        if path.len() == 0 {
            (self, ROOT_DIR_ID)
        } else {
            match dir_at(self.directories, path, 0) {
                Some(i) => (self, self.directories[i].id),
                None => {
                    proof {
                        lemma_last_part(path, path.len());
                    }
                    let (s, parent) = self.with_dir(parent_path(path));
                    (
                        VfsView {
                            directories: s.directories.push(DirView { id: s.next_dir_id, parent, path }),
                            next_dir_id: s.next_dir_id.wrapping_add(1),
                            ..s
                        },
                        s.next_dir_id,
                    )
                },
            }
        }
    }

    /// The files with a catalog entry for `path` in place.
    pub open spec fn with_metadata(self, path: Seq<char>) -> VfsView {
        if self.metadata.dom().contains(path) {
            self
        } else {
            let (s, parent) = self.with_dir(parent_path(path));
            VfsView {
                metadata: s.metadata.insert(
                    path,
                    VfsMetadata {
                        file_id: s.next_file_id,
                        parent_dir_id: parent,
                        file_type: UNKNOWN_TYPE,
                        creator: UNKNOWN_TYPE,
                        finder_flags: 0,
                        created_date: s.next_timestamp,
                        modified_date: s.next_timestamp,
                    },
                ),
                next_file_id: s.next_file_id.wrapping_add(1),
                next_timestamp: s.next_timestamp.wrapping_add(1),
                ..s
            }
        }
    }

    /// The files after the catalog was asked about `path`, and its answer. A
    /// file without an entry gets one.
    pub open spec fn asked(self, path: Seq<char>) -> (VfsView, Option<VfsMetadata>) {
        if self.metadata.dom().contains(path) || self.is_file(path) {
            let s = self.with_metadata(path);
            (s, Some(s.metadata[path]))
        } else {
            (self, None)
        }
    }

    /// The data fork of `path`; a file without one has an empty one.
    pub open spec fn data_of(self, path: Seq<char>) -> Seq<u8> {
        if self.data.dom().contains(path) {
            self.data[path]
        } else {
            Seq::empty()
        }
    }

    /// The resource fork of `path`.
    pub open spec fn resource_of(self, path: Seq<char>) -> Seq<u8> {
        if self.resources.dom().contains(path) {
            self.resources[path]
        } else {
            Seq::empty()
        }
    }

    /// The file at `path` with catalog entry `m`.
    pub open spec fn file(self, path: Seq<char>, m: VfsMetadata) -> SnapshotView {
        SnapshotView {
            path,
            data_fork: self.data_of(path),
            resource_fork: self.resource_of(path),
            file_type: m.file_type,
            creator: m.creator,
            finder_flags: m.finder_flags,
            created_date: m.created_date,
            modified_date: m.modified_date,
        }
    }

    /// The files after the file at `path` was read, and that file.
    pub open spec fn read_file(self, path: Seq<char>) -> (VfsView, Option<SnapshotView>) {
        let p = normal_path(path);
        if !names_file(p) || !self.is_file(p) {
            (self, None)
        } else {
            let (s, m) = self.asked(p);
            (s, Some(s.file(p, m->0)))
        }
    }

    /// The files with `file` in place. Dates that are zero are left as they are.
    pub open spec fn with_file(self, file: SnapshotView) -> VfsView {
        let p = normal_path(file.path);
        if !names_file(p) {
            self
        } else {
            let s = VfsView {
                data: self.data.insert(p, file.data_fork),
                resources: self.resources.insert(p, file.resource_fork),
                ..self
            }.with_metadata(p);
            let m = s.metadata[p];
            VfsView {
                metadata: s.metadata.insert(
                    p,
                    VfsMetadata {
                        file_type: file.file_type,
                        creator: file.creator,
                        finder_flags: file.finder_flags,
                        created_date: if file.created_date != 0 { file.created_date } else { m.created_date },
                        modified_date: if file.modified_date != 0 { file.modified_date } else { m.modified_date },
                        ..m
                    },
                ),
                ..s
            }
        }
    }

    /// The files without the one at `path`.
    pub open spec fn without_file(self, path: Seq<char>) -> VfsView {
        let p = normal_path(path);
        VfsView {
            data: self.data.remove(p),
            resources: self.resources.remove(p),
            metadata: self.metadata.remove(p),
            ..self
        }
    }

    /// The path of the folder with number `id`.
    pub open spec fn dir_path(self, id: u32) -> Option<Seq<char>> {
        if id == ROOT_DIR_ID {
            Some(Seq::empty())
        } else {
            match dir_numbered(self.directories, id, 0) {
                Some(i) => Some(self.directories[i].path),
                None => None,
            }
        }
    }

    /// Folders do not touch files, nor the catalog entries that there are.
    pub proof fn lemma_with_dir_keeps(self, path: Seq<char>)
        ensures
            self.with_dir(path).0.data == self.data,
            self.with_dir(path).0.resources == self.resources,
            self.with_dir(path).0.metadata == self.metadata,
            self.with_dir(path).0.next_file_id == self.next_file_id,
            self.with_dir(path).0.next_timestamp == self.next_timestamp,
        decreases path.len(),
    {
        if path.len() > 0 && dir_at(self.directories, path, 0) is None {
            lemma_last_part(path, path.len());
            self.lemma_with_dir_keeps(parent_path(path));
        }
    }

    /// A catalog entry for `path` touches no file and no other entry.
    pub proof fn lemma_with_metadata_keeps(self, path: Seq<char>)
        ensures
            self.with_metadata(path).data == self.data,
            self.with_metadata(path).resources == self.resources,
            self.with_metadata(path).metadata.dom() == self.metadata.dom().insert(path),
            forall|p: Seq<char>|
                self.metadata.dom().contains(p) ==> #[trigger] self.with_metadata(path).metadata[p] == self.metadata[p],
    {
        self.lemma_with_dir_keeps(parent_path(path));
        assert(self.with_metadata(path).metadata.dom() =~= self.metadata.dom().insert(path));
    }
}

impl Vfs {
    pub closed spec fn view(&self) -> VfsView {
        VfsView {
            data: self.data@,
            resources: self.resources@,
            metadata: self.metadata@,
            directories: self.directories@.map_values(|d: VfsDirectory| d@),
            next_dir_id: self.next_dir_id,
            next_file_id: self.next_file_id,
            next_timestamp: self.next_timestamp,
            locked: self.locked@.map_values(|p: String| p@),
            next_working_dir: self.next_working_dir,
        }
    }

    /// No path occurs twice.
    pub closed spec fn wf(&self) -> bool {
        self.data.wf() && self.resources.wf() && self.metadata.wf()
    }

    /// An empty volume.
    pub fn new() -> (r: Self)
        ensures
            r.wf(),
            r@ == fresh_vfs(),
    {
        let r: Vfs = Vfs {
            data: PathMap::new(),
            resources: PathMap::new(),
            metadata: PathMap::new(),
            directories: Vec::new(),
            next_dir_id: FIRST_DIR_ID,
            next_file_id: FIRST_DIR_ID,
            next_timestamp: 1,
            locked: Vec::new(),
            next_working_dir: FIRST_WORKING_DIR,
        };
        assert(r@ =~= fresh_vfs());
        r
    }

    /// Whether the file at `path` must not be changed.
    pub fn is_locked(&self, path: &str) -> (r: bool)
        ensures
            r == self@.locked.contains(path@),
    {
        let mut i: usize = 0;
        while i < self.locked.len()
            invariant
                i <= self.locked@.len(),
                self@.locked.len() == self.locked@.len(),
                forall|k: int| 0 <= k < i ==> self@.locked[k] != path@,
            decreases self.locked.len() - i,
        {
            assert(self@.locked[i as int] == self.locked@[i as int]@);
            if same_text(self.locked[i].as_str(), path) {
                return true;
            }
            i += 1;
        }
        false
    }

    /// Protects the file at `path` from changes.
    pub fn lock_file(&mut self, path: &str)
        ensures
            final(self)@ == if old(self)@.locked.contains(path@) {
                old(self)@
            } else {
                VfsView { locked: old(self)@.locked.push(path@), ..old(self)@ }
            },
            old(self).wf() ==> final(self).wf(),
    {
        if !self.is_locked(path) {
            let ghost before = self@.locked;
            self.locked.push(path.to_owned());
            assert(self@.locked =~= before.push(path@));
        }
    }

    /// The reference number of a new working directory.
    pub fn take_working_dir(&mut self) -> (r: u16)
        ensures
            r == old(self)@.next_working_dir,
            final(self)@ == (VfsView { next_working_dir: r.wrapping_add(1), ..old(self)@ }),
            old(self).wf() ==> final(self).wf(),
    {
        let n: u16 = self.next_working_dir;
        self.next_working_dir = n.wrapping_add(1);
        n
    }

    /// How many folders there are.
    pub(crate) fn dir_count(&self) -> (r: usize)
        ensures
            r == self@.directories.len(),
    {
        self.directories.len()
    }

    /// The number of the folder that folder `i` is in, and its path.
    pub(crate) fn dir_entry(&self, i: usize) -> (r: (u32, &str))
        requires
            i < self@.directories.len(),
        ensures
            r.0 == self@.directories[i as int].parent,
            r.1@ == self@.directories[i as int].path,
    {
        assert(self@.directories[i as int] == self.directories@[i as int]@);
        (self.directories[i].parent, self.directories[i].path.as_str())
    }

    /// The data forks.
    pub(crate) fn data_map(&self) -> (r: &PathMap<Vec<u8>>)
        ensures
            r@ == self@.data,
            self.wf() ==> r.wf(),
    {
        &self.data
    }

    /// The resource forks.
    pub(crate) fn resource_map(&self) -> (r: &PathMap<Vec<u8>>)
        ensures
            r@ == self@.resources,
            self.wf() ==> r.wf(),
    {
        &self.resources
    }

    /// Sets the data fork of a path.
    pub fn set_data(&mut self, path: &str, bytes: Vec<u8>)
        requires
            old(self).wf(),
        ensures
            final(self).wf(),
            final(self)@ == (VfsView { data: old(self)@.data.insert(path@, bytes@), ..old(self)@ }),
    {
        self.data.insert(path, bytes);
    }

    /// Sets the resource fork of a path.
    pub fn set_resource(&mut self, path: &str, bytes: Vec<u8>)
        requires
            old(self).wf(),
        ensures
            final(self).wf(),
            final(self)@ == (VfsView { resources: old(self)@.resources.insert(path@, bytes@), ..old(self)@ }),
    {
        self.resources.insert(path, bytes);
    }

    /// The data fork of a path.
    pub fn data(&self, path: &str) -> (r: Option<&Vec<u8>>)
        requires
            self.wf(),
        ensures
            r is Some <==> self@.data.dom().contains(path@),
            r matches Some(v) ==> v@ == self@.data[path@],
    {
        self.data.get(path)
    }

    /// The resource fork of a path.
    pub fn resource(&self, path: &str) -> (r: Option<&Vec<u8>>)
        requires
            self.wf(),
        ensures
            r is Some <==> self@.resources.dom().contains(path@),
            r matches Some(v) ==> v@ == self@.resources[path@],
    {
        self.resources.get(path)
    }

    /// The catalog entry of a path.
    pub fn metadata(&self, path: &str) -> (r: Option<VfsMetadata>)
        requires
            self.wf(),
        ensures
            r is Some <==> self@.metadata.dom().contains(path@),
            r matches Some(m) ==> m == self@.metadata[path@],
    {
        match self.metadata.get(path) {
            Some(m) => Some(*m),
            None => None,
        }
    }

    fn find_dir(&self, path: &str) -> (r: Option<usize>)
        ensures
            r is None ==> dir_at(self@.directories, path@, 0) is None,
            r matches Some(i) ==> i < self.directories@.len() && dir_at(self@.directories, path@, 0) == Some(i as int),
    {
        let mut i: usize = 0;
        while i < self.directories.len()
            invariant
                i <= self.directories.len(),
                dir_at(self@.directories, path@, 0) == dir_at(self@.directories, path@, i as int),
            decreases self.directories.len() - i,
        {
            if same_text(self.directories[i].path.as_str(), path) {
                return Some(i);
            }
            i += 1;
        }
        None
    }

    /// Puts the folder at `path` in place, and gives its number.
    pub fn ensure_dir(&mut self, path: &str) -> (r: u32)
        requires
            old(self).wf(),
        ensures
            final(self).wf(),
            (final(self)@, r) == old(self)@.with_dir(path@),
        decreases path@.len(),
    {
        if path.unicode_len() == 0 {
            return ROOT_DIR_ID;
        }
        if let Some(i) = self.find_dir(path) {
            return self.directories[i].id;
        }
        let above: String = path_parent(path);
        proof {
            lemma_last_part(path@, path@.len());
        }
        let parent: u32 = self.ensure_dir(above.as_str());
        let id: u32 = self.next_dir_id;
        let ghost s = self@;
        self.directories.push(VfsDirectory { id, parent, path: path.to_owned() });
        self.next_dir_id = id.wrapping_add(1);
        assert(self@.directories =~= s.directories.push(DirView { id, parent, path: path@ }));
        id
    }

    /// Puts a catalog entry for `path` in place.
    pub fn ensure_metadata(&mut self, path: &str)
        requires
            old(self).wf(),
        ensures
            final(self).wf(),
            final(self)@ == old(self)@.with_metadata(path@),
    {
        if self.metadata.contains_key(path) {
            return;
        }
        let above: String = path_parent(path);
        let parent: u32 = self.ensure_dir(above.as_str());
        let m: VfsMetadata = VfsMetadata {
            file_id: self.next_file_id,
            parent_dir_id: parent,
            file_type: UNKNOWN_TYPE,
            creator: UNKNOWN_TYPE,
            finder_flags: 0,
            created_date: self.next_timestamp,
            modified_date: self.next_timestamp,
        };
        self.metadata.insert(path, m);
        self.next_file_id = self.next_file_id.wrapping_add(1);
        self.next_timestamp = self.next_timestamp.wrapping_add(1);
    }

    /// Asks the catalog about `path`.
    pub fn ask(&mut self, path: &str) -> (r: Option<VfsMetadata>)
        requires
            old(self).wf(),
        ensures
            final(self).wf(),
            (final(self)@, r) == old(self)@.asked(path@),
    {
        if self.metadata.contains_key(path) || self.data.contains_key(path) || self.resources.contains_key(path) {
            proof {
                self@.lemma_with_metadata_keeps(path@);
            }
            self.ensure_metadata(path);
            self.metadata(path)
        } else {
            None
        }
    }

    /// Sets the type, the creator and the Finder's flags of a file.
    pub fn set_entry_metadata(&mut self, path: &str, file_type: u32, creator: u32, finder_flags: u16)
        requires
            old(self).wf(),
        ensures
            final(self).wf(),
            ({
                let p = normal_path(path@);
                let s = old(self)@.with_metadata(p);
                final(self)@ == (VfsView {
                    metadata: s.metadata.insert(
                        p,
                        (VfsMetadata { file_type, creator, finder_flags, ..s.metadata[p] }),
                    ),
                    ..s
                })
            }),
    {
        let p: String = normalize_path(path);
        proof {
            self@.lemma_with_metadata_keeps(p@);
        }
        self.ensure_metadata(p.as_str());
        if let Some(m) = self.metadata(p.as_str()) {
            let mut next: VfsMetadata = m;
            next.file_type = file_type;
            next.creator = creator;
            next.finder_flags = finder_flags;
            self.metadata.insert(p.as_str(), next);
        }
    }

    /// Reads the file at `path`.
    pub fn read_file(&mut self, path: &str) -> (r: Option<VfsFileSnapshot>)
        requires
            old(self).wf(),
        ensures
            final(self).wf(),
            final(self)@ == old(self)@.read_file(path@).0,
            r is Some <==> old(self)@.read_file(path@).1 is Some,
            r matches Some(f) ==> f@ == old(self)@.read_file(path@).1->0,
    {
        let p: String = normalize_path(path);
        if !can_name_file(p.as_str()) {
            return None;
        }
        if !self.data.contains_key(p.as_str()) && !self.resources.contains_key(p.as_str()) {
            return None;
        }
        let m: VfsMetadata = match self.ask(p.as_str()) {
            Some(m) => m,
            None => return None,
        };
        let data_fork: Vec<u8> = match self.data.get(p.as_str()) {
            Some(v) => copied(v),
            None => Vec::new(),
        };
        let resource_fork: Vec<u8> = match self.resources.get(p.as_str()) {
            Some(v) => copied(v),
            None => Vec::new(),
        };
        assert(data_fork@ =~= self@.data_of(p@));
        assert(resource_fork@ =~= self@.resource_of(p@));
        Some(
            VfsFileSnapshot {
                path: p,
                data_fork,
                resource_fork,
                file_type: m.file_type,
                creator: m.creator,
                finder_flags: m.finder_flags,
                created_date: m.created_date,
                modified_date: m.modified_date,
            },
        )
    }

    /// Puts a file in place under `path`.
    pub fn write_file(&mut self, path: &str, file: &VfsFileSnapshot)
        requires
            old(self).wf(),
        ensures
            final(self).wf(),
            final(self)@ == old(self)@.with_file(SnapshotView { path: path@, ..file@ }),
    {
        let p: String = normalize_path(path);
        if !can_name_file(p.as_str()) {
            return;
        }
        self.data.insert(p.as_str(), copied(&file.data_fork));
        self.resources.insert(p.as_str(), copied(&file.resource_fork));
        proof {
            self@.lemma_with_metadata_keeps(p@);
        }
        self.ensure_metadata(p.as_str());
        if let Some(m) = self.metadata(p.as_str()) {
            let mut next: VfsMetadata = m;
            next.file_type = file.file_type;
            next.creator = file.creator;
            next.finder_flags = file.finder_flags;
            if file.created_date != 0 {
                next.created_date = file.created_date;
            }
            if file.modified_date != 0 {
                next.modified_date = file.modified_date;
            }
            self.metadata.insert(p.as_str(), next);
        }
    }

    /// Removes the file at `path`, and says whether there was one.
    pub fn remove_file(&mut self, path: &str) -> (r: bool)
        requires
            old(self).wf(),
        ensures
            final(self).wf(),
            final(self)@ == old(self)@.without_file(path@),
            r == old(self)@.is_file(normal_path(path@)),
    {
        let p: String = normalize_path(path);
        let had_data: bool = self.data.remove(p.as_str());
        let had_resource: bool = self.resources.remove(p.as_str());
        self.metadata.remove(p.as_str());
        had_data || had_resource
    }

    /// The path of the folder with number `id`.
    pub fn dir_path(&self, id: u32) -> (r: Option<String>)
        ensures
            r is Some <==> self@.dir_path(id) is Some,
            r matches Some(p) ==> p@ == self@.dir_path(id)->0,
    {
        if id == ROOT_DIR_ID {
            let root: String = String::new();
            assert(root@ =~= Seq::<char>::empty());
            return Some(root);
        }
        let mut i: usize = 0;
        while i < self.directories.len()
            invariant
                i <= self.directories.len(),
                id != ROOT_DIR_ID,
                dir_numbered(self@.directories, id, 0) == dir_numbered(self@.directories, id, i as int),
            decreases self.directories.len() - i,
        {
            if self.directories[i].id == id {
                return Some(self.directories[i].path.clone());
            }
            i += 1;
        }
        None
    }
}

/// An empty volume.
pub open spec fn fresh_vfs() -> VfsView {
    VfsView {
        data: Map::empty(),
        resources: Map::empty(),
        metadata: Map::empty(),
        directories: Seq::empty(),
        next_dir_id: FIRST_DIR_ID,
        next_file_id: FIRST_DIR_ID,
        next_timestamp: 1,
        locked: Seq::empty(),
        next_working_dir: FIRST_WORKING_DIR,
    }
}

/// The same bytes again.
pub fn copied(v: &Vec<u8>) -> (r: Vec<u8>)
    ensures
        r@ == v@,
{
    let mut out: Vec<u8> = Vec::new();
    let mut i: usize = 0;
    while i < v.len()
        invariant
            i <= v.len(),
            out@ == v@.take(i as int),
        decreases v.len() - i,
    {
        out.push(v[i]);
        assert(v@.take(i as int + 1) =~= v@.take(i as int).push(v@[i as int]));
        i += 1;
    }
    assert(v@.take(v@.len() as int) =~= v@);
    out
}

} // verus!
