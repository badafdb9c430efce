use vstd::prelude::*;
use vstd::string::*;

use crate::standard_file::{
    fresh_standard_file, ResponseView, StandardFile, StandardFileDialogResponse, StandardFileError, StandardFileView,
};
use crate::text::{base_name, file_name, guest_file_name, join_path, joined, parent_path, path_base_name, path_parent};
use crate::vfs::{fresh_vfs, SnapshotView, Vfs, VfsFileSnapshot, VfsMetadata, VfsView, ROOT_DIR_ID};

verus! {

/// An open fork.
pub struct OpenFile {
    pub refnum: u16,
    pub path: String,
    pub position: u32,
}

/// An open fork as a mathematical value.
pub struct OpenFileView {
    pub refnum: u16,
    pub path: Seq<char>,
    pub position: u32,
}

impl OpenFile {
    pub open spec fn view(&self) -> OpenFileView {
        OpenFileView { refnum: self.refnum, path: self.path@, position: self.position }
    }
}

/// The state of the File Manager.
pub struct FileManager {
    pub vfs: Vfs,
    /// Open forks, the one opened last at the end.
    pub open_files: Vec<OpenFile>,
    /// The folder in which names are looked up.
    pub default_dir_id: u32,
    pub standard_file: StandardFile,
}

/// That state as a mathematical value.
pub struct FileView {
    pub vfs: VfsView,
    pub open_files: Seq<OpenFileView>,
    pub default_dir_id: u32,
    pub standard_file: StandardFileView,
}

/// The path of the fork that was opened last under `refnum`, among the first
/// `n`.
pub open spec fn path_of(files: Seq<OpenFileView>, refnum: u16, n: nat) -> Option<Seq<char>>
    decreases n,
{
    if n == 0 {
        None
    } else if files[n - 1].refnum == refnum {
        Some(files[n - 1].path)
    } else {
        path_of(files, refnum, (n - 1) as nat)
    }
}

impl FileView {
    /// The state when names are looked up in the folder of the file at `path`.
    pub open spec fn in_folder_of(self, path: Seq<char>) -> FileView {
        let (vfs, id) = self.vfs.with_dir(parent_path(path));
        FileView { vfs, default_dir_id: id, ..self }
    }

    /// The path of `name` in the folder with number `dir_id`.
    pub open spec fn target(self, dir_id: u32, name: Seq<char>) -> Option<Seq<char>> {
        match self.vfs.dir_path(dir_id) {
            Some(parent) => Some(joined(parent, name)),
            None => None,
        }
    }

    /// The state after the host chose `file` in a dialog to open one, and where
    /// the guest finds it: the file is put into the folder that the guest looks
    /// at.
    pub open spec fn opened(self, file: SnapshotView) -> (FileView, Result<Seq<char>, StandardFileError>) {
        let name = file_name(base_name(file.path));
        match self.standard_file.get_tracking {
            Some(t) if t.native => if !t.accepted(file.file_type) {
                (self, Err(StandardFileError::TypeNotAccepted(file.file_type)))
            } else if name.len() == 0 {
                (self, Err(StandardFileError::NoFileName))
            } else {
                match self.target(t.dir_id, name) {
                    Some(path) => (
                        FileView {
                            vfs: self.vfs.with_file(SnapshotView { path, ..file }),
                            standard_file: StandardFileView {
                                response: Some(ResponseView::Open { name }),
                                ..self.standard_file
                            },
                            ..self
                        },
                        Ok(path),
                    ),
                    None => (self, Err(StandardFileError::DirectoryNotMounted(t.dir_id))),
                }
            },
            _ => (self, Err(StandardFileError::NoDialog)),
        }
    }

    /// The state after the host chose a name in a dialog to save a file, and
    /// where the guest will put it.
    pub open spec fn saved_as(self, chosen: Seq<char>) -> (FileView, Result<Seq<char>, StandardFileError>) {
        let name = file_name(chosen);
        match self.standard_file.put_tracking {
            Some(t) if t.native => if name.len() == 0 {
                (self, Err(StandardFileError::NoFileName))
            } else {
                match self.target(t.dir_id, name) {
                    Some(path) => (
                        FileView {
                            standard_file: StandardFileView {
                                response: Some(ResponseView::Save { name }),
                                ..self.standard_file
                            },
                            ..self
                        },
                        Ok(path),
                    ),
                    None => (self, Err(StandardFileError::DirectoryNotMounted(t.dir_id))),
                }
            },
            _ => (self, Err(StandardFileError::NoDialog)),
        }
    }
}

impl FileManager {
    pub closed spec fn view(&self) -> FileView {
        FileView {
            vfs: self.vfs@,
            open_files: self.open_files@.map_values(|f: OpenFile| f@),
            default_dir_id: self.default_dir_id,
            standard_file: self.standard_file@,
        }
    }

    /// No path of the volume occurs twice.
    pub open spec fn wf(&self) -> bool {
        self.vfs.wf()
    }

    /// An empty volume and nothing open.
    pub fn new() -> (r: Self)
        ensures
            r.wf(),
            r@ == fresh_files(),
    {
        let r: FileManager = FileManager {
            vfs: Vfs::new(),
            open_files: Vec::new(),
            default_dir_id: ROOT_DIR_ID,
            standard_file: StandardFile::new(),
        };
        assert(r@.open_files =~= Seq::<OpenFileView>::empty());
        r
    }

    /// Opens a fork.
    pub fn open(&mut self, refnum: u16, path: String)
        ensures
            final(self)@ == (FileView {
                open_files: old(self)@.open_files.push(OpenFileView { refnum, path: path@, position: 0 }),
                ..old(self)@
            }),
            old(self).wf() ==> final(self).wf(),
    {
        let ghost before = self@.open_files;
        self.open_files.push(OpenFile { refnum, path, position: 0 });
        assert(self@.open_files =~= before.push(OpenFileView { refnum, path: path@, position: 0 }));
    }

    /// The folder in which names are looked up.
    pub fn default_dir(&self) -> (r: u32)
        ensures
            r == self@.default_dir_id,
    {
        self.default_dir_id
    }

    /// The path of an open fork.
    pub fn open_path(&self, refnum: u16) -> (r: Option<String>)
        ensures
            r is Some <==> path_of(self@.open_files, refnum, self@.open_files.len()) is Some,
            r matches Some(p) ==> Some(p@) == path_of(self@.open_files, refnum, self@.open_files.len()),
    {
        let mut i: usize = self.open_files.len();
        while i > 0
            invariant
                i <= self.open_files@.len(),
                self@.open_files.len() == self.open_files@.len(),
                path_of(self@.open_files, refnum, self@.open_files.len()) == path_of(self@.open_files, refnum, i as nat),
            decreases i,
        {
            assert(self@.open_files[i - 1] == self.open_files@[i - 1]@);
            if self.open_files[i - 1].refnum == refnum {
                return Some(self.open_files[i - 1].path.clone());
            }
            i -= 1;
        }
        None
    }

    /// Looks names up in the folder of the file at `path` from now on.
    pub fn enter_folder_of(&mut self, path: &str)
        requires
            old(self).wf(),
        ensures
            final(self).wf(),
            final(self)@ == old(self)@.in_folder_of(path@),
    {
        let parent: String = path_parent(path);
        let id: u32 = self.vfs.ensure_dir(parent.as_str());
        self.default_dir_id = id;
    }

    /// Puts a catalog entry for `path` in place, and gives it.
    pub fn describe(&mut self, path: &str) -> (r: VfsMetadata)
        requires
            old(self).wf(),
        ensures
            final(self).wf(),
            final(self)@ == (FileView { vfs: old(self)@.vfs.with_metadata(path@), ..old(self)@ }),
            r == old(self)@.vfs.with_metadata(path@).metadata[path@],
    {
        proof {
            self@.vfs.lemma_with_metadata_keeps(path@);
        }
        self.vfs.ensure_metadata(path);
        match self.vfs.metadata(path) {
            Some(m) => m,
            None => VfsMetadata {
                file_id: 0,
                parent_dir_id: self.default_dir_id,
                file_type: 0,
                creator: 0,
                finder_flags: 0,
                created_date: 0,
                modified_date: 0,
            },
        }
    }

    /// Changes volumes with another File Manager.
    pub fn swap_volume(&mut self, other: &mut Self)
        requires
            old(self).wf(),
            old(other).wf(),
        ensures
            final(self).wf(),
            final(other).wf(),
            final(self)@ == (FileView { vfs: old(other)@.vfs, ..old(self)@ }),
            final(other)@ == (FileView { vfs: old(self)@.vfs, ..old(other)@ }),
    {
        std::mem::swap(&mut self.vfs, &mut other.vfs);
    }

    /// The volume, to change it.
    pub fn vfs_mut(&mut self) -> (r: &mut Vfs)
        ensures
            r@ == old(self)@.vfs,
            old(self).wf() ==> r.wf(),
            final(self)@ == (FileView { vfs: final(r)@, ..old(self)@ }),
            final(r).wf() ==> final(self).wf(),
    {
        &mut self.vfs
    }

    /// The Standard File Package, to change it.
    pub fn standard_file_mut(&mut self) -> (r: &mut StandardFile)
        ensures
            r@ == old(self)@.standard_file,
            final(self)@ == (FileView { standard_file: final(r)@, ..old(self)@ }),
            old(self).wf() ==> final(self).wf(),
    {
        &mut self.standard_file
    }

    /// The data fork of a path.
    pub fn data_fork(&self, path: &str) -> (r: Option<&Vec<u8>>)
        requires
            self.wf(),
        ensures
            r is Some <==> self@.vfs.data.dom().contains(path@),
            r matches Some(v) ==> v@ == self@.vfs.data[path@],
    {
        self.vfs.data(path)
    }

    /// The resource fork of a path.
    pub fn resource_fork(&self, path: &str) -> (r: Option<&Vec<u8>>)
        requires
            self.wf(),
        ensures
            r is Some <==> self@.vfs.resources.dom().contains(path@),
            r matches Some(v) ==> v@ == self@.vfs.resources[path@],
    {
        self.vfs.resource(path)
    }

    /// The path of the resource fork that `path` means.
    pub fn find_resource_fork(&self, path: &str) -> (r: Option<String>)
        requires
            self.wf(),
        ensures
            r is Some <==> self@.vfs.resource_key(path@) is Some,
            r matches Some(k) ==> Some(k@) == self@.vfs.resource_key(path@) && self@.vfs.resources.dom().contains(k@),
    {
        self.vfs.find_vfs_rsrc_file(path)
    }

    /// The length of a resource fork, 0 where there is none.
    pub fn resource_length(&self, path: &str) -> (r: u32)
        requires
            self.wf(),
        ensures
            r == self@.vfs.resource_of(path@).len() as u32,
    {
        match self.vfs.resource(path) {
            Some(v) => v.len() as u32,
            None => 0,
        }
    }

    fn target_path(&self, dir_id: u32, name: &str) -> (r: Result<String, StandardFileError>)
        ensures
            r is Ok <==> self@.target(dir_id, name@) is Some,
            r matches Ok(p) ==> p@ == self@.target(dir_id, name@)->0,
            r matches Err(e) ==> e == StandardFileError::DirectoryNotMounted(dir_id),
    {
        match self.vfs.dir_path(dir_id) {
            Some(parent) => Ok(join_path(parent.as_str(), name)),
            None => Err(StandardFileError::DirectoryNotMounted(dir_id)),
        }
    }

    /// Completes a dialog to open a file with the host's choice.
    pub fn complete_open(&mut self, file: &VfsFileSnapshot) -> (r: Result<String, StandardFileError>)
        requires
            old(self).wf(),
        ensures
            final(self).wf(),
            final(self)@ == old(self)@.opened(file@).0,
            r is Ok <==> old(self)@.opened(file@).1 is Ok,
            r matches Ok(p) ==> Ok::<Seq<char>, StandardFileError>(p@) == old(self)@.opened(file@).1,
            r matches Err(e) ==> Err::<Seq<char>, StandardFileError>(e) == old(self)@.opened(file@).1,
    {
        let dir_id: u32 = match &self.standard_file.get_tracking {
            Some(t) => {
                if !t.native {
                    return Err(StandardFileError::NoDialog);
                }
                if !t.accepts(file.file_type) {
                    return Err(StandardFileError::TypeNotAccepted(file.file_type));
                }
                t.dir_id
            },
            None => return Err(StandardFileError::NoDialog),
        };
        let last: String = path_base_name(file.path.as_str());
        let name: String = guest_file_name(last.as_str());
        if name.as_str().unicode_len() == 0 {
            return Err(StandardFileError::NoFileName);
        }
        let path: String = match self.target_path(dir_id, name.as_str()) {
            Ok(p) => p,
            Err(e) => return Err(e),
        };
        self.vfs.write_file(path.as_str(), file);
        self.standard_file.respond(StandardFileDialogResponse::Open { name });
        Ok(path)
    }

    /// Completes a dialog to save a file with the host's choice.
    pub fn complete_save(&mut self, chosen: &str) -> (r: Result<String, StandardFileError>)
        requires
            old(self).wf(),
        ensures
            final(self).wf(),
            final(self)@ == old(self)@.saved_as(chosen@).0,
            r is Ok <==> old(self)@.saved_as(chosen@).1 is Ok,
            r matches Ok(p) ==> Ok::<Seq<char>, StandardFileError>(p@) == old(self)@.saved_as(chosen@).1,
            r matches Err(e) ==> Err::<Seq<char>, StandardFileError>(e) == old(self)@.saved_as(chosen@).1,
    {
        let dir_id: u32 = match self.standard_file.put_tracking {
            Some(t) => {
                if !t.native {
                    return Err(StandardFileError::NoDialog);
                }
                t.dir_id
            },
            None => return Err(StandardFileError::NoDialog),
        };
        let name: String = guest_file_name(chosen);
        if name.as_str().unicode_len() == 0 {
            return Err(StandardFileError::NoFileName);
        }
        let path: String = match self.target_path(dir_id, name.as_str()) {
            Ok(p) => p,
            Err(e) => return Err(e),
        };
        self.standard_file.respond(StandardFileDialogResponse::Save { name });
        Ok(path)
    }
}

/// An empty volume and nothing open.
pub open spec fn fresh_files() -> FileView {
    FileView {
        vfs: fresh_vfs(),
        open_files: Seq::empty(),
        default_dir_id: ROOT_DIR_ID,
        standard_file: fresh_standard_file(),
    }
}

} // verus!
