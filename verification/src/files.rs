use vstd::prelude::*;
use vstd::string::*;

use crate::file_manager::{FileManager, FileView};
use crate::listing::{SummaryView, VfsFileStat, VfsFileSummary};
use crate::runner::{FixtureRunner, RunnerView};
use crate::standard_file::{
    ResponseView, StandardFileDialogRequest, StandardFileDialogResponse, StandardFileError, StandardFileView,
};
use crate::text::{
    base_name, join_path, joined, normal_path, normalize_path, parent_path, path_base_name, path_parent,
};
use crate::trap::{DispView, TrapDispatcher};
use crate::vfs::{names_file, SnapshotView, VfsFileSnapshot, VfsView};

verus! {

broadcast use crate::trap::group_dispatcher_fields;

/// Why a file could not be put beside the application.
#[derive(Clone, Copy, Debug, PartialEq, Eq, Structural)]
pub enum MountError {
    /// No application was launched.
    NoLaunchedApp,
    /// The application is in no folder.
    NoParentFolder,
    /// The folder is empty, begins with a separator or leads upward.
    InvalidDirectory,
    /// The file has no name.
    NoFileName,
}

/// A path that leads upward: two dots in a row.
pub open spec fn leads_upward(p: Seq<char>) -> bool {
    exists|i: int| 0 <= i < p.len() - 1 && #[trigger] p[i] == '.' && p[i + 1] == '.'
}

fn does_lead_upward(p: &str) -> (r: bool)
    ensures
        r == leads_upward(p@),
{
    let n: usize = p.unicode_len();
    let mut i: usize = 0;
    while i < n && i + 1 < n
        invariant
            i <= n,
            n == p@.len(),
            forall|k: int| 0 <= k < i ==> !(#[trigger] p@[k] == '.' && p@[k + 1] == '.'),
        decreases n - i,
    {
        if p.get_char(i) == '.' && p.get_char(i + 1) == '.' {
            assert(p@[i as int] == '.' && p@[i + 1] == '.');
            return true;
        }
        i += 1;
    }
    false
}

impl DispView {
    /// Where a file goes that is put into a folder beside the application.
    pub open spec fn mount_target(self, relative_dir: Seq<char>, file: Seq<char>) -> Result<Seq<char>, MountError> {
        match self.launched_app_path {
            None => Err(MountError::NoLaunchedApp),
            Some(app) => {
                let parent = parent_path(app);
                let dir = normal_path(relative_dir);
                let name = base_name(normal_path(file));
                if parent.len() == 0 {
                    Err(MountError::NoParentFolder)
                } else if dir.len() == 0 || dir[0] == '/' || leads_upward(dir) {
                    Err(MountError::InvalidDirectory)
                } else if name.len() == 0 {
                    Err(MountError::NoFileName)
                } else {
                    Ok(joined(joined(parent, dir), name))
                }
            },
        }
    }
}

impl TrapDispatcher {
    /// The File Manager, to change it.
    pub fn files_mut(&mut self) -> (r: &mut FileManager)
        ensures
            r@ == old(self)@.files,
            old(self).wf() ==> r.wf(),
            final(self)@ == (DispView { files: final(r)@, ..old(self)@ }),
            old(self).wf() && final(r).wf() ==> final(self).wf(),
    {
        proof {
            reveal(TrapDispatcher::view);
        }
        &mut self.files
    }

    /// The data fork of a path.
    pub fn data_fork(&self, path: &str) -> (r: Option<&Vec<u8>>)
        requires
            self.wf(),
        ensures
            r is Some <==> self@.files.vfs.data.dom().contains(path@),
            r matches Some(v) ==> v@ == self@.files.vfs.data[path@],
    {
        proof {
            reveal(TrapDispatcher::view);
        }
        self.files.data_fork(path)
    }

    fn find_mount_target(&self, relative_dir: &str, file: &str) -> (r: Result<String, MountError>)
        ensures
            match r {
                Ok(p) => self@.mount_target(relative_dir@, file@) == Ok::<Seq<char>, MountError>(p@),
                Err(e) => self@.mount_target(relative_dir@, file@) == Err::<Seq<char>, MountError>(e),
            },
    {
        proof {
            reveal(TrapDispatcher::view);
        }
        let parent: String = match &self.launched_app_path {
            Some(app) => path_parent(app.as_str()),
            None => return Err(MountError::NoLaunchedApp),
        };
        if parent.as_str().unicode_len() == 0 {
            return Err(MountError::NoParentFolder);
        }
        let dir: String = normalize_path(relative_dir);
        if dir.as_str().unicode_len() == 0 || dir.as_str().get_char(0) == '/' || does_lead_upward(dir.as_str()) {
            return Err(MountError::InvalidDirectory);
        }
        let path: String = normalize_path(file);
        let name: String = path_base_name(path.as_str());
        if name.as_str().unicode_len() == 0 {
            return Err(MountError::NoFileName);
        }
        let folder: String = join_path(parent.as_str(), dir.as_str());
        Ok(join_path(folder.as_str(), name.as_str()))
    }
}

impl RunnerView {
    /// The state with other files.
    pub open spec fn with_files(self, files: FileView) -> RunnerView {
        RunnerView { disp: DispView { files, ..self.disp }, ..self }
    }

    /// The state with another volume.
    pub open spec fn with_vfs(self, vfs: VfsView) -> RunnerView {
        self.with_files(FileView { vfs, ..self.disp.files })
    }

    /// The state with another state of the Standard File Package.
    pub open spec fn with_standard_file(self, standard_file: StandardFileView) -> RunnerView {
        self.with_files(FileView { standard_file, ..self.disp.files })
    }

    /// The volume.
    pub open spec fn vfs(self) -> VfsView {
        self.disp.files.vfs
    }
}

impl FixtureRunner {
    /// The data fork of a file.
    pub fn vfs_read(&self, filename: &str) -> (r: Option<&[u8]>)
        requires
            self.wf(),
        ensures
            r is Some <==> self@.vfs().data.dom().contains(filename@),
            r matches Some(v) ==> v@ == self@.vfs().data[filename@],
    {
        match self.dispatcher.data_fork(filename) {
            Some(v) => Some(v.as_slice()),
            None => None,
        }
    }

    /// All files, with hashes in place of their content, in the order of their
    /// paths.
    pub fn vfs_file_summaries(&mut self) -> (r: Vec<VfsFileSummary>)
        requires
            old(self).wf(),
        ensures
            final(self).wf(),
            old(self)@.all_summarized(final(self)@, r@.map_values(|x: VfsFileSummary| x@)),
    {
        let all = |path: &str| -> (r: bool)
            ensures
                r,
            { true };
        let r: Vec<VfsFileSummary> = self.vfs_file_summaries_where(all);
        proof {
            lemma_all_summarized(old(self)@, self@, all, r@.map_values(|x: VfsFileSummary| x@));
        }
        r
    }

    /// The files that are wanted, with hashes in place of their content, in the
    /// order of their paths.
    pub fn vfs_file_summaries_where<F: FnMut(&str) -> bool>(&mut self, wanted: F) -> (r: Vec<VfsFileSummary>)
        requires
            old(self).wf(),
            forall|s: &str| call_requires(wanted, (s,)),
        ensures
            final(self).wf(),
            final(self)@ == old(self)@.with_vfs(final(self)@.vfs()),
            old(self)@.vfs().summaries_found(wanted, final(self)@.vfs(), r@.map_values(|x: VfsFileSummary| x@)),
    {
        self.dispatcher.files_mut().vfs_mut().file_summaries_where(wanted)
    }

    /// The files that are wanted, without their content, in the order of their
    /// paths.
    pub fn vfs_file_stats_where<F: FnMut(&str) -> bool>(&mut self, wanted: F) -> (r: Vec<VfsFileStat>)
        requires
            old(self).wf(),
            forall|s: &str| call_requires(wanted, (s,)),
        ensures
            final(self).wf(),
            final(self)@ == old(self)@.with_vfs(final(self)@.vfs()),
            old(self)@.vfs().stats_found(wanted, final(self)@.vfs(), r@.map_values(|x: VfsFileStat| x@)),
    {
        self.dispatcher.files_mut().vfs_mut().file_stats_where(wanted)
    }

    /// A file, with hashes in place of its content.
    pub fn vfs_file_summary(&mut self, path: &str) -> (r: Option<VfsFileSummary>)
        requires
            old(self).wf(),
        ensures
            final(self).wf(),
            ({
                let p = normal_path(path@);
                if names_file(p) {
                    &&& final(self)@ == old(self)@.with_vfs(old(self)@.vfs().summary_of(p).0)
                    &&& r is Some <==> old(self)@.vfs().summary_of(p).1 is Some
                    &&& r matches Some(x) ==> Some(x@) == old(self)@.vfs().summary_of(p).1
                } else {
                    r is None && final(self)@ == old(self)@
                }
            }),
    {
        self.dispatcher.files_mut().vfs_mut().normal_file_summary(path)
    }

    /// A file with everything about it.
    pub fn vfs_file_snapshot(&mut self, path: &str) -> (r: Option<VfsFileSnapshot>)
        requires
            old(self).wf(),
        ensures
            final(self).wf(),
            final(self)@ == old(self)@.with_vfs(old(self)@.vfs().read_file(path@).0),
            r is Some <==> old(self)@.vfs().read_file(path@).1 is Some,
            r matches Some(f) ==> f@ == old(self)@.vfs().read_file(path@).1->0,
    {
        self.dispatcher.files_mut().vfs_mut().read_file(path)
    }

    /// Puts a file onto the volume.
    pub fn import_vfs_file(&mut self, file: &VfsFileSnapshot)
        requires
            old(self).wf(),
        ensures
            final(self).wf(),
            final(self)@ == old(self)@.with_vfs(old(self)@.vfs().with_file(file@)),
    {
        self.dispatcher.files_mut().vfs_mut().write_file(file.path.as_str(), file);
    }

    /// Lets the host show file dialogs in place of the guest, or not.
    pub fn set_native_standard_file_dialogs(&mut self, enabled: bool)
        requires
            old(self).wf(),
        ensures
            final(self).wf(),
            ({
                let s = old(self)@.disp.files.standard_file;
                final(self)@ == old(self)@.with_standard_file(
                    StandardFileView {
                        native_dialogs: enabled,
                        request: if enabled {
                            s.request
                        } else {
                            None
                        },
                        response: if enabled {
                            s.response
                        } else {
                            None
                        },
                        ..s
                    },
                )
            }),
    {
        self.dispatcher.files_mut().standard_file_mut().set_native_dialogs(enabled);
    }

    /// The file dialog that the guest asks for; it asks for it once.
    pub fn take_standard_file_dialog_request(&mut self) -> (r: Option<StandardFileDialogRequest>)
        requires
            old(self).wf(),
        ensures
            final(self).wf(),
            final(self)@ == old(self)@.with_standard_file(
                StandardFileView { request: None, ..old(self)@.disp.files.standard_file },
            ),
            r is Some <==> old(self)@.disp.files.standard_file.request is Some,
            r matches Some(q) ==> q@ == old(self)@.disp.files.standard_file.request->0,
    {
        self.dispatcher.files_mut().standard_file_mut().take_request()
    }

    /// Answers the guest's file dialog: the user has cancelled it.
    pub fn cancel_standard_file_dialog(&mut self)
        requires
            old(self).wf(),
        ensures
            final(self).wf(),
            final(self)@ == old(self)@.with_standard_file(
                StandardFileView { response: Some(ResponseView::Cancel), ..old(self)@.disp.files.standard_file },
            ),
    {
        self.dispatcher.files_mut().standard_file_mut().respond(StandardFileDialogResponse::Cancel);
    }

    /// Answers the guest's dialog to open a file with the file that the user has
    /// chosen; the guest finds it in the folder that it looks at.
    pub fn complete_standard_file_open(&mut self, file: &VfsFileSnapshot) -> (r: Result<String, StandardFileError>)
        requires
            old(self).wf(),
        ensures
            final(self).wf(),
            final(self)@ == old(self)@.with_files(old(self)@.disp.files.opened(file@).0),
            match r {
                Ok(p) => old(self)@.disp.files.opened(file@).1 == Ok::<Seq<char>, StandardFileError>(p@),
                Err(e) => old(self)@.disp.files.opened(file@).1 == Err::<Seq<char>, StandardFileError>(e),
            },
    {
        self.dispatcher.files_mut().complete_open(file)
    }

    /// Answers the guest's dialog to save a file with the name that the user has
    /// chosen, and says where the guest will put the file.
    pub fn complete_standard_file_save(&mut self, name: &str) -> (r: Result<String, StandardFileError>)
        requires
            old(self).wf(),
        ensures
            final(self).wf(),
            final(self)@ == old(self)@.with_files(old(self)@.disp.files.saved_as(name@).0),
            match r {
                Ok(p) => old(self)@.disp.files.saved_as(name@).1 == Ok::<Seq<char>, StandardFileError>(p@),
                Err(e) => old(self)@.disp.files.saved_as(name@).1 == Err::<Seq<char>, StandardFileError>(e),
            },
    {
        self.dispatcher.files_mut().complete_save(name)
    }

    /// Puts a file into a folder beside the launched application.
    pub fn import_vfs_file_relative_to_launched_app(&mut self, relative_dir: &str, file: &VfsFileSnapshot) -> (r: Result<
        (),
        MountError,
    >)
        requires
            old(self).wf(),
        ensures
            final(self).wf(),
            match old(self)@.disp.mount_target(relative_dir@, file@.path) {
                Ok(path) => r is Ok && final(self)@ == old(self)@.with_vfs(
                    old(self)@.vfs().with_file(SnapshotView { path, ..file@ }),
                ),
                Err(e) => r == Err::<(), MountError>(e) && final(self)@ == old(self)@,
            },
    {
        let path: String = match self.dispatcher.find_mount_target(relative_dir, file.path.as_str()) {
            Ok(p) => p,
            Err(e) => return Err(e),
        };
        self.dispatcher.files_mut().vfs_mut().write_file(path.as_str(), file);
        Ok(())
    }

    /// Removes a file from the volume, and says whether there was one.
    pub fn remove_vfs_file(&mut self, path: &str) -> (r: bool)
        requires
            old(self).wf(),
        ensures
            final(self).wf(),
            final(self)@ == old(self)@.with_vfs(old(self)@.vfs().without_file(path@)),
            r == old(self)@.vfs().is_file(normal_path(path@)),
    {
        self.dispatcher.files_mut().vfs_mut().remove_file(path)
    }
}

impl RunnerView {
    /// `t` and `found` follow when all files were summarized.
    pub open spec fn all_summarized(self, t: RunnerView, found: Seq<SummaryView>) -> bool {
        &&& t == self.with_vfs(t.vfs())
        &&& exists|list: Seq<Seq<char>>| #[trigger]
            self.vfs().lists(list) && (t.vfs(), found) == self.vfs().catalogued(list, list.len()).summaries_of(
                list,
                Seq::new(list.len(), |i: int| true),
                list.len(),
            )
    }
}

proof fn lemma_all_summarized<F: FnMut(&str) -> bool>(s: RunnerView, t: RunnerView, wanted: F, found: Seq<SummaryView>)
    requires
        t == s.with_vfs(t.vfs()),
        s.vfs().summaries_found(wanted, t.vfs(), found),
        forall|p: &str, r: bool| call_ensures(wanted, (p,), r) ==> r,
    ensures
        s.all_summarized(t, found),
{
    let (list, picks) = choose|list: Seq<Seq<char>>, picks: Seq<bool>|
        s.vfs().lists(list) && #[trigger] crate::listing::picked(wanted, list, picks) && (t.vfs(), found)
            == s.vfs().catalogued(list, list.len()).summaries_of(list, picks, list.len());
    assert forall|i: int| 0 <= i < picks.len() implies picks[i] by {
        assert(crate::listing::answered(wanted, list[i], picks[i]));
    }
    assert(picks =~= Seq::new(list.len(), |i: int| true));
    assert(s.vfs().lists(list));
}

} // verus!
