//! One tracked project: its documents, its workspace, and whether it is still
//! in use.

use vstd::prelude::*;
use vstd::string::*;
use crate::document::{batch_result, ContentChange, Document, ReadFailure};
use crate::errors::{DirectoryError, DocumentError, MakepadAnalyzerError};
use crate::paths::{file_name, file_name_of};
use crate::store::{files_loaded, Documents, LoadedFile};
use crate::text::{byte_len, ends_with, str_ends_with, text_bytes};
use crate::workspace::{Directory, SandboxRequest, SyncWorkspace, TempDirOutcome};

verus! {

/// The directory of a project, by which its session is known.
pub type ProjectDirectory = String;

/// One entry of a directory with its full path, as the disk reports it.
#[derive(Debug, Clone, PartialEq, Eq)]
pub struct PathEntry {
    pub path: String,
    pub is_dir: bool,
    pub is_file: bool,
}

/// Whether the last component of a path has the extension of a source file:
/// it ends with `.rs` and has something before it.
pub open spec fn has_rust_extension(path: Seq<u8>) -> bool {
    file_name(path).len() > 3 && ends_with(file_name(path), text_bytes(".rs"@))
}

/// Whether an entry is a source file.
pub open spec fn is_source_entry(entry: PathEntry) -> bool {
    !entry.is_dir && entry.is_file && has_rust_extension(text_bytes(entry.path@))
}

/// The paths of the directories among the first `k` entries, in order.
pub open spec fn listed_dirs(entries: Seq<PathEntry>, k: int) -> Seq<Seq<char>>
    decreases k,
{
    if k <= 0 {
        Seq::<Seq<char>>::empty()
    } else if entries[k - 1].is_dir {
        listed_dirs(entries, k - 1).push(entries[k - 1].path@)
    } else {
        listed_dirs(entries, k - 1)
    }
}

/// The paths of the source files among the first `k` entries, in order.
pub open spec fn listed_files(entries: Seq<PathEntry>, k: int) -> Seq<Seq<char>>
    decreases k,
{
    if k <= 0 {
        Seq::<Seq<char>>::empty()
    } else if is_source_entry(entries[k - 1]) {
        listed_files(entries, k - 1).push(entries[k - 1].path@)
    } else {
        listed_files(entries, k - 1)
    }
}

/// The texts of a sequence of paths.
pub open spec fn path_texts(paths: Seq<String>) -> Seq<Seq<char>> {
    paths.map_values(|path: String| path@)
}

/// Whether `file` is a source file; `is_file` tells whether the disk holds a
/// file there.
pub fn is_rust_file(file: &str, is_file: bool) -> (r: bool)
    ensures
        r == (is_file && has_rust_extension(file.spec_bytes())),
{
    if !is_file {
        return false;
    }
    let name = file_name_of(file);
    byte_len(name) > 3 && str_ends_with(name, ".rs")
}

/// Sorts the entries of one directory of a project: the directories are put
/// on `dir_entries`, to be listed in turn, and the source files on `files`.
/// Other entries are passed over.
pub fn get_project_files(
    entries: &[PathEntry],
    dir_entries: &mut Vec<String>,
    files: &mut Vec<String>,
)
    ensures
        path_texts(final(dir_entries)@) == path_texts(old(dir_entries)@) + listed_dirs(
            entries@,
            entries@.len() as int,
        ),
        path_texts(final(files)@) == path_texts(old(files)@) + listed_files(
            entries@,
            entries@.len() as int,
        ),
{
    let n = entries.len();
    let mut i: usize = 0;
    assert(path_texts(dir_entries@) =~= path_texts(old(dir_entries)@) + listed_dirs(entries@, 0));
    assert(path_texts(files@) =~= path_texts(old(files)@) + listed_files(entries@, 0));
    while i < n
        invariant
            i <= n,
            n == entries@.len(),
            path_texts(dir_entries@) == path_texts(old(dir_entries)@) + listed_dirs(
                entries@,
                i as int,
            ),
            path_texts(files@) == path_texts(old(files)@) + listed_files(entries@, i as int),
        decreases n - i,
    {
        let entry = &entries[i];
        let ghost dirs_before = dir_entries@;
        let ghost files_before = files@;
        if entry.is_dir {
            dir_entries.push(entry.path.clone());
            assert(path_texts(dir_entries@) =~= path_texts(dirs_before).push(entry.path@));
            assert(path_texts(dir_entries@) =~= path_texts(old(dir_entries)@) + listed_dirs(
                entries@,
                i + 1,
            ));
        } else if is_rust_file(entry.path.as_str(), entry.is_file) {
            files.push(entry.path.clone());
            assert(path_texts(files@) =~= path_texts(files_before).push(entry.path@));
            assert(path_texts(files@) =~= path_texts(old(files)@) + listed_files(entries@, i + 1));
        }
        i = i + 1;
    }
}

/// The state kept for one project.
#[derive(Debug, Clone)]
pub struct Session {
    documents: Documents,
    workspace: SyncWorkspace,
    is_active: bool,
}

impl Session {
    /// The documents of the project.
    pub closed spec fn documents_value(&self) -> Documents {
        self.documents
    }

    /// The directories of the project.
    pub closed spec fn workspace_value(&self) -> SyncWorkspace {
        self.workspace
    }

    /// Whether the session is still in use.
    pub closed spec fn active(&self) -> bool {
        self.is_active
    }

    /// The same session, marked as no longer in use.
    pub closed spec fn deactivated(self) -> Session {
        Session { documents: self.documents, workspace: self.workspace, is_active: false }
    }

    /// A session that was marked is no longer in use, and holds the documents
    /// and directories that it held.
    pub proof fn lemma_deactivated(&self)
        ensures
            !self.deactivated().active(),
            self.deactivated().documents_value() == self.documents_value(),
            self.deactivated().workspace_value() == self.workspace_value(),
    {
    }

    /// The documents of a session stay consistent.
    pub open spec fn wf(&self) -> bool {
        self.documents_value().wf()
    }

    /// A session in use, with no document and no directory.
    pub fn new() -> (r: Session)
        ensures
            r.wf(),
            r.active(),
            r.documents_value().documents().dom() == Set::<Seq<char>>::empty(),
            r.workspace_value().directories().dom() == Set::<crate::workspace::Directory>::empty(),
    {
        Session { documents: Documents::new(), workspace: SyncWorkspace::new(), is_active: true }
    }

    /// The directories of the project.
    pub fn workspace(&self) -> (r: &SyncWorkspace)
        ensures
            *r == self.workspace_value(),
    {
        &self.workspace
    }

    /// The documents of the project.
    pub fn documents(&self) -> (r: &Documents)
        ensures
            *r == self.documents_value(),
    {
        &self.documents
    }

    /// Whether the session is still in use.
    pub fn status(&self) -> (r: bool)
        ensures
            r == self.active(),
    {
        self.is_active
    }

    /// Marks the session as no longer in use. Nothing else changes.
    pub fn mark_inactived(&mut self)
        ensures
            *final(self) == old(self).deactivated(),
            !final(self).active(),
            final(self).documents_value() == old(self).documents_value(),
            final(self).workspace_value() == old(self).workspace_value(),
    {
        self.is_active = false;
    }

    /// Opens the file at `path` from what reading it gave, unless it is open
    /// already.
    pub fn handle_open_file(&mut self, path: &str, read: Result<String, ReadFailure>)
        requires
            old(self).wf(),
        ensures
            final(self).wf(),
            final(self).active() == old(self).active(),
            final(self).workspace_value() == old(self).workspace_value(),
            old(self).documents_value().documents().contains_key(path@) || read is Err ==> final(
                self).documents_value().documents() == old(self).documents_value().documents(),
            !old(self).documents_value().documents().contains_key(path@) && read is Ok ==> {
                let before = old(self).documents_value().documents();
                let after = final(self).documents_value().documents();
                &&& after.dom() == before.dom().insert(path@)
                &&& forall|key: Seq<char>|
                    key != path@ && #[trigger] before.contains_key(key) ==> after[key]
                        == before[key]
                &&& after[path@].text() == read->Ok_0@
                &&& after[path@].version_number() == 1
            },
    {
        self.documents.handle_open_file(path, read);
    }

    /// Applies `changes` in order to the document under `path` and returns its
    /// text; see [`Documents::update_document`].
    pub fn update_document(&mut self, path: &str, changes: &[ContentChange]) -> (r: Result<
        String,
        DocumentError,
    >)
        requires
            old(self).wf(),
            old(self).documents_value().documents().contains_key(path@) ==> old(
                self).documents_value().documents()[path@].version_number() + batch_result(
                old(self).documents_value().documents()[path@].bytes(),
                changes@,
            ).1 <= i32::MAX,
        ensures
            final(self).wf(),
            final(self).active() == old(self).active(),
            final(self).workspace_value() == old(self).workspace_value(),
            !old(self).documents_value().documents().contains_key(path@) ==> {
                &&& final(self).documents_value().documents() == old(
                    self).documents_value().documents()
                &&& r matches Err(e)
                &&& e.is_not_found(path@)
            },
            old(self).documents_value().documents().contains_key(path@) ==> {
                let before = old(self).documents_value().documents()[path@];
                let outcome = batch_result(before.bytes(), changes@);
                let after = final(self).documents_value().documents()[path@];
                &&& final(self).documents_value().documents() == old(
                    self).documents_value().documents().insert(path@, after)
                &&& after.bytes() == outcome.0
                &&& after.version_number() == before.version_number() + outcome.1
                &&& r is Ok <==> outcome.1 == changes@.len()
                &&& r matches Ok(text) ==> text@ == after.text()
                &&& r matches Err(e) ==> changes@[outcome.1 as int].range is Some && e
                    == (DocumentError::InvalidRange { range: changes@[outcome.1 as int].range->0 })
            },
    {
        self.documents.update_document(path, changes)
    }

    /// Closes the document under `path` and returns it.
    pub fn remove_document(&mut self, path: &str) -> (r: Result<Document, DocumentError>)
        requires
            old(self).wf(),
        ensures
            final(self).wf(),
            final(self).active() == old(self).active(),
            final(self).workspace_value() == old(self).workspace_value(),
            final(self).documents_value().documents() == old(
                self).documents_value().documents().remove(path@),
            match r {
                Ok(document) => old(self).documents_value().documents().contains_key(path@)
                    && document == old(self).documents_value().documents()[path@],
                Err(e) => !old(self).documents_value().documents().contains_key(path@)
                    && e.is_not_found(path@),
            },
    {
        self.documents.remove_document(path)
    }

    /// What `init` gives and leaves behind.
    pub open spec fn initialized(
        before: Session,
        request: SandboxRequest,
        outcome: TempDirOutcome,
        mirrored: bool,
        files: Seq<LoadedFile>,
        after: Session,
        r: Result<ProjectDirectory, MakepadAnalyzerError>,
    ) -> bool {
        match outcome {
            TempDirOutcome::TempDirFailed => after == before && r == Err::<
                ProjectDirectory,
                MakepadAnalyzerError,
            >(MakepadAnalyzerError::DirectoryError(DirectoryError::TempDirFailed)),
            TempDirOutcome::CanonicalizeFailed => after == before && r == Err::<
                ProjectDirectory,
                MakepadAnalyzerError,
            >(MakepadAnalyzerError::DirectoryError(DirectoryError::CanonicalizeFailed)),
            TempDirOutcome::Created { canonical_path } => {
                &&& after.workspace_value().directories().contains_key(Directory::Manifest)
                &&& after.workspace_value().directories().contains_key(Directory::Temp)
                &&& after.workspace_value().directories()[Directory::Manifest]
                    == request.manifest_dir@
                &&& text_bytes(after.workspace_value().directories()[Directory::Temp])
                    == crate::paths::joined(
                    text_bytes(canonical_path@),
                    text_bytes(request.project_name@),
                )
                &&& if !mirrored {
                    &&& after.documents_value() == before.documents_value()
                    &&& r == Err::<ProjectDirectory, MakepadAnalyzerError>(
                        MakepadAnalyzerError::DirectoryError(DirectoryError::CopyContentsFailed),
                    )
                } else {
                    match r {
                        Ok(dir) => dir@ == request.manifest_dir@ && files_loaded(
                            before.documents_value().documents(),
                            files,
                            after.documents_value().documents(),
                            Ok(()),
                        ),
                        Err(MakepadAnalyzerError::DocumentError(e)) => files_loaded(
                            before.documents_value().documents(),
                            files,
                            after.documents_value().documents(),
                            Err(e),
                        ),
                        Err(MakepadAnalyzerError::DirectoryError(_)) => false,
                    }
                }
            },
        }
    }

    /// Sets the session up for a project once its sandbox was made. `outcome`
    /// tells how making the temporary directory went, `mirrored` whether the
    /// project was copied into it, and `files` holds the source files of the
    /// copy with what reading them gave. The directories are recorded, then
    /// the files are loaded in order; the first failure ends the call with
    /// its error. On success the directory of the project is returned.
    pub fn init(
        &mut self,
        request: &SandboxRequest,
        outcome: TempDirOutcome,
        mirrored: bool,
        files: &[LoadedFile],
    ) -> (r: Result<ProjectDirectory, MakepadAnalyzerError>)
        requires
            old(self).wf(),
        ensures
            final(self).wf(),
            final(self).active() == old(self).active(),
            Self::initialized(*old(self), *request, outcome, mirrored, files@, *final(self), r),
    {
        match self.workspace.create_temp_dir_from_workspace(request, outcome) {
            Ok(()) => {},
            Err(e) => {
                return Err(MakepadAnalyzerError::DirectoryError(e));
            },
        }
        if !mirrored {
            return Err(MakepadAnalyzerError::DirectoryError(DirectoryError::CopyContentsFailed));
        }
        match self.store_project_files(files) {
            Ok(()) => {},
            Err(e) => {
                return Err(e);
            },
        }
        match self.workspace.manifest_dir() {
            Ok(dir) => Ok(dir),
            Err(e) => Err(MakepadAnalyzerError::DirectoryError(e)),
        }
    }

    /// Loads the source files of the sandbox into the documents, in order.
    /// Nothing is loaded before a sandbox is recorded.
    pub fn store_project_files(&mut self, files: &[LoadedFile]) -> (r: Result<
        (),
        MakepadAnalyzerError,
    >)
        requires
            old(self).wf(),
        ensures
            final(self).wf(),
            final(self).active() == old(self).active(),
            final(self).workspace_value() == old(self).workspace_value(),
            !old(self).workspace_value().directories().contains_key(Directory::Temp)
                ==> final(self).documents_value() == old(self).documents_value() && r == Err::<
                (),
                MakepadAnalyzerError,
            >(MakepadAnalyzerError::DirectoryError(DirectoryError::TempDirNotFound)),
            old(self).workspace_value().directories().contains_key(Directory::Temp) ==> match r {
                Ok(()) => files_loaded(
                    old(self).documents_value().documents(),
                    files@,
                    final(self).documents_value().documents(),
                    Ok(()),
                ),
                Err(MakepadAnalyzerError::DocumentError(e)) => files_loaded(
                    old(self).documents_value().documents(),
                    files@,
                    final(self).documents_value().documents(),
                    Err(e),
                ),
                Err(MakepadAnalyzerError::DirectoryError(_)) => false,
            },
    {
        match self.workspace.temp_dir() {
            Ok(_) => {},
            Err(e) => {
                return Err(MakepadAnalyzerError::DirectoryError(e));
            },
        }
        match self.documents.load_files(files) {
            Ok(()) => Ok(()),
            Err(e) => Err(MakepadAnalyzerError::DocumentError(e)),
        }
    }
}

} // verus!
