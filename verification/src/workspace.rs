//! A project tree and its sandbox copy.
//!
//! A workspace records two directories: the one that holds the project's
//! manifest, and the temporary one that mirrors it. Paths are moved between
//! the two trees, and the copy of a directory is planned here; the copying
//! itself is left to the caller.

use dashmap::DashMap;
use url::Url;
use vstd::prelude::*;
use vstd::string::*;
use crate::errors::{DirectoryError, MakepadAnalyzerError};
use crate::manifest::MakepadManifestFile;
use crate::paths::{is_under, join_path, joined, parent_dir, parent_len, translate_path, translated};
use crate::text::{starts_with, text_bytes};

verus! {

/// The two directories of a workspace.
#[derive(Debug, Clone, Copy, PartialEq, Eq, Hash, Structural)]
pub enum Directory {
    /// The root directory of the project.
    Manifest,
    /// The root of the sandbox copy.
    Temp,
}

/// The directories that a map records, each as the text of its path.
pub uninterp spec fn recorded_directories(table: DashMap<Directory, String>) -> Map<
    Directory,
    Seq<char>,
>;

/// `DashMap::new`: the map it makes holds nothing.
#[verifier::external_body]
fn directory_map_new() -> (r: DashMap<Directory, String>)
    ensures
        recorded_directories(r) == (Map::<Directory, Seq<char>>::empty()),
{
    DashMap::new()
}

/// `DashMap::insert`: the map then holds `value` under `key` and is otherwise
/// unchanged.
#[verifier::external_body]
fn directory_map_insert(table: &mut DashMap<Directory, String>, key: Directory, value: String)
    ensures
        recorded_directories(*final(table)) == recorded_directories(*old(table)).insert(key, value@),
{
    table.insert(key, value);
}

/// `DashMap::try_get`: a copy of the value under `key`, if the map holds one.
/// No entry of the map is locked while a caller holds the map itself by
/// reference, so the lookup is never refused.
#[verifier::external_body]
fn directory_map_get(table: &DashMap<Directory, String>, key: Directory) -> (r: Option<String>)
    ensures
        r is Some == recorded_directories(*table).contains_key(key),
        r matches Some(path) ==> path@ == recorded_directories(*table)[key],
{
    table.try_get(&key).try_unwrap().map(|entry| entry.value().clone())
}

/// Whether a URL is written in the `file` scheme: its text begins with
/// `file://`.
pub open spec fn is_file_url(url: Seq<char>) -> bool {
    starts_with(text_bytes(url), text_bytes("file://"@))
}

/// `Url::from_file_path`: the URL of an absolute path, as text; `None` where
/// the path has none. A URL that is made is in the `file` scheme. Which paths
/// are absolute, and how the rest of the URL is written, depends on the
/// platform, so no more is stated.
#[verifier::external_body]
fn file_url_of_path(path: &str) -> (r: Option<String>)
    ensures
        r matches Some(url) ==> is_file_url(url@),
{
    Url::from_file_path(path).ok().map(|url| url.into())
}

/// `Url::to_file_path`: the path that a `file` URL names, as text; `None`
/// where the text is no URL or names no file. How a URL maps to a path depends
/// on the platform, so nothing is stated of the result. That `Url::parse`
/// returns for every text, and never panics, is taken on trust.
#[verifier::external_body]
fn file_path_of_url(url: &str) -> (r: Option<String>)
{
    Url::parse(url).ok()?.to_file_path().ok()?.into_os_string().into_string().ok()
}

/// Whether `r` is what making a URL of `path` can give: a URL in the `file`
/// scheme, or the failure to make a URL of this path.
pub open spec fn is_url_outcome(r: Result<String, DirectoryError>, path: Seq<u8>) -> bool {
    match r {
        Ok(url) => is_file_url(url@),
        Err(e) => e matches DirectoryError::UrlFromPathFailed { path: p } && text_bytes(p@)
            == path,
    }
}

/// The URL that was made of `path`, or the failure to make one.
pub fn url_or_error(path: &str, url: Option<String>) -> (r: Result<String, DirectoryError>)
    ensures
        match url {
            Some(url) => r == Ok::<String, DirectoryError>(url),
            None => r matches Err(DirectoryError::UrlFromPathFailed { path: p }) && p@ == path@,
        },
{
    match url {
        Some(url) => Ok(url),
        None => Err(DirectoryError::UrlFromPathFailed { path: path.to_owned() }),
    }
}

/// The path that was made of `url`, or the failure to make one.
pub fn path_or_error(url: &str, path: Option<String>) -> (r: Result<String, DirectoryError>)
    ensures
        match path {
            Some(path) => r == Ok::<String, DirectoryError>(path),
            None => r matches Err(DirectoryError::PathFromUrlFailed { url: u }) && u@ == url@,
        },
{
    match path {
        Some(path) => Ok(path),
        None => Err(DirectoryError::PathFromUrlFailed { url: url.to_owned() }),
    }
}

/// The `file` URL of a path: a URL in the `file` scheme, or the failure to
/// make one of this path.
pub fn get_url_from_path(path: &str) -> (r: Result<String, DirectoryError>)
    ensures
        r matches Ok(url) ==> is_file_url(url@),
        r matches Err(e) ==> e matches DirectoryError::UrlFromPathFailed { path: p } && p@
            == path@,
{
    url_or_error(path, file_url_of_path(path))
}

/// The path that a `file` URL names.
pub fn get_path_from_url(url: &str) -> (r: Result<String, DirectoryError>)
    ensures
        r matches Err(e) ==> e matches DirectoryError::PathFromUrlFailed { url: u } && u@ == url@,
{
    path_or_error(url, file_path_of_url(url))
}

/// The error for a directory that is not recorded.
pub open spec fn missing(dir: Directory) -> DirectoryError {
    match dir {
        Directory::Manifest => DirectoryError::ManifestDirNotFound,
        Directory::Temp => DirectoryError::TempDirNotFound,
    }
}

/// What moving `path` from the tree under `from` to the tree under `to`
/// gives. The destination is looked up first.
pub open spec fn translation(
    dirs: Map<Directory, Seq<char>>,
    path: Seq<u8>,
    from: Directory,
    to: Directory,
) -> Result<Seq<u8>, DirectoryError> {
    if !dirs.contains_key(to) {
        Err(missing(to))
    } else if !dirs.contains_key(from) {
        Err(missing(from))
    } else if !is_under(path, text_bytes(dirs[from])) {
        Err(DirectoryError::StripPrefixError)
    } else {
        Ok(translated(path, text_bytes(dirs[from]), text_bytes(dirs[to])))
    }
}

/// Whether `r` is the path or the error that `expected` names.
pub open spec fn is_translation(r: Result<String, DirectoryError>, expected: Result<
    Seq<u8>,
    DirectoryError,
>) -> bool {
    match expected {
        Ok(path) => r matches Ok(p) && text_bytes(p@) == path,
        Err(e) => r == Err::<String, DirectoryError>(e),
    }
}

/// What is needed to make the sandbox of a project.
#[derive(Debug, Clone, PartialEq, Eq)]
pub struct SandboxRequest {
    pub manifest_dir: String,
    pub project_name: String,
}

/// How making the temporary directory went.
#[derive(Debug, Clone, PartialEq, Eq)]
pub enum TempDirOutcome {
    /// The directory exists; this is its canonical path.
    Created { canonical_path: String },
    /// The directory could not be made.
    TempDirFailed,
    /// The directory was made, but its canonical path could not be had.
    CanonicalizeFailed,
}

/// The directories of one project and of its sandbox copy.
#[derive(Debug, Clone)]
pub struct SyncWorkspace {
    directories: DashMap<Directory, String>,
}

impl SyncWorkspace {
    /// The directories recorded, each as the text of its path.
    pub closed spec fn directories(&self) -> Map<Directory, Seq<char>> {
        recorded_directories(self.directories)
    }

    /// A workspace with no directory recorded.
    pub fn new() -> (r: SyncWorkspace)
        ensures
            r.directories() == Map::<Directory, Seq<char>>::empty(),
    {
        SyncWorkspace { directories: directory_map_new() }
    }

    /// What to make a sandbox of, from the manifest that was found for
    /// `requested_dir`: the directory that holds the manifest, and the name of
    /// the project.
    pub fn sandbox_request(
        requested_dir: &str,
        manifest: Result<MakepadManifestFile, MakepadAnalyzerError>,
    ) -> (r: Result<SandboxRequest, MakepadAnalyzerError>)
        ensures
            match manifest {
                Err(e) => r == Err::<SandboxRequest, MakepadAnalyzerError>(e),
                Ok(file) => if parent_len(text_bytes(file.path_text())) < 0 {
                    r == Err::<SandboxRequest, MakepadAnalyzerError>(
                        MakepadAnalyzerError::DirectoryError(DirectoryError::ManifestDirNotFound),
                    )
                } else {
                    let dir = text_bytes(file.path_text()).subrange(
                        0,
                        parent_len(text_bytes(file.path_text())),
                    );
                    match file.manifest_value().project_name {
                        None => r matches Err(
                            MakepadAnalyzerError::DirectoryError(
                                DirectoryError::CantExtractProjectName { dir: d },
                            ),
                        ) && text_bytes(d@) == dir,
                        Some(name) => r matches Ok(request) && text_bytes(request.manifest_dir@)
                            == dir && request.project_name@ == name@,
                    }
                },
            },
    {
        let file = match manifest {
            Ok(file) => file,
            Err(e) => {
                return Err(e);
            },
        };
        let manifest_dir = match parent_dir(file.path()) {
            Some(dir) => dir.to_owned(),
            None => {
                return Err(
                    MakepadAnalyzerError::DirectoryError(DirectoryError::ManifestDirNotFound),
                );
            },
        };
        match &file.manifest().project_name {
            Some(name) => Ok(SandboxRequest { manifest_dir, project_name: name.clone() }),
            None => Err(
                MakepadAnalyzerError::DirectoryError(
                    DirectoryError::CantExtractProjectName { dir: manifest_dir },
                ),
            ),
        }
    }

    /// The root of the sandbox of a project: its name under the canonical
    /// path of the temporary directory.
    pub fn sandbox_path(canonical_path: &str, project_name: &str) -> (r: String)
        ensures
            text_bytes(r@) == joined(canonical_path.spec_bytes(), project_name.spec_bytes()),
    {
        join_path(canonical_path, project_name)
    }

    /// Records the directories of a sandbox that was made: the project's
    /// directory, and the project's name under the canonical path of the
    /// temporary directory. Where the directory could not be made, nothing is
    /// recorded.
    pub fn create_temp_dir_from_workspace(
        &mut self,
        request: &SandboxRequest,
        outcome: TempDirOutcome,
    ) -> (r: Result<(), DirectoryError>)
        ensures
            match outcome {
                TempDirOutcome::TempDirFailed => r == Err::<(), DirectoryError>(
                    DirectoryError::TempDirFailed,
                ) && *final(self) == *old(self),
                TempDirOutcome::CanonicalizeFailed => r == Err::<(), DirectoryError>(
                    DirectoryError::CanonicalizeFailed,
                ) && *final(self) == *old(self),
                TempDirOutcome::Created { canonical_path } => {
                    &&& r is Ok
                    &&& final(self).directories().dom() == old(self).directories().dom().insert(
                        Directory::Manifest,
                    ).insert(Directory::Temp)
                    &&& final(self).directories()[Directory::Manifest] == request.manifest_dir@
                    &&& text_bytes(final(self).directories()[Directory::Temp]) == joined(
                        text_bytes(canonical_path@),
                        text_bytes(request.project_name@),
                    )
                },
            },
    {
        match outcome {
            TempDirOutcome::TempDirFailed => Err(DirectoryError::TempDirFailed),
            TempDirOutcome::CanonicalizeFailed => Err(DirectoryError::CanonicalizeFailed),
            TempDirOutcome::Created { canonical_path } => {
                let temp_path = Self::sandbox_path(
                    canonical_path.as_str(),
                    request.project_name.as_str(),
                );
                directory_map_insert(
                    &mut self.directories,
                    Directory::Manifest,
                    request.manifest_dir.clone(),
                );
                directory_map_insert(&mut self.directories, Directory::Temp, temp_path);
                assert(self.directories().dom() =~= old(self).directories().dom().insert(
                    Directory::Manifest,
                ).insert(Directory::Temp));
                Ok(())
            },
        }
    }

    /// The two roots between which the project is mirrored: the project's
    /// directory and the sandbox, in this order.
    pub fn clone_manifest_dir_to_temp(&self) -> (r: Result<(String, String), DirectoryError>)
        ensures
            match r {
                Ok(roots) => self.directories().contains_key(Directory::Manifest)
                    && self.directories().contains_key(Directory::Temp) && roots.0@
                    == self.directories()[Directory::Manifest] && roots.1@
                    == self.directories()[Directory::Temp],
                Err(e) => if !self.directories().contains_key(Directory::Manifest) {
                    e == DirectoryError::ManifestDirNotFound
                } else {
                    !self.directories().contains_key(Directory::Temp) && e
                        == DirectoryError::TempDirNotFound
                },
            },
    {
        let from = match self.manifest_dir() {
            Ok(dir) => dir,
            Err(e) => {
                return Err(e);
            },
        };
        let to = match self.temp_dir() {
            Ok(dir) => dir,
            Err(e) => {
                return Err(e);
            },
        };
        Ok((from, to))
    }

    /// The path in the sandbox that stands for `path` in the project.
    pub fn workspace_to_temp_path(&self, path: &str) -> (r: Result<String, DirectoryError>)
        ensures
            is_translation(
                r,
                translation(
                    self.directories(),
                    path.spec_bytes(),
                    Directory::Manifest,
                    Directory::Temp,
                ),
            ),
    {
        let to = match self.temp_dir() {
            Ok(dir) => dir,
            Err(e) => {
                return Err(e);
            },
        };
        let from = match self.manifest_dir() {
            Ok(dir) => dir,
            Err(e) => {
                return Err(e);
            },
        };
        convert_path(path, to.as_str(), from.as_str())
    }

    /// The path in the project that `path` in the sandbox stands for.
    pub fn temp_to_workspace_path(&self, path: &str) -> (r: Result<String, DirectoryError>)
        ensures
            is_translation(
                r,
                translation(
                    self.directories(),
                    path.spec_bytes(),
                    Directory::Temp,
                    Directory::Manifest,
                ),
            ),
    {
        let to = match self.manifest_dir() {
            Ok(dir) => dir,
            Err(e) => {
                return Err(e);
            },
        };
        let from = match self.temp_dir() {
            Ok(dir) => dir,
            Err(e) => {
                return Err(e);
            },
        };
        convert_path(path, to.as_str(), from.as_str())
    }

    /// The URL of the file in the sandbox that stands for the file at `path`
    /// in the project: a URL in the `file` scheme, made of the path in the
    /// sandbox. `path` is the path of the file's URL.
    pub fn workspace_to_temp_url(&self, path: &str) -> (r: Result<String, DirectoryError>)
        ensures
            match translation(
                self.directories(),
                path.spec_bytes(),
                Directory::Manifest,
                Directory::Temp,
            ) {
                Err(e) => r == Err::<String, DirectoryError>(e),
                Ok(moved) => is_url_outcome(r, moved),
            },
    {
        match self.workspace_to_temp_path(path) {
            Ok(moved) => get_url_from_path(moved.as_str()),
            Err(e) => Err(e),
        }
    }

    /// The URL of the file in the project that the file at `path` in the
    /// sandbox stands for: a URL in the `file` scheme, made of the path in the
    /// project. `path` is the path of the file's URL.
    pub fn temp_to_workspace_url(&self, path: &str) -> (r: Result<String, DirectoryError>)
        ensures
            match translation(
                self.directories(),
                path.spec_bytes(),
                Directory::Temp,
                Directory::Manifest,
            ) {
                Err(e) => r == Err::<String, DirectoryError>(e),
                Ok(moved) => is_url_outcome(r, moved),
            },
    {
        match self.temp_to_workspace_path(path) {
            Ok(moved) => get_url_from_path(moved.as_str()),
            Err(e) => Err(e),
        }
    }

    /// The manifest of the sandbox copy.
    pub fn temp_manifest_path(&self) -> (r: Option<String>)
        ensures
            r is Some == self.directories().contains_key(Directory::Temp),
            r matches Some(path) ==> text_bytes(path@) == joined(
                text_bytes(self.directories()[Directory::Temp]),
                text_bytes("Cargo.toml"@),
            ),
    {
        match self.temp_dir() {
            Ok(dir) => Some(join_path(dir.as_str(), "Cargo.toml")),
            Err(_) => None,
        }
    }

    /// The manifest of the project.
    pub fn manifest_path(&self) -> (r: Option<String>)
        ensures
            r is Some == self.directories().contains_key(Directory::Manifest),
            r matches Some(path) ==> text_bytes(path@) == joined(
                text_bytes(self.directories()[Directory::Manifest]),
                text_bytes("Cargo.toml"@),
            ),
    {
        match self.manifest_dir() {
            Ok(dir) => Some(join_path(dir.as_str(), "Cargo.toml")),
            Err(_) => None,
        }
    }

    /// The directory that holds the project's manifest.
    pub fn manifest_dir(&self) -> (r: Result<String, DirectoryError>)
        ensures
            match r {
                Ok(dir) => self.directories().contains_key(Directory::Manifest) && dir@
                    == self.directories()[Directory::Manifest],
                Err(e) => !self.directories().contains_key(Directory::Manifest) && e
                    == DirectoryError::ManifestDirNotFound,
            },
    {
        match directory_map_get(&self.directories, Directory::Manifest) {
            Some(dir) => Ok(dir),
            None => Err(DirectoryError::ManifestDirNotFound),
        }
    }

    /// The root of the sandbox copy.
    pub fn temp_dir(&self) -> (r: Result<String, DirectoryError>)
        ensures
            match r {
                Ok(dir) => self.directories().contains_key(Directory::Temp) && dir@
                    == self.directories()[Directory::Temp],
                Err(e) => !self.directories().contains_key(Directory::Temp) && e
                    == DirectoryError::TempDirNotFound,
            },
    {
        match directory_map_get(&self.directories, Directory::Temp) {
            Some(dir) => Ok(dir),
            None => Err(DirectoryError::TempDirNotFound),
        }
    }
}

/// `path` moved from under `from` to the same place under `to`.
pub fn convert_path(path: &str, to: &str, from: &str) -> (r: Result<String, DirectoryError>)
    ensures
        match r {
            Ok(moved) => is_under(path.spec_bytes(), from.spec_bytes()) && text_bytes(moved@)
                == translated(path.spec_bytes(), from.spec_bytes(), to.spec_bytes()),
            Err(e) => !is_under(path.spec_bytes(), from.spec_bytes()) && e
                == DirectoryError::StripPrefixError,
        },
{
    match translate_path(path, from, to) {
        Some(moved) => Ok(moved),
        None => Err(DirectoryError::StripPrefixError),
    }
}

/// The URL of `path` moved from under `from` to the same place under `to`: a
/// URL in the `file` scheme, made of the moved path.
pub fn convert_url(path: &str, to: &str, from: &str) -> (r: Result<String, DirectoryError>)
    ensures
        !is_under(path.spec_bytes(), from.spec_bytes()) ==> r == Err::<String, DirectoryError>(
            DirectoryError::StripPrefixError,
        ),
        is_under(path.spec_bytes(), from.spec_bytes()) ==> is_url_outcome(
            r,
            translated(path.spec_bytes(), from.spec_bytes(), to.spec_bytes()),
        ),
{
    match convert_path(path, to, from) {
        Ok(moved) => get_url_from_path(moved.as_str()),
        Err(e) => Err(e),
    }
}

/// A path under the project's directory, moved to the sandbox and back, is
/// the path it was; a path that lies under neither root is refused.
pub proof fn lemma_translation_round_trip(dirs: Map<Directory, Seq<char>>, path: Seq<u8>)
    requires
        dirs.contains_key(Directory::Manifest),
        dirs.contains_key(Directory::Temp),
    ensures
        is_under(path, text_bytes(dirs[Directory::Manifest])) ==> translation(
            dirs,
            path,
            Directory::Manifest,
            Directory::Temp,
        ) is Ok && translation(
            dirs,
            translation(dirs, path, Directory::Manifest, Directory::Temp)->Ok_0,
            Directory::Temp,
            Directory::Manifest,
        ) == Ok::<Seq<u8>, DirectoryError>(path),
        !is_under(path, text_bytes(dirs[Directory::Manifest])) ==> translation(
            dirs,
            path,
            Directory::Manifest,
            Directory::Temp,
        ) == Err::<Seq<u8>, DirectoryError>(DirectoryError::StripPrefixError),
{
    if is_under(path, text_bytes(dirs[Directory::Manifest])) {
        crate::paths::lemma_translate_round_trip(
            path,
            text_bytes(dirs[Directory::Manifest]),
            text_bytes(dirs[Directory::Temp]),
        );
    }
}

} // verus!
