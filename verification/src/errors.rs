//! The typed failures of the library.

use vstd::prelude::*;
use crate::document::Range;

verus! {

/// A failure that concerns one document or one manifest.
#[derive(Debug, Clone, PartialEq, Eq)]
pub enum DocumentError {
    DocumentNotFound { path: String },
    ManifestFileNotFound { dir: String },
    InvalidManifestFormat { err: String },
    NotMakepadProject { path: String },
    DocumentAlreadyStored { path: String },
    UnableToCreateFile { path: String, err: String },
    UnableToWriteFile { path: String, err: String },
    UnableToRemoveFile { path: String, err: String },
    InvalidPath { path: String },
    PermissionDenied { path: String },
    IOError { path: String, error: String },
    InvalidRange { range: Range },
}

impl DocumentError {
    /// The error says that no document is held at `path`.
    pub open spec fn is_not_found(self, path: Seq<char>) -> bool {
        self matches DocumentError::DocumentNotFound { path: p } && p@ == path
    }

    /// The error says that a document was already held at `path`.
    pub open spec fn is_already_stored(self, path: Seq<char>) -> bool {
        self matches DocumentError::DocumentAlreadyStored { path: p } && p@ == path
    }

    /// The error says that reading `path` was not permitted.
    pub open spec fn is_permission_denied(self, path: Seq<char>) -> bool {
        self matches DocumentError::PermissionDenied { path: p } && p@ == path
    }

    /// The error says that reading `path` failed for the reason `detail`.
    pub open spec fn is_io_error(self, path: Seq<char>, detail: Seq<char>) -> bool {
        self matches DocumentError::IOError { path: p, error } && p@ == path && error@ == detail
    }

    /// The error says that no manifest was found from `dir` upward.
    pub open spec fn is_manifest_not_found(self, dir: Seq<char>) -> bool {
        self matches DocumentError::ManifestFileNotFound { dir: d } && d@ == dir
    }

    /// The error says that the manifest could not be parsed, for the reason
    /// `detail`.
    pub open spec fn is_invalid_manifest(self, detail: Seq<char>) -> bool {
        self matches DocumentError::InvalidManifestFormat { err } && err@ == detail
    }

    /// The error says that the project at `path` does not use the framework.
    pub open spec fn is_not_makepad_project(self, path: Seq<char>) -> bool {
        self matches DocumentError::NotMakepadProject { path: p } && p@ == path
    }
}

/// A failure that concerns the project tree or its sandbox copy.
#[derive(Debug, Clone, PartialEq, Eq)]
pub enum DirectoryError {
    TempDirNotFound,
    ManifestDirNotFound,
    CantExtractProjectName { dir: String },
    LspLocksDirFailed(String),
    TempDirFailed,
    CanonicalizeFailed,
    CopyContentsFailed,
    StripPrefixError,
    UrlFromPathFailed { path: String },
    UrlFromSpanFailed { span: String },
    PathFromUrlFailed { url: String },
    SpanFromPathFailed { path: String },
    ProgramIdNotFound { path: String },
}

/// Any failure of the library.
#[derive(Debug, Clone, PartialEq, Eq)]
pub enum MakepadAnalyzerError {
    DocumentError(DocumentError),
    DirectoryError(DirectoryError),
}

impl From<DocumentError> for MakepadAnalyzerError {
    fn from(e: DocumentError) -> (r: MakepadAnalyzerError)
    {
        MakepadAnalyzerError::DocumentError(e)
    }
}

impl vstd::std_specs::convert::FromSpecImpl<DocumentError> for MakepadAnalyzerError {
    open spec fn obeys_from_spec() -> bool {
        true
    }

    open spec fn from_spec(e: DocumentError) -> MakepadAnalyzerError {
        MakepadAnalyzerError::DocumentError(e)
    }
}

impl From<DirectoryError> for MakepadAnalyzerError {
    fn from(e: DirectoryError) -> (r: MakepadAnalyzerError)
    {
        MakepadAnalyzerError::DirectoryError(e)
    }
}

impl vstd::std_specs::convert::FromSpecImpl<DirectoryError> for MakepadAnalyzerError {
    open spec fn obeys_from_spec() -> bool {
        true
    }

    open spec fn from_spec(e: DirectoryError) -> MakepadAnalyzerError {
        MakepadAnalyzerError::DirectoryError(e)
    }
}

} // verus!
