//! The manifest of a project: where it lies, and whether it declares the
//! framework.
//!
//! A project is found from a file inside it by walking upward to the first
//! directory that holds a manifest. The library asks nothing of the disk: what
//! exists there is handed to it as plain answers.

use toml::Value;
use vstd::prelude::*;
use vstd::string::*;
use crate::errors::{DocumentError, MakepadAnalyzerError};
use crate::paths::{ancestors, join_path, joined, parent_dir};
use crate::text::{option_text, text_bytes};

verus! {

/// What the manifest says of the project.
#[derive(Clone, Debug, PartialEq)]
pub struct MakepadManifest {
    pub project_name: Option<String>,
    pub widgets_path: Option<String>,
    pub platform_path: Option<String>,
}

/// A manifest and the path of the file that holds it.
#[derive(Clone, Debug, PartialEq)]
pub struct MakepadManifestFile {
    manifest: MakepadManifest,
    path: String,
}

/// A directory to look at, and the manifest that it would hold.
#[derive(Clone, Debug, PartialEq, Eq)]
pub struct ManifestCandidate {
    pub dir: String,
    pub manifest: String,
}

/// What the disk holds at one candidate.
#[derive(Clone, Copy, Debug, PartialEq, Eq, Structural)]
pub struct DirProbe {
    pub dir_exists: bool,
    pub manifest_exists: bool,
}

/// The manifest that was found for a project, and its text where the file
/// could be read.
#[derive(Clone, Debug, PartialEq, Eq)]
pub struct ManifestSource {
    pub path: String,
    pub text: Option<String>,
}

/// The name of the manifest file.
pub open spec fn manifest_file_name() -> Seq<char> {
    "Cargo.toml"@
}

/// The package whose presence among the dependencies makes a project one of
/// the framework's.
pub open spec fn framework_package() -> Seq<char> {
    "makepad-widgets"@
}

/// `toml::Value`, a parsed TOML document or a value inside one. What it holds
/// is known only through the functions below.
#[verifier::external_type_specification]
#[verifier::external_body]
pub struct ExTomlValue(Value);

/// What a TOML value holds, by path. A path is a sequence of table keys; the
/// empty path leads to the value itself, and a path that begins with a key of
/// a table leads on into the value under that key. Each path that leads to a
/// value is mapped to the text of that value where it is a string, and to
/// `None` where it is anything else.
pub uninterp spec fn toml_entries(value: Value) -> Map<Seq<Seq<char>>, Option<Seq<char>>>;

/// What a text holds when it is read as TOML: the entries of the document, or
/// the message with which the text fails to parse.
pub uninterp spec fn toml_document(text: Seq<char>) -> Result<
    Map<Seq<Seq<char>>, Option<Seq<char>>>,
    Seq<char>,
>;

/// The path that leads through `key` and then along `path`.
pub open spec fn below(key: Seq<char>, path: Seq<Seq<char>>) -> Seq<Seq<char>> {
    seq![key] + path
}

/// The path that leads nowhere: it stays at the value itself.
pub open spec fn here() -> Seq<Seq<char>> {
    Seq::empty()
}

/// `toml::from_str` into a `toml::Value`: the document that the text holds,
/// or the text of the error with which it fails to parse.
#[verifier::external_body]
fn toml_parse(text: &str) -> (r: Result<Value, String>)
    ensures
        r matches Ok(value) ==> toml_document(text@) is Ok && toml_document(text@)->Ok_0
            == toml_entries(value) && toml_entries(value).contains_key(here()),
        r matches Err(message) ==> toml_document(text@) is Err && toml_document(text@)->Err_0
            == message@,
{
    toml::from_str::<Value>(text).map_err(|e| e.to_string())
}

/// `toml::Value::get` with a key: the value under `key` where `value` is a
/// table that holds the key. What the value found holds is what `value` holds
/// on the paths through `key`; where none is found, `value` holds nothing on
/// such a path.
#[verifier::external_body]
fn toml_get<'a>(value: &'a Value, key: &str) -> (r: Option<&'a Value>)
    ensures
        r matches Some(inner) ==> toml_entries(*inner).contains_key(here()) && forall|
            path: Seq<Seq<char>>,
        |
            #![trigger toml_entries(*inner).contains_key(path)]
            #![trigger below(key@, path)]
            toml_entries(*inner).contains_key(path) == toml_entries(*value).contains_key(
                below(key@, path),
            ) && (toml_entries(*inner).contains_key(path) ==> toml_entries(*inner)[path]
                == toml_entries(*value)[below(key@, path)]),
        r is None ==> forall|path: Seq<Seq<char>>|
            !toml_entries(*value).contains_key(#[trigger] below(key@, path)),
{
    value.get(key)
}

/// `toml::Value::as_str`: the text of the value where it is a string.
#[verifier::external_body]
fn toml_as_str(value: &Value) -> (r: Option<String>)
    ensures
        option_text(r) == toml_entries(*value)[here()],
{
    value.as_str().map(|s| s.to_string())
}

/// Whether a document declares the framework: among its dependencies, its
/// development dependencies, or the dependencies of its workspace.
pub open spec fn declares_framework(entries: Map<Seq<Seq<char>>, Option<Seq<char>>>) -> bool {
    ||| entries.contains_key(seq!["dependencies"@, framework_package()])
    ||| entries.contains_key(seq!["dev-dependencies"@, framework_package()])
    ||| entries.contains_key(seq!["workspace"@, "dependencies"@, framework_package()])
}

/// The text that a document holds at `path`, where it holds a string there.
pub open spec fn string_at(
    entries: Map<Seq<Seq<char>>, Option<Seq<char>>>,
    path: Seq<Seq<char>>,
) -> Option<Seq<char>> {
    if entries.contains_key(path) {
        entries[path]
    } else {
        None
    }
}

/// The value that `value` holds under `table` and `key` within it.
fn lookup<'a>(value: &'a Value, table: &str, key: &str) -> (r: Option<&'a Value>)
    ensures
        r is Some == toml_entries(*value).contains_key(seq![table@, key@]),
        r matches Some(found) ==> toml_entries(*found).contains_key(here())
            && toml_entries(*found)[here()] == toml_entries(*value)[seq![table@, key@]],
{
    proof {
        assert(below(table@, below(key@, here())) =~= seq![table@, key@]);
    }
    match toml_get(value, table) {
        Some(inner) => match toml_get(inner, key) {
            Some(found) => {
                assert(toml_entries(*inner).contains_key(below(key@, here())));
                Some(found)
            },
            None => {
                assert(!toml_entries(*inner).contains_key(below(key@, here())));
                None
            },
        },
        None => {
            assert(!toml_entries(*value).contains_key(below(table@, below(key@, here()))));
            None
        },
    }
}

/// Whether `value` holds a value under `outer`, `table` within it and `key`
/// within that.
fn has_nested(value: &Value, outer: &str, table: &str, key: &str) -> (r: bool)
    ensures
        r == toml_entries(*value).contains_key(seq![outer@, table@, key@]),
{
    proof {
        assert(below(outer@, seq![table@, key@]) =~= seq![outer@, table@, key@]);
    }
    match toml_get(value, outer) {
        Some(inner) => {
            let found = lookup(inner, table, key);
            assert(toml_entries(*inner).contains_key(seq![table@, key@])
                == toml_entries(*value).contains_key(below(outer@, seq![table@, key@])));
            found.is_some()
        },
        None => {
            assert(!toml_entries(*value).contains_key(below(outer@, seq![table@, key@])));
            false
        },
    }
}

/// The first candidate from `k` on that holds a manifest, as long as every
/// directory up to it exists; `n` is the number of candidates.
pub open spec fn search_from(probes: Seq<DirProbe>, k: int, n: int) -> Option<int>
    decreases n - k,
{
    if k < 0 || k >= n || k >= probes.len() {
        None
    } else if !probes[k].dir_exists {
        None
    } else if probes[k].manifest_exists {
        Some(k)
    } else {
        search_from(probes, k + 1, n)
    }
}

/// The path of the manifest that the search from `start` finds.
pub open spec fn found_manifest(start: Seq<u8>, probes: Seq<DirProbe>) -> Option<Seq<u8>> {
    match search_from(probes, 0, ancestors(start).len() as int) {
        Some(i) => Some(joined(ancestors(start)[i], text_bytes(manifest_file_name()))),
        None => None,
    }
}

/// Whether a candidate names the directory `dir` and the manifest in it.
pub open spec fn candidate_for(candidate: ManifestCandidate, dir: Seq<u8>) -> bool {
    &&& text_bytes(candidate.dir@) == dir
    &&& text_bytes(candidate.manifest@) == joined(dir, text_bytes(manifest_file_name()))
}

/// What `from_dir` gives for a request and what was found for it.
pub open spec fn from_dir_outcome(
    path: Seq<char>,
    located: Option<ManifestSource>,
    r: Result<MakepadManifestFile, MakepadAnalyzerError>,
) -> bool {
    match located {
        None => r matches Err(MakepadAnalyzerError::DocumentError(e)) && e.is_manifest_not_found(
            path,
        ),
        Some(source) => match source.text {
            None => r matches Err(MakepadAnalyzerError::DocumentError(e)) && e.is_io_error(
                source.path@,
                "Parse Cargo.toml failed!"@,
            ),
            Some(text) => match toml_document(text@) {
                Err(message) => r matches Err(MakepadAnalyzerError::DocumentError(e))
                    && e.is_invalid_manifest(message),
                Ok(entries) => if !declares_framework(entries) {
                    r matches Err(MakepadAnalyzerError::DocumentError(e))
                        && e.is_not_makepad_project(path)
                } else {
                    r matches Ok(file) && file.path_text() == source.path@ && option_text(
                        file.manifest_value().project_name,
                    ) == string_at(entries, seq!["package"@, "name"@])
                        && file.manifest_value().widgets_path is None
                        && file.manifest_value().platform_path is None
                },
            },
        },
    }
}

impl MakepadManifestFile {
    /// The path of the manifest file.
    pub closed spec fn path_text(&self) -> Seq<char> {
        self.path@
    }

    /// What the manifest says.
    pub closed spec fn manifest_value(&self) -> MakepadManifest {
        self.manifest
    }

    /// The manifest of the project that `path` belongs to, from what the
    /// search for it found: `located` is the manifest file with its text, or
    /// `None` where the search found none.
    pub fn from_dir(path: &str, located: Option<ManifestSource>) -> (r: Result<
        MakepadManifestFile,
        MakepadAnalyzerError,
    >)
        ensures
            from_dir_outcome(path@, located, r),
    {
        let source = match located {
            Some(source) => source,
            None => {
                return Err(
                    MakepadAnalyzerError::DocumentError(
                        DocumentError::ManifestFileNotFound { dir: path.to_owned() },
                    ),
                );
            },
        };
        let manifest_path = source.path;
        let content = match Self::parse_manifest_file(manifest_path.as_str(), source.text) {
            Ok(content) => content,
            Err(e) => {
                return Err(e);
            },
        };
        let recognized = match Self::is_makepad_project(&content) {
            Ok(recognized) => recognized,
            Err(e) => {
                return Err(e);
            },
        };
        if !recognized {
            return Err(
                MakepadAnalyzerError::DocumentError(
                    DocumentError::NotMakepadProject { path: path.to_owned() },
                ),
            );
        }
        let project_name = match lookup(&content, "package", "name") {
            Some(name) => toml_as_str(name),
            None => None,
        };
        let manifest = MakepadManifest { project_name, widgets_path: None, platform_path: None };
        Ok(MakepadManifestFile { manifest, path: manifest_path })
    }

    /// The path of the manifest file.
    pub fn path(&self) -> (r: &str)
        ensures
            r@ == self.path_text(),
    {
        self.path.as_str()
    }

    /// What the manifest says.
    pub fn manifest(&self) -> (r: &MakepadManifest)
        ensures
            *r == self.manifest_value(),
    {
        &self.manifest
    }

    /// Replaces what the manifest says; its path stays.
    pub fn update(&mut self, manifest: MakepadManifest)
        ensures
            final(self).manifest_value() == manifest,
            final(self).path_text() == old(self).path_text(),
    {
        self.manifest = manifest;
    }

    /// The document that the manifest at `manifest_path` holds, where the file
    /// could be read and its text parses. `text` is the text of the file, or
    /// `None` where it could not be read.
    pub fn parse_manifest_file(manifest_path: &str, text: Option<String>) -> (r: Result<
        Value,
        MakepadAnalyzerError,
    >)
        ensures
            match text {
                None => r matches Err(MakepadAnalyzerError::DocumentError(e)) && e.is_io_error(
                    manifest_path@,
                    "Parse Cargo.toml failed!"@,
                ),
                Some(text) => match toml_document(text@) {
                    Err(message) => r matches Err(MakepadAnalyzerError::DocumentError(e))
                        && e.is_invalid_manifest(message),
                    Ok(entries) => r matches Ok(content) && toml_entries(content) == entries,
                },
            },
    {
        let text = match text {
            Some(text) => text,
            None => {
                return Err(
                    MakepadAnalyzerError::DocumentError(
                        DocumentError::IOError {
                            path: manifest_path.to_owned(),
                            error: "Parse Cargo.toml failed!".to_owned(),
                        },
                    ),
                );
            },
        };
        match toml_parse(text.as_str()) {
            Ok(content) => Ok(content),
            Err(err) => Err(
                MakepadAnalyzerError::DocumentError(DocumentError::InvalidManifestFormat { err }),
            ),
        }
    }

    /// The directories to look at when searching upward from `start_dir`,
    /// innermost first, each with the manifest that it would hold.
    pub fn manifest_candidates(start_dir: &str) -> (r: Vec<ManifestCandidate>)
        ensures
            r@.len() == ancestors(start_dir.spec_bytes()).len(),
            forall|i: int|
                0 <= i < r@.len() ==> candidate_for(
                    #[trigger] r@[i],
                    ancestors(start_dir.spec_bytes())[i],
                ),
    {
        let mut out: Vec<ManifestCandidate> = Vec::new();
        let mut current: &str = start_dir;
        let ghost all = ancestors(start_dir.spec_bytes());
        assert(all.skip(0) =~= all);
        loop
            invariant_except_break
                out@.len() < all.len(),
                all.skip(out@.len() as int) == ancestors(current.spec_bytes()),
            invariant
                all == ancestors(start_dir.spec_bytes()),
                out@.len() <= all.len(),
                forall|i: int| 0 <= i < out@.len() ==> candidate_for(#[trigger] out@[i], all[i]),
            ensures
                out@.len() == all.len(),
            decreases current.spec_bytes().len(),
        {
            let ghost k = out@.len() as int;
            assert(all[k] == all.skip(k)[0]);
            out.push(
                ManifestCandidate {
                    dir: current.to_owned(),
                    manifest: join_path(current, "Cargo.toml"),
                },
            );
            match parent_dir(current) {
                Some(parent) => {
                    assert(all.skip(k + 1) =~= all.skip(k).skip(1));
                    assert(ancestors(current.spec_bytes()).skip(1) =~= ancestors(
                        parent.spec_bytes(),
                    ));
                    current = parent;
                },
                None => {
                    break ;
                },
            }
        }
        out
    }

    /// The manifest that the search upward from `start_dir` finds. `probes`
    /// tells, for each candidate in order, what the disk holds there. The
    /// search ends at the first directory that holds a manifest, and finds
    /// nothing once a directory does not exist.
    pub fn find_manifest_file(start_dir: &str, probes: &[DirProbe]) -> (r: Option<String>)
        ensures
            match found_manifest(start_dir.spec_bytes(), probes@) {
                Some(path) => r matches Some(p) && text_bytes(p@) == path,
                None => r is None,
            },
    {
        let mut candidates = Self::manifest_candidates(start_dir);
        let n = candidates.len();
        let mut k: usize = 0;
        while k < n && k < probes.len()
            invariant
                k <= n,
                n == candidates@.len(),
                n == ancestors(start_dir.spec_bytes()).len(),
                forall|i: int|
                    0 <= i < n ==> candidate_for(
                        #[trigger] candidates@[i],
                        ancestors(start_dir.spec_bytes())[i],
                    ),
                search_from(probes@, 0, n as int) == search_from(probes@, k as int, n as int),
            decreases n - k,
        {
            let probe = probes[k];
            if !probe.dir_exists {
                return None;
            }
            if probe.manifest_exists {
                let found = candidates.swap_remove(k);
                return Some(found.manifest);
            }
            k = k + 1;
        }
        None
    }

    /// Whether the manifest with this content declares the framework.
    pub fn is_makepad_project(cargo_toml_content: &Value) -> (r: Result<
        bool,
        MakepadAnalyzerError,
    >)
        ensures
            r == Ok::<bool, MakepadAnalyzerError>(
                declares_framework(toml_entries(*cargo_toml_content)),
            ),
    {
        let declared = lookup(cargo_toml_content, "dependencies", "makepad-widgets").is_some()
            || lookup(cargo_toml_content, "dev-dependencies", "makepad-widgets").is_some()
            || has_nested(cargo_toml_content, "workspace", "dependencies", "makepad-widgets");
        Ok(declared)
    }
}

} // verus!
