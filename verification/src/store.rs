//! The documents of one project, kept by the path under which each was opened.

use dashmap::DashMap;
use std::hash::Hash;
use vstd::prelude::*;
use crate::document::{batch_result, ContentChange, Document, ReadFailure};
use crate::errors::DocumentError;

verus! {

/// `dashmap::DashMap`, a map that is held as a whole: what it holds is known
/// only through the functions below.
#[verifier::external_type_specification]
#[verifier::external_body]
#[verifier::reject_recursive_types(K)]
#[verifier::reject_recursive_types(V)]
#[verifier::reject_recursive_types(S)]
pub struct ExDashMap<K, V, S>(DashMap<K, V, S>);

/// `DashMap::clone`: a map of its own. Nothing is stated of what it holds.
pub assume_specification<K: Eq + Hash + Clone, V: Clone, S: Clone>[ <DashMap<K, V, S> as Clone>::clone ](
    table: &DashMap<K, V, S>,
) -> (r: DashMap<K, V, S>)
;

/// The documents that a map holds, each under the text of its key.
pub uninterp spec fn stored_documents(table: DashMap<String, Document>) -> Map<Seq<char>, Document>;

/// `DashMap::new`: the map it makes holds nothing.
#[verifier::external_body]
fn document_map_new() -> (r: DashMap<String, Document>)
    ensures
        stored_documents(r) == (Map::<Seq<char>, Document>::empty()),
{
    DashMap::new()
}

/// `DashMap::contains_key`: whether the map holds an entry under `key`.
#[verifier::external_body]
fn document_map_contains(table: &DashMap<String, Document>, key: &str) -> (r: bool)
    ensures
        r == stored_documents(*table).contains_key(key@),
{
    table.contains_key(key)
}

/// `DashMap::insert`: the map then holds `value` under `key` and is otherwise
/// unchanged; the value that was under `key` before, if any, is returned.
#[verifier::external_body]
fn document_map_insert(table: &mut DashMap<String, Document>, key: String, value: Document) -> (r:
    Option<Document>)
    ensures
        stored_documents(*final(table)) == stored_documents(*old(table)).insert(key@, value),
        r == if stored_documents(*old(table)).contains_key(key@) {
            Some(stored_documents(*old(table))[key@])
        } else {
            None::<Document>
        },
{
    table.insert(key, value)
}

/// `DashMap::remove`: the map no longer holds an entry under `key` and is
/// otherwise unchanged; the value that was under `key`, if any, is returned.
#[verifier::external_body]
fn document_map_remove(table: &mut DashMap<String, Document>, key: &str) -> (r: Option<Document>)
    ensures
        stored_documents(*final(table)) == stored_documents(*old(table)).remove(key@),
        r == if stored_documents(*old(table)).contains_key(key@) {
            Some(stored_documents(*old(table))[key@])
        } else {
            None::<Document>
        },
{
    table.remove(key).map(|entry| entry.1)
}

/// `DashMap::try_get`: a copy of the value under `key`, if the map holds one.
/// No entry of the map is locked while a caller holds the map itself by
/// reference, so the lookup is never refused.
#[verifier::external_body]
fn document_map_get(table: &DashMap<String, Document>, key: &str) -> (r: Option<Document>)
    ensures
        r == if stored_documents(*table).contains_key(key@) {
            Some(stored_documents(*table)[key@])
        } else {
            None::<Document>
        },
{
    table.try_get(key).try_unwrap().map(|entry| entry.value().clone())
}

/// A file of a project with what reading it gave.
#[derive(Debug, PartialEq, Eq)]
pub struct LoadedFile {
    pub path: String,
    pub read: Result<String, ReadFailure>,
}

/// Whether `e` is the error for the failure to read the file at `path`.
pub open spec fn is_read_error(e: DocumentError, path: Seq<char>, failure: ReadFailure) -> bool {
    match failure {
        ReadFailure::NotFound => e.is_not_found(path),
        ReadFailure::PermissionDenied => e.is_permission_denied(path),
        ReadFailure::Other { detail } => e.is_io_error(path, detail@),
    }
}

/// Whether a file cannot be added to a store that holds documents under the
/// paths `held`: it could not be read, or its path is taken.
pub open spec fn load_fails(held: Set<Seq<char>>, file: LoadedFile) -> bool {
    file.read is Err || held.contains(file.path@)
}

/// How many of `files`, taken in order, are added to a store that holds
/// documents under the paths `held` before one cannot be added.
pub open spec fn loaded_count(held: Set<Seq<char>>, files: Seq<LoadedFile>) -> nat
    decreases files.len(),
{
    if files.len() == 0 || load_fails(held, files[0]) {
        0
    } else {
        1 + loaded_count(held.insert(files[0].path@), files.drop_first())
    }
}

/// The paths of files.
pub open spec fn file_paths(files: Seq<LoadedFile>) -> Seq<Seq<char>> {
    files.map_values(|file: LoadedFile| file.path@)
}

/// No more files are added than there are.
pub proof fn lemma_loaded_count_bounded(held: Set<Seq<char>>, files: Seq<LoadedFile>)
    ensures
        loaded_count(held, files) <= files.len(),
    decreases files.len(),
{
    if files.len() > 0 && !load_fails(held, files[0]) {
        lemma_loaded_count_bounded(held.insert(files[0].path@), files.drop_first());
    }
}

/// What adding `files` in order makes of the documents `before`: the files
/// that could be added stand in `after` at version 1, each under its path,
/// and the documents held before are as they were. Where a file could not be
/// added, `r` is its error, and neither that file nor the files after it are
/// added.
pub open spec fn files_loaded(
    before: Map<Seq<char>, Document>,
    files: Seq<LoadedFile>,
    after: Map<Seq<char>, Document>,
    r: Result<(), DocumentError>,
) -> bool {
    let k = loaded_count(before.dom(), files) as int;
    &&& k <= files.len()
    &&& r is Ok <==> k == files.len()
    &&& forall|key: Seq<char>| #[trigger]
        after.contains_key(key) <==> before.contains_key(key) || file_paths(files).take(
            k,
        ).contains(key)
    &&& forall|i: int|
        0 <= i < k ==> (#[trigger] files[i]).read is Ok && after[files[i].path@].text()
            == files[i].read->Ok_0@ && after[files[i].path@].version_number() == 1
    &&& forall|key: Seq<char>| #[trigger]
        before.contains_key(key) ==> after[key] == before[key]
    &&& k < files.len() ==> (r matches Err(e) && match files[k].read {
        Ok(_) => e.is_already_stored(files[k].path@),
        Err(failure) => is_read_error(e, files[k].path@, failure),
    })
}

/// What reading a file gave, once more.
fn copy_read(read: &Result<String, ReadFailure>) -> (r: Result<String, ReadFailure>)
    ensures
        r == *read,
{
    match read {
        Ok(text) => Ok(text.clone()),
        Err(ReadFailure::NotFound) => Err(ReadFailure::NotFound),
        Err(ReadFailure::PermissionDenied) => Err(ReadFailure::PermissionDenied),
        Err(ReadFailure::Other { detail }) => Err(ReadFailure::Other { detail: detail.clone() }),
    }
}

/// The open documents of one project.
#[derive(Debug, Clone)]
pub struct Documents {
    map: DashMap<String, Document>,
}

impl Default for Documents {
    /// A store that holds nothing.
    fn default() -> (store: Documents)
        ensures
            store.wf(),
            store.documents() == Map::<Seq<char>, Document>::empty(),
    {
        Documents::new()
    }
}

impl Documents {
    /// The documents held, each under its key.
    pub closed spec fn documents(&self) -> Map<Seq<char>, Document> {
        stored_documents(self.map)
    }

    /// Every document held is consistent and is kept under its own identifier.
    pub open spec fn wf(&self) -> bool {
        forall|key: Seq<char>| #[trigger]
            self.documents().contains_key(key) ==> self.documents()[key].wf()
                && self.documents()[key].uri_text() == key
    }

    /// A store that holds nothing.
    pub fn new() -> (store: Documents)
        ensures
            store.wf(),
            store.documents() == Map::<Seq<char>, Document>::empty(),
    {
        Documents { map: document_map_new() }
    }

    /// Whether a document is held under `path`.
    pub fn is_open(&self, path: &str) -> (r: bool)
        ensures
            r == self.documents().contains_key(path@),
    {
        document_map_contains(&self.map, path)
    }

    /// Opens the file at `path` from what reading it gave, unless a document
    /// is already held under `path`: that one is never replaced. A file that
    /// could not be read opens nothing.
    pub fn handle_open_file(&mut self, path: &str, read: Result<String, ReadFailure>)
        requires
            old(self).wf(),
        ensures
            final(self).wf(),
            old(self).documents().contains_key(path@) || read is Err ==> final(self).documents()
                == old(self).documents(),
            !old(self).documents().contains_key(path@) && read is Ok ==> {
                &&& final(self).documents().dom() == old(self).documents().dom().insert(path@)
                &&& forall|key: Seq<char>|
                    key != path@ && #[trigger] old(self).documents().contains_key(key)
                        ==> final(self).documents()[key] == old(self).documents()[key]
                &&& final(self).documents()[path@].text() == read->Ok_0@
                &&& final(self).documents()[path@].version_number() == 1
            },
    {
        if !document_map_contains(&self.map, path) {
            if let Ok(document) = Document::build_from_path(path, read) {
                let _ = self.store_document(document);
            }
        }
    }

    /// Puts `document` into the store under its own identifier. Where one is
    /// held there already, the store stays as it is and the call reports
    /// `DocumentAlreadyStored`.
    pub fn store_document(&mut self, document: Document) -> (r: Result<(), DocumentError>)
        requires
            old(self).wf(),
            document.wf(),
        ensures
            final(self).wf(),
            r is Ok <==> !old(self).documents().contains_key(document.uri_text()),
            r is Ok ==> final(self).documents() == old(self).documents().insert(
                document.uri_text(),
                document,
            ),
            r matches Err(e) ==> e.is_already_stored(document.uri_text()) && final(
                self).documents() == old(self).documents(),
    {
        if document_map_contains(&self.map, document.get_uri()) {
            return Err(
                DocumentError::DocumentAlreadyStored { path: document.get_uri().to_owned() },
            );
        }
        let uri = document.get_uri().to_owned();
        let ghost held = document;
        let _ = document_map_insert(&mut self.map, uri, document);
        proof {
            assert forall|key: Seq<char>| #[trigger]
                self.documents().contains_key(key) implies self.documents()[key].wf()
                && self.documents()[key].uri_text() == key by {
                if key != held.uri_text() {
                    assert(old(self).documents().contains_key(key));
                }
            }
        }
        Ok(())
    }

    /// Takes the document under `path` out of the store.
    pub fn remove_document(&mut self, path: &str) -> (r: Result<Document, DocumentError>)
        requires
            old(self).wf(),
        ensures
            final(self).wf(),
            final(self).documents() == old(self).documents().remove(path@),
            match r {
                Ok(document) => old(self).documents().contains_key(path@)
                    && document == old(self).documents()[path@],
                Err(e) => !old(self).documents().contains_key(path@) && e.is_not_found(path@),
            },
    {
        let removed = document_map_remove(&mut self.map, path);
        proof {
            assert forall|key: Seq<char>| #[trigger]
                self.documents().contains_key(key) implies self.documents()[key].wf()
                && self.documents()[key].uri_text() == key by {
                assert(old(self).documents().contains_key(key));
            }
        }
        match removed {
            Some(document) => Ok(document),
            None => Err(DocumentError::DocumentNotFound { path: path.to_owned() }),
        }
    }

    /// Applies `changes` in order to the document under `path` and returns its
    /// text. The first change that is not valid ends the batch with its
    /// error; the changes before it stay applied.
    pub fn update_document(&mut self, path: &str, changes: &[ContentChange]) -> (r: Result<
        String,
        DocumentError,
    >)
        requires
            old(self).wf(),
            old(self).documents().contains_key(path@)
                ==> old(self).documents()[path@].version_number() + batch_result(
                old(self).documents()[path@].bytes(),
                changes@,
            ).1 <= i32::MAX,
        ensures
            final(self).wf(),
            !old(self).documents().contains_key(path@) ==> {
                &&& final(self).documents() == old(self).documents()
                &&& r matches Err(e)
                &&& e.is_not_found(path@)
            },
            old(self).documents().contains_key(path@) ==> {
                let before = old(self).documents()[path@];
                let outcome = batch_result(before.bytes(), changes@);
                let after = final(self).documents()[path@];
                &&& final(self).documents() == old(self).documents().insert(path@, after)
                &&& after.bytes() == outcome.0
                &&& after.version_number() == before.version_number() + outcome.1
                &&& r is Ok <==> outcome.1 == changes@.len()
                &&& r matches Ok(text) ==> text@ == after.text()
                &&& r matches Err(e) ==> changes@[outcome.1 as int].range is Some && e
                    == (DocumentError::InvalidRange { range: changes@[outcome.1 as int].range->0 })
            },
    {
        match document_map_remove(&mut self.map, path) {
            None => Err(DocumentError::DocumentNotFound { path: path.to_owned() }),
            Some(document) => {
                let mut document = document;
                let applied = document.apply_changes(changes);
                let text = document.get_text().to_owned();
                let key = document.get_uri().to_owned();
                let ghost stored = document;
                let _ = document_map_insert(&mut self.map, key, document);
                assert(self.documents() =~= old(self).documents().insert(path@, stored));
                match applied {
                    Ok(()) => Ok(text),
                    Err(e) => Err(e),
                }
            },
        }
    }

    /// A copy of the document under `path`.
    pub fn get_document(&self, path: &str) -> (r: Result<Document, DocumentError>)
        ensures
            match r {
                Ok(document) => self.documents().contains_key(path@) && document
                    == self.documents()[path@],
                Err(e) => !self.documents().contains_key(path@) && e.is_not_found(path@),
            },
    {
        match document_map_get(&self.map, path) {
            Some(document) => Ok(document),
            None => Err(DocumentError::DocumentNotFound { path: path.to_owned() }),
        }
    }

    /// Adds the documents of `files` in order, each at version 1 under the
    /// path of its file. The first file that could not be read, or whose path
    /// is taken, ends the call with its error; the files before it stay
    /// added, and the document that holds the path stays as it is.
    pub fn load_files(&mut self, files: &[LoadedFile]) -> (r: Result<(), DocumentError>)
        requires
            old(self).wf(),
        ensures
            final(self).wf(),
            files_loaded(old(self).documents(), files@, final(self).documents(), r),
    {
        let n = files.len();
        let mut i: usize = 0;
        let ghost start = old(self).documents();
        let ghost paths = file_paths(files@);
        assert(files@.skip(0) =~= files@);
        proof {
            lemma_loaded_count_bounded(start.dom(), files@);
        }
        while i < n
            invariant
                i <= n,
                n == files@.len(),
                self.wf(),
                start == old(self).documents(),
                paths == file_paths(files@),
                loaded_count(start.dom(), files@) <= files@.len(),
                loaded_count(start.dom(), files@) == i + loaded_count(
                    self.documents().dom(),
                    files@.skip(i as int),
                ),
                forall|key: Seq<char>| #[trigger]
                    self.documents().contains_key(key) <==> start.contains_key(key) || paths.take(
                        i as int,
                    ).contains(key),
                forall|j: int|
                    0 <= j < i ==> (#[trigger] files@[j]).read is Ok
                        && self.documents()[files@[j].path@].text() == files@[j].read->Ok_0@
                        && self.documents()[files@[j].path@].version_number() == 1,
                forall|j: int| 0 <= j < i ==> !start.contains_key(#[trigger] paths[j]),
                forall|key: Seq<char>| #[trigger]
                    start.contains_key(key) ==> self.documents()[key] == start[key],
            decreases n - i,
        {
            let file = &files[i];
            let ghost held = self.documents();
            let ghost rest = files@.skip(i as int);
            let ghost done = paths.take(i as int);
            let ghost next = paths.take(i + 1);
            assert(rest.len() > 0 && rest[0] == files@[i as int]);
            assert(rest.drop_first() =~= files@.skip(i + 1));
            assert(next =~= done.push(file.path@));
            assert(paths[i as int] == file.path@);
            let built = Document::build_from_path(file.path.as_str(), copy_read(&file.read));
            let document = match built {
                Ok(document) => document,
                Err(e) => {
                    assert(load_fails(held.dom(), rest[0]));
                    return Err(e);
                },
            };
            match self.store_document(document) {
                Ok(()) => {},
                Err(e) => {
                    assert(load_fails(held.dom(), rest[0]));
                    return Err(e);
                },
            }
            proof {
                assert(!load_fails(held.dom(), rest[0]));
                assert(self.documents().dom() =~= held.dom().insert(file.path@));
                assert(!done.contains(file.path@));
                assert forall|key: Seq<char>| #[trigger]
                    self.documents().contains_key(key) <==> start.contains_key(key)
                        || next.contains(key) by {
                    assert(held.contains_key(key) <==> start.contains_key(key) || done.contains(
                        key,
                    ));
                    if next.contains(key) {
                        let j = choose|j: int| 0 <= j < next.len() && next[j] == key;
                        if j < i {
                            assert(done[j] == key);
                        }
                    }
                    if done.contains(key) {
                        let j = choose|j: int| 0 <= j < done.len() && done[j] == key;
                        assert(next[j] == key);
                    }
                    if key == file.path@ {
                        assert(next[i as int] == key);
                    }
                }
                assert forall|j: int| 0 <= j < i + 1 implies (#[trigger] files@[j]).read is Ok
                    && self.documents()[files@[j].path@].text() == files@[j].read->Ok_0@
                    && self.documents()[files@[j].path@].version_number() == 1 by {
                    if j < i {
                        assert(paths[j] == files@[j].path@);
                        assert(done[j] == files@[j].path@);
                        assert(done.contains(files@[j].path@));
                    }
                }
            }
            i = i + 1;
        }
        assert(paths.take(n as int) =~= paths.take(loaded_count(start.dom(), files@) as int));
        Ok(())
    }
}

} // verus!
