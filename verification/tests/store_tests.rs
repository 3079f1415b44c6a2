use makepad_analyzer::document::{ContentChange, Document, Position, Range, ReadFailure};
use makepad_analyzer::errors::DocumentError;
use makepad_analyzer::store::{Documents, LoadedFile};

fn doc(path: &str, text: &str) -> Document {
    Document::new(path, text.to_string())
}

#[test]
fn new_store_is_empty() {
    let store = Documents::new();
    assert!(!store.is_open("/p/a.rs"));
    assert_eq!(
        store.get_document("/p/a.rs").unwrap_err(),
        DocumentError::DocumentNotFound { path: "/p/a.rs".into() }
    );
}

#[test]
fn store_document_keeps_it_under_its_uri() {
    let mut store = Documents::new();
    assert_eq!(store.store_document(doc("/p/a.rs", "one")), Ok(()));
    assert!(store.is_open("/p/a.rs"));
    assert!(!store.is_open("/p/b.rs"));
    let copy = store.get_document("/p/a.rs").unwrap();
    assert_eq!(copy.get_text(), "one");
    assert_eq!(copy.get_uri(), "/p/a.rs");
}

#[test]
fn store_document_twice_reports_already_stored() {
    let mut store = Documents::new();
    assert_eq!(store.store_document(doc("/p/a.rs", "one")), Ok(()));
    assert_eq!(
        store.store_document(doc("/p/a.rs", "two")),
        Err(DocumentError::DocumentAlreadyStored { path: "/p/a.rs".into() })
    );
    assert_eq!(store.get_document("/p/a.rs").unwrap().get_text(), "one");
    assert_eq!(store.get_document("/p/a.rs").unwrap().get_version(), 1);
}

#[test]
fn open_is_idempotent() {
    let mut store = Documents::new();
    store.handle_open_file("/p/a.rs", Ok("first".to_string()));
    store.handle_open_file("/p/a.rs", Ok("second".to_string()));
    assert_eq!(store.get_document("/p/a.rs").unwrap().get_text(), "first");
    store.handle_open_file("/p/b.rs", Err(ReadFailure::NotFound));
    assert!(!store.is_open("/p/b.rs"));
}

#[test]
fn remove_document_hands_it_out_once() {
    let mut store = Documents::new();
    store.handle_open_file("/p/a.rs", Ok("text".to_string()));
    store.handle_open_file("/p/b.rs", Ok("other".to_string()));
    let removed = store.remove_document("/p/a.rs").unwrap();
    assert_eq!(removed.get_text(), "text");
    assert!(!store.is_open("/p/a.rs"));
    assert!(store.is_open("/p/b.rs"));
    assert_eq!(
        store.remove_document("/p/a.rs").unwrap_err(),
        DocumentError::DocumentNotFound { path: "/p/a.rs".into() }
    );
}

#[test]
fn update_document_returns_new_text() {
    let mut store = Documents::new();
    store.handle_open_file("/p/a.rs", Ok("line1\nline2\nline3".to_string()));
    let change = ContentChange {
        range: Some(Range {
            start: Position { line: 1, character: 0 },
            end: Position { line: 1, character: 5 },
        }),
        text: "LINE2".to_string(),
    };
    assert_eq!(store.update_document("/p/a.rs", &[change]), Ok("line1\nLINE2\nline3".to_string()));
    let copy = store.get_document("/p/a.rs").unwrap();
    assert_eq!(copy.get_version(), 2);
    assert_eq!(copy.get_text(), "line1\nLINE2\nline3");
}

#[test]
fn update_document_keeps_earlier_changes_of_failed_batch() {
    let mut store = Documents::new();
    store.handle_open_file("/p/a.rs", Ok("abc".to_string()));
    let bad = Range {
        start: Position { line: 0, character: 9 },
        end: Position { line: 0, character: 10 },
    };
    let changes = vec![
        ContentChange { range: None, text: "xyz".to_string() },
        ContentChange { range: Some(bad), text: "!".to_string() },
    ];
    assert_eq!(
        store.update_document("/p/a.rs", &changes),
        Err(DocumentError::InvalidRange { range: bad })
    );
    let copy = store.get_document("/p/a.rs").unwrap();
    assert_eq!(copy.get_text(), "xyz");
    assert_eq!(copy.get_version(), 2);
}

#[test]
fn update_document_of_unknown_path_fails() {
    let mut store = Documents::new();
    assert_eq!(
        store.update_document("/p/a.rs", &[]),
        Err(DocumentError::DocumentNotFound { path: "/p/a.rs".into() })
    );
}

#[test]
fn get_document_is_an_independent_copy() {
    let mut store = Documents::new();
    store.handle_open_file("/p/a.rs", Ok("abc".to_string()));
    let mut copy = store.get_document("/p/a.rs").unwrap();
    copy.apply_change(&ContentChange { range: None, text: "changed".to_string() }).unwrap();
    assert_eq!(store.get_document("/p/a.rs").unwrap().get_text(), "abc");
}

#[test]
fn load_files_stops_at_first_failure() {
    let mut store = Documents::new();
    let files = vec![
        LoadedFile { path: "/p/a.rs".into(), read: Ok("a".into()) },
        LoadedFile { path: "/p/b.rs".into(), read: Err(ReadFailure::PermissionDenied) },
        LoadedFile { path: "/p/c.rs".into(), read: Ok("c".into()) },
    ];
    assert_eq!(
        store.load_files(&files),
        Err(DocumentError::PermissionDenied { path: "/p/b.rs".into() })
    );
    assert!(store.is_open("/p/a.rs"));
    assert!(!store.is_open("/p/b.rs"));
    assert!(!store.is_open("/p/c.rs"));
}

#[test]
fn load_files_reports_taken_path() {
    let mut store = Documents::new();
    let files = vec![
        LoadedFile { path: "/p/a.rs".into(), read: Ok("a".into()) },
        LoadedFile { path: "/p/a.rs".into(), read: Ok("again".into()) },
    ];
    assert_eq!(
        store.load_files(&files),
        Err(DocumentError::DocumentAlreadyStored { path: "/p/a.rs".into() })
    );
    assert_eq!(store.get_document("/p/a.rs").unwrap().get_text(), "a");
}

#[test]
fn load_files_leaves_a_held_document() {
    let mut store = Documents::new();
    store.handle_open_file("/p/b.rs", Ok("held".to_string()));
    let files = vec![
        LoadedFile { path: "/p/a.rs".into(), read: Ok("a".into()) },
        LoadedFile { path: "/p/b.rs".into(), read: Ok("new".into()) },
        LoadedFile { path: "/p/c.rs".into(), read: Ok("c".into()) },
    ];
    assert_eq!(
        store.load_files(&files),
        Err(DocumentError::DocumentAlreadyStored { path: "/p/b.rs".into() })
    );
    assert_eq!(store.get_document("/p/a.rs").unwrap().get_text(), "a");
    assert_eq!(store.get_document("/p/b.rs").unwrap().get_text(), "held");
    assert!(!store.is_open("/p/c.rs"));
}

#[test]
fn load_files_loads_all() {
    let mut store = Documents::new();
    let files = vec![
        LoadedFile { path: "/p/a.rs".into(), read: Ok("a".into()) },
        LoadedFile { path: "/p/b.rs".into(), read: Ok("b".into()) },
    ];
    assert_eq!(store.load_files(&files), Ok(()));
    assert_eq!(store.get_document("/p/b.rs").unwrap().get_text(), "b");
    assert_eq!(store.get_document("/p/b.rs").unwrap().get_version(), 1);
}

#[test]
fn default_store_is_empty() {
    let store = Documents::default();
    assert!(!store.is_open("/p/a.rs"));
}
