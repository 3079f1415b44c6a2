use makepad_analyzer::document::{ContentChange, Document, Position, Range, ReadFailure};
use makepad_analyzer::errors::DocumentError;

fn range(sl: u32, sc: u32, el: u32, ec: u32) -> Range {
    Range {
        start: Position { line: sl, character: sc },
        end: Position { line: el, character: ec },
    }
}

#[test]
fn get_line_returns_correct_line() {
    let content = "line1\nline2\nline3".to_string();
    let line_offsets = Document::calculate_line_offsets(&content);
    assert_eq!(line_offsets, vec![0, 6, 12]);
    let document = Document::new("test.rs", content);
    assert_eq!(document.get_line(0), "line1\n");
    assert_eq!(document.get_line(1), "line2\n");
    assert_eq!(document.get_line(2), "line3");
}

#[test]
fn replacing_a_line_bumps_the_version() {
    let mut document = Document::new("test.rs", "line1\nline2\nline3".to_string());
    assert_eq!(document.get_version(), 1);
    let change = ContentChange { range: Some(range(1, 0, 1, 5)), text: "LINE2".to_string() };
    assert_eq!(document.apply_change(&change), Ok(()));
    assert_eq!(document.get_text(), "line1\nLINE2\nline3");
    assert_eq!(document.get_version(), 2);
}

#[test]
fn invalid_range_leaves_document_unchanged() {
    let mut document = Document::new("test.rs", "abc\ndef".to_string());
    let backwards = range(1, 2, 0, 1);
    let change = ContentChange { range: Some(backwards), text: "x".to_string() };
    assert_eq!(
        document.apply_change(&change),
        Err(DocumentError::InvalidRange { range: backwards })
    );
    assert_eq!(document.get_text(), "abc\ndef");
    assert_eq!(document.get_version(), 1);
    let beyond = range(0, 0, 1, 4);
    let change = ContentChange { range: Some(beyond), text: "x".to_string() };
    assert_eq!(
        document.apply_change(&change),
        Err(DocumentError::InvalidRange { range: beyond })
    );
    assert_eq!(document.get_text(), "abc\ndef");
    assert_eq!(document.get_version(), 1);
}

#[test]
fn build_from_path_returns_document_not_found_error() {
    let path = "E:\\makepad-analyzer\\non-existent-file.txt";
    let result = Document::build_from_path(path, Err(ReadFailure::NotFound))
        .expect_err("expected DocumentNotFound");
    assert_eq!(result, DocumentError::DocumentNotFound { path: path.into() });
}

#[test]
fn build_from_path_maps_each_failure() {
    let denied = Document::build_from_path("/p/a.rs", Err(ReadFailure::PermissionDenied));
    assert_eq!(denied.unwrap_err(), DocumentError::PermissionDenied { path: "/p/a.rs".into() });
    let other = Document::build_from_path(
        "/p/a.rs",
        Err(ReadFailure::Other { detail: "disk on fire".into() }),
    );
    assert_eq!(
        other.unwrap_err(),
        DocumentError::IOError { path: "/p/a.rs".into(), error: "disk on fire".into() }
    );
}

#[test]
fn build_from_path_starts_at_version_one() {
    let document = Document::build_from_path("/p/a.rs", Ok("fn main() {}\n".to_string())).unwrap();
    assert_eq!(document.get_version(), 1);
    assert_eq!(document.get_uri(), "/p/a.rs");
    assert_eq!(document.get_text(), "fn main() {}\n");
    assert_eq!(document.line_count(), 2);
}

#[test]
fn line_offsets_follow_newlines() {
    assert_eq!(Document::calculate_line_offsets(""), vec![0]);
    assert_eq!(Document::calculate_line_offsets("\n"), vec![0, 1]);
    assert_eq!(Document::calculate_line_offsets("a\n\nb"), vec![0, 2, 3]);
    assert_eq!(Document::calculate_line_offsets("é\nü\n"), vec![0, 3, 6]);
}

#[test]
fn lines_put_together_are_the_text() {
    for text in ["", "one", "one\n", "a\nbb\n\nccc", "é\nü\n\n", "\n\n\n"] {
        let document = Document::new("t.rs", text.to_string());
        let mut joined = String::new();
        for n in 0..document.line_count() {
            joined.push_str(document.get_line(n));
        }
        assert_eq!(joined, text);
    }
}

#[test]
fn get_line_beyond_the_last_is_empty() {
    let document = Document::new("t.rs", "a\nb".to_string());
    assert_eq!(document.get_line(2), "");
    assert_eq!(document.get_line(usize::MAX), "");
}

#[test]
fn position_to_index_adds_character_to_line_start() {
    let document = Document::new("t.rs", "abc\ndef\n".to_string());
    assert_eq!(document.position_to_index(Position { line: 0, character: 2 }), Some(2));
    assert_eq!(document.position_to_index(Position { line: 1, character: 1 }), Some(5));
    assert_eq!(document.position_to_index(Position { line: 2, character: 0 }), Some(8));
    // a line that does not exist counts from the end of the text
    assert_eq!(document.position_to_index(Position { line: 9, character: 3 }), Some(11));
}

#[test]
fn full_replace_sets_whole_text() {
    let mut document = Document::new("t.rs", "old\ntext".to_string());
    let change = ContentChange { range: None, text: "brand\nnew\n".to_string() };
    assert_eq!(document.apply_change(&change), Ok(()));
    assert_eq!(document.get_text(), "brand\nnew\n");
    assert_eq!(document.get_version(), 2);
    assert_eq!(document.line_count(), 3);
    assert_eq!(document.get_line(1), "new\n");
}

#[test]
fn edits_match_direct_splicing() {
    let mut document = Document::new("t.rs", "hello world\nsecond line\nthird".to_string());
    let mut reference = "hello world\nsecond line\nthird".to_string();
    let edits = [
        (range(0, 0, 0, 5), "HELLO", 0usize, 5usize),
        (range(1, 7, 1, 11), "row", 19, 23),
        (range(2, 5, 2, 5), "!", 28, 28),
        (range(0, 11, 1, 0), " ", 11, 12),
    ];
    let mut version = document.get_version();
    for (r, text, start, end) in edits {
        let change = ContentChange { range: Some(r), text: text.to_string() };
        assert_eq!(document.apply_change(&change), Ok(()));
        reference.replace_range(start..end, text);
        version += 1;
        assert_eq!(document.get_text(), reference);
        assert_eq!(document.get_version(), version);
    }
    assert_eq!(document.get_text(), "HELLO world second row\nthird!");
}

#[test]
fn batch_counts_one_version_per_change() {
    let mut document = Document::new("t.rs", "ab\ncd".to_string());
    let changes = vec![
        ContentChange { range: Some(range(0, 0, 0, 1)), text: "X".to_string() },
        ContentChange { range: Some(range(1, 1, 1, 2)), text: "YZ".to_string() },
        ContentChange { range: None, text: "all new".to_string() },
    ];
    assert_eq!(document.apply_changes(&changes), Ok(()));
    assert_eq!(document.get_text(), "all new");
    assert_eq!(document.get_version(), 4);
}

#[test]
fn batch_stops_at_first_invalid_change() {
    let mut document = Document::new("t.rs", "ab\ncd".to_string());
    let bad = range(0, 2, 0, 1);
    let changes = vec![
        ContentChange { range: Some(range(0, 0, 0, 1)), text: "X".to_string() },
        ContentChange { range: Some(bad), text: "never".to_string() },
        ContentChange { range: None, text: "never either".to_string() },
    ];
    assert_eq!(document.apply_changes(&changes), Err(DocumentError::InvalidRange { range: bad }));
    assert_eq!(document.get_text(), "Xb\ncd");
    assert_eq!(document.get_version(), 2);
}

#[test]
fn range_inside_a_character_is_invalid() {
    let mut document = Document::new("t.rs", "é!".to_string());
    let inside = range(0, 1, 0, 2);
    assert_eq!(document.validate_range(inside), Err(DocumentError::InvalidRange { range: inside }));
    let change = ContentChange { range: Some(inside), text: "x".to_string() };
    assert_eq!(document.apply_change(&change), Err(DocumentError::InvalidRange { range: inside }));
    assert_eq!(document.get_text(), "é!");
    let whole = range(0, 0, 0, 2);
    assert_eq!(document.validate_range(whole), Ok(()));
    let change = ContentChange { range: Some(whole), text: "e".to_string() };
    assert_eq!(document.apply_change(&change), Ok(()));
    assert_eq!(document.get_text(), "e!");
}

#[test]
fn range_may_end_at_the_end_of_the_text() {
    let mut document = Document::new("t.rs", "abc".to_string());
    let change = ContentChange { range: Some(range(0, 3, 0, 3)), text: "d".to_string() };
    assert_eq!(document.apply_change(&change), Ok(()));
    assert_eq!(document.get_text(), "abcd");
}

#[test]
fn refused_change_needs_no_room_for_a_version() {
    let mut document = Document::new("t.rs", "abc".to_string());
    let bad = range(0, 2, 0, 1);
    for _ in 0..3 {
        let change = ContentChange { range: Some(bad), text: "x".to_string() };
        assert_eq!(
            document.apply_change(&change),
            Err(DocumentError::InvalidRange { range: bad })
        );
    }
    assert_eq!(document.get_version(), 1);
    assert_eq!(document.get_text(), "abc");
}
