use makepad_analyzer::paths::{
    file_name_of, find_last_separator, join_path, parent_dir, path_is_under, translate_path,
    trimmed_length,
};

#[test]
fn trimmed_length_drops_trailing_separators() {
    assert_eq!(trimmed_length("/a/b"), 4);
    assert_eq!(trimmed_length("/a/b/"), 4);
    assert_eq!(trimmed_length("/a/b//"), 4);
    assert_eq!(trimmed_length("/"), 0);
    assert_eq!(trimmed_length(""), 0);
    assert_eq!(trimmed_length("C:\\x\\"), 4);
}

#[test]
fn last_separator_is_found() {
    assert_eq!(find_last_separator("/a/b"), Some(2));
    assert_eq!(find_last_separator("a"), None);
    assert_eq!(find_last_separator("a\\b/c"), Some(3));
    assert_eq!(find_last_separator(""), None);
}

#[test]
fn parent_dir_walks_upward() {
    assert_eq!(parent_dir("/home/u/p/src/a.rs"), Some("/home/u/p/src"));
    assert_eq!(parent_dir("/home"), Some("/"));
    assert_eq!(parent_dir("/"), None);
    assert_eq!(parent_dir("a.rs"), None);
    assert_eq!(parent_dir("E:\\makepad\\x"), Some("E:\\makepad"));
    assert_eq!(parent_dir("E:\\makepad"), Some("E:"));
    assert_eq!(parent_dir("E:"), None);
}

#[test]
fn join_uses_the_separator_of_the_directory() {
    assert_eq!(join_path("/home/u", "Cargo.toml"), "/home/u/Cargo.toml");
    assert_eq!(join_path("/", "Cargo.toml"), "/Cargo.toml");
    assert_eq!(join_path("", "Cargo.toml"), "Cargo.toml");
    assert_eq!(join_path("proj", "Cargo.toml"), "proj/Cargo.toml");
    assert_eq!(join_path("E:\\makepad\\simple", "Cargo.toml"), "E:\\makepad\\simple\\Cargo.toml");
}

#[test]
fn file_name_is_the_last_component() {
    assert_eq!(file_name_of("/a/b/c.rs"), "c.rs");
    assert_eq!(file_name_of("c.rs"), "c.rs");
    assert_eq!(file_name_of("/a/b/"), "");
    assert_eq!(file_name_of("a\\b.rs"), "b.rs");
}

#[test]
fn under_means_whole_components() {
    assert!(path_is_under("/ws/src/a.rs", "/ws"));
    assert!(path_is_under("/ws", "/ws"));
    assert!(path_is_under("/ws/src/a.rs", "/ws/"));
    assert!(path_is_under("/a", "/"));
    assert!(!path_is_under("/wsx/src/a.rs", "/ws"));
    assert!(!path_is_under("/other/a.rs", "/ws"));
    assert!(!path_is_under("/w", "/ws"));
}

#[test]
fn translate_moves_between_roots() {
    assert_eq!(
        translate_path("/ws/src/a.rs", "/ws", "/tmp/x/proj"),
        Some("/tmp/x/proj/src/a.rs".to_string())
    );
    assert_eq!(translate_path("/ws", "/ws", "/tmp/x/proj"), Some("/tmp/x/proj".to_string()));
    assert_eq!(translate_path("/else/a.rs", "/ws", "/tmp/x/proj"), None);
    assert_eq!(translate_path("/a/é.rs", "/", "/t/"), Some("/t/a/é.rs".to_string()));
}

#[test]
fn translate_there_and_back_is_identity() {
    let roots = [("/ws", "/tmp/x/proj"), ("/ws/", "/tmp/x/"), ("/", "/sandbox/p")];
    let paths = ["/ws/src/a.rs", "/ws", "/ws//double/b.rs", "/ws/dir/", "/a/b", "/ws/é/ü.rs"];
    for (from, to) in roots {
        for path in paths {
            if let Some(moved) = translate_path(path, from, to) {
                assert!(path_is_under(&moved, to));
                assert_eq!(translate_path(&moved, to, from), Some(path.to_string()));
            } else {
                assert!(!path_is_under(path, from));
            }
        }
    }
}
