use makepad_analyzer::mirror::{
    files_of, is_mirrored, plan_mirror, plan_tree, DirEntryInfo, DirListing, MirrorStep,
};

fn file(name: &str) -> DirEntryInfo {
    DirEntryInfo { name: name.into(), is_dir: false }
}

fn dir(name: &str) -> DirEntryInfo {
    DirEntryInfo { name: name.into(), is_dir: true }
}

#[test]
fn only_sources_manifest_and_lock_are_mirrored() {
    assert!(is_mirrored("app.rs"));
    assert!(is_mirrored(".rs"));
    assert!(is_mirrored("Cargo.toml"));
    assert!(is_mirrored("Cargo.lock"));
    assert!(!is_mirrored("cargo.toml"));
    assert!(!is_mirrored("README.md"));
    assert!(!is_mirrored("app.rs.bak"));
    assert!(!is_mirrored("rs"));
}

#[test]
fn directory_without_files_is_not_created() {
    let entries = vec![file("README.md"), dir("assets"), file("logo.png")];
    let steps = plan_mirror(&entries, "/ws", "/tmp/p");
    assert_eq!(
        steps,
        vec![MirrorStep::Descend { from: "/ws/assets".into(), to: "/tmp/p/assets".into() }]
    );
    assert_eq!(plan_mirror(&[], "/ws", "/tmp/p"), vec![]);
}

#[test]
fn directory_is_created_once_before_the_first_copy() {
    let entries = vec![dir("src"), file("notes.txt"), file("Cargo.toml"), file("build.rs")];
    let steps = plan_mirror(&entries, "/ws", "/tmp/p");
    assert_eq!(
        steps,
        vec![
            MirrorStep::Descend { from: "/ws/src".into(), to: "/tmp/p/src".into() },
            MirrorStep::CreateDir { path: "/tmp/p".into() },
            MirrorStep::CopyFile { from: "/ws/Cargo.toml".into(), to: "/tmp/p/Cargo.toml".into() },
            MirrorStep::CopyFile { from: "/ws/build.rs".into(), to: "/tmp/p/build.rs".into() },
        ]
    );
}

#[test]
fn a_directory_named_like_a_source_is_descended() {
    let entries = vec![dir("odd.rs")];
    assert_eq!(
        plan_mirror(&entries, "/ws", "/tmp/p"),
        vec![MirrorStep::Descend { from: "/ws/odd.rs".into(), to: "/tmp/p/odd.rs".into() }]
    );
}

fn listing(path: &str, entries: Vec<DirEntryInfo>) -> DirListing {
    DirListing { dir: path.into(), entries }
}

#[test]
fn files_of_drops_directories() {
    let entries = vec![dir("src"), file("a.rs"), dir("odd.rs"), file("b.txt")];
    assert_eq!(files_of(&entries), vec![file("a.rs"), file("b.txt")]);
    assert_eq!(files_of(&[]), vec![]);
}

#[test]
fn tree_plan_makes_directories_only_for_files() {
    let tree = vec![
        listing("/ws", vec![file("Cargo.toml"), dir("src"), dir("assets"), dir("deep"), dir("void")]),
        listing("/ws/src", vec![file("app.rs"), file("notes.md")]),
        listing("/ws/assets", vec![file("logo.png")]),
        listing("/ws/deep", vec![dir("a")]),
        listing("/ws/deep/a", vec![dir("b"), file("readme")]),
        listing("/ws/deep/a/b", vec![file("x.rs")]),
        listing("/ws/void", vec![]),
        listing("/elsewhere", vec![file("y.rs")]),
    ];
    let steps = plan_tree(&tree, "/ws", "/tmp/p");
    assert_eq!(
        steps,
        vec![
            MirrorStep::CreateDir { path: "/tmp/p".into() },
            MirrorStep::CopyFile { from: "/ws/Cargo.toml".into(), to: "/tmp/p/Cargo.toml".into() },
            MirrorStep::CreateDir { path: "/tmp/p/src".into() },
            MirrorStep::CopyFile { from: "/ws/src/app.rs".into(), to: "/tmp/p/src/app.rs".into() },
            MirrorStep::CreateDir { path: "/tmp/p/deep/a/b".into() },
            MirrorStep::CopyFile {
                from: "/ws/deep/a/b/x.rs".into(),
                to: "/tmp/p/deep/a/b/x.rs".into()
            },
        ]
    );
}

#[test]
fn tree_without_files_plans_nothing() {
    let tree = vec![
        listing("/ws", vec![dir("a"), file("README.md")]),
        listing("/ws/a", vec![file("b.txt")]),
    ];
    assert_eq!(plan_tree(&tree, "/ws", "/tmp/p"), vec![]);
    assert_eq!(plan_tree(&[], "/ws", "/tmp/p"), vec![]);
}
