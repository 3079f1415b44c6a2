use makepad_analyzer::errors::{DirectoryError, DocumentError, MakepadAnalyzerError};
use makepad_analyzer::manifest::{MakepadManifestFile, ManifestSource};
use makepad_analyzer::workspace::{
    convert_path, convert_url, get_path_from_url, get_url_from_path, path_or_error, url_or_error,
    SandboxRequest, SyncWorkspace, TempDirOutcome,
};

const MAKEPAD_TOML: &str =
    "[package]\nname = \"simple\"\n\n[dependencies]\nmakepad-widgets = \"1\"\n";

fn request() -> SandboxRequest {
    SandboxRequest { manifest_dir: "/home/u/simple".into(), project_name: "simple".into() }
}

fn ready() -> SyncWorkspace {
    let mut workspace = SyncWorkspace::new();
    let outcome = TempDirOutcome::Created { canonical_path: "/tmp/makepad-analyzerX1".into() };
    assert_eq!(workspace.create_temp_dir_from_workspace(&request(), outcome), Ok(()));
    workspace
}

#[test]
fn new_workspace_has_no_directories() {
    let workspace = SyncWorkspace::new();
    assert_eq!(workspace.manifest_dir(), Err(DirectoryError::ManifestDirNotFound));
    assert_eq!(workspace.temp_dir(), Err(DirectoryError::TempDirNotFound));
    assert_eq!(workspace.manifest_path(), None);
    assert_eq!(workspace.temp_manifest_path(), None);
    assert_eq!(
        workspace.clone_manifest_dir_to_temp(),
        Err(DirectoryError::ManifestDirNotFound)
    );
}

#[test]
fn translation_needs_both_directories() {
    let workspace = SyncWorkspace::new();
    assert_eq!(
        workspace.workspace_to_temp_path("/home/u/simple/src/app.rs"),
        Err(DirectoryError::TempDirNotFound)
    );
    assert_eq!(
        workspace.temp_to_workspace_path("/tmp/x/simple/src/app.rs"),
        Err(DirectoryError::ManifestDirNotFound)
    );
    assert_eq!(
        workspace.workspace_to_temp_url("/home/u/simple/src/app.rs"),
        Err(DirectoryError::TempDirNotFound)
    );
    assert_eq!(
        workspace.temp_to_workspace_url("/tmp/x/simple/src/app.rs"),
        Err(DirectoryError::ManifestDirNotFound)
    );
}

#[test]
fn sandbox_is_recorded_under_the_project_name() {
    let workspace = ready();
    assert_eq!(workspace.manifest_dir(), Ok("/home/u/simple".to_string()));
    assert_eq!(workspace.temp_dir(), Ok("/tmp/makepad-analyzerX1/simple".to_string()));
    assert_eq!(workspace.manifest_path(), Some("/home/u/simple/Cargo.toml".to_string()));
    assert_eq!(
        workspace.temp_manifest_path(),
        Some("/tmp/makepad-analyzerX1/simple/Cargo.toml".to_string())
    );
    assert_eq!(
        workspace.clone_manifest_dir_to_temp(),
        Ok(("/home/u/simple".to_string(), "/tmp/makepad-analyzerX1/simple".to_string()))
    );
    assert_eq!(
        SyncWorkspace::sandbox_path("/tmp/makepad-analyzerX1", "simple"),
        "/tmp/makepad-analyzerX1/simple"
    );
}

#[test]
fn failed_temp_dir_records_nothing() {
    let mut workspace = SyncWorkspace::new();
    assert_eq!(
        workspace.create_temp_dir_from_workspace(&request(), TempDirOutcome::TempDirFailed),
        Err(DirectoryError::TempDirFailed)
    );
    assert_eq!(
        workspace.create_temp_dir_from_workspace(&request(), TempDirOutcome::CanonicalizeFailed),
        Err(DirectoryError::CanonicalizeFailed)
    );
    assert_eq!(workspace.manifest_dir(), Err(DirectoryError::ManifestDirNotFound));
    assert_eq!(workspace.temp_dir(), Err(DirectoryError::TempDirNotFound));
}

#[test]
fn paths_round_trip_between_the_trees() {
    let workspace = ready();
    for path in ["/home/u/simple/src/app.rs", "/home/u/simple", "/home/u/simple/a/b/c.rs"] {
        let there = workspace.workspace_to_temp_path(path).unwrap();
        assert!(there.starts_with("/tmp/makepad-analyzerX1/simple"));
        assert_eq!(workspace.temp_to_workspace_path(&there), Ok(path.to_string()));
    }
    assert_eq!(
        workspace.workspace_to_temp_path("/home/u/simple/src/app.rs"),
        Ok("/tmp/makepad-analyzerX1/simple/src/app.rs".to_string())
    );
}

#[test]
fn path_outside_the_root_is_refused() {
    let workspace = ready();
    assert_eq!(
        workspace.workspace_to_temp_path("/home/u/other/src/app.rs"),
        Err(DirectoryError::StripPrefixError)
    );
    assert_eq!(
        workspace.workspace_to_temp_url("/home/u/simplex/a.rs"),
        Err(DirectoryError::StripPrefixError)
    );
    assert_eq!(
        workspace.temp_to_workspace_path("/home/u/simple/src/app.rs"),
        Err(DirectoryError::StripPrefixError)
    );
    assert_eq!(
        workspace.temp_to_workspace_url("/home/u/simple/src/app.rs"),
        Err(DirectoryError::StripPrefixError)
    );
}

#[test]
fn urls_round_trip_between_the_trees() {
    let workspace = ready();
    let there = workspace.workspace_to_temp_url("/home/u/simple/src/app.rs").unwrap();
    assert_eq!(there, "file:///tmp/makepad-analyzerX1/simple/src/app.rs");
    let path = url::Url::parse(&there).unwrap().path().to_string();
    let back = workspace.temp_to_workspace_url(&path).unwrap();
    assert_eq!(back, "file:///home/u/simple/src/app.rs");
}

#[test]
fn url_and_path_convert_both_ways() {
    assert_eq!(get_url_from_path("/a/b c.rs"), Ok("file:///a/b%20c.rs".to_string()));
    assert_eq!(get_path_from_url("file:///a/b%20c.rs"), Ok("/a/b c.rs".to_string()));
    assert_eq!(
        get_url_from_path("relative/a.rs"),
        Err(DirectoryError::UrlFromPathFailed { path: "relative/a.rs".into() })
    );
    assert_eq!(
        get_path_from_url("not a url"),
        Err(DirectoryError::PathFromUrlFailed { url: "not a url".into() })
    );
    assert_eq!(
        get_path_from_url("https://example.com/a.rs"),
        Err(DirectoryError::PathFromUrlFailed { url: "https://example.com/a.rs".into() })
    );
}

#[test]
fn conversion_results_become_typed_errors() {
    assert_eq!(url_or_error("/a", Some("file:///a".into())), Ok("file:///a".to_string()));
    assert_eq!(
        url_or_error("/a", None),
        Err(DirectoryError::UrlFromPathFailed { path: "/a".into() })
    );
    assert_eq!(path_or_error("file:///a", Some("/a".into())), Ok("/a".to_string()));
    assert_eq!(
        path_or_error("file:///a", None),
        Err(DirectoryError::PathFromUrlFailed { url: "file:///a".into() })
    );
}

#[test]
fn convert_path_strips_and_rejoins() {
    assert_eq!(convert_path("/ws/a.rs", "/tmp/p", "/ws"), Ok("/tmp/p/a.rs".to_string()));
    assert_eq!(convert_path("/nope/a.rs", "/tmp/p", "/ws"), Err(DirectoryError::StripPrefixError));
    assert_eq!(convert_url("/nope/a.rs", "/tmp/p", "/ws"), Err(DirectoryError::StripPrefixError));
}

#[test]
fn sandbox_request_names_directory_and_project() {
    let file = MakepadManifestFile::from_dir(
        "/home/u/simple/src/app.rs",
        Some(ManifestSource {
            path: "/home/u/simple/Cargo.toml".into(),
            text: Some(MAKEPAD_TOML.into()),
        }),
    );
    assert_eq!(
        SyncWorkspace::sandbox_request("/home/u/simple/src/app.rs", file),
        Ok(request())
    );
}

#[test]
fn sandbox_request_reports_each_failure() {
    let failed = MakepadManifestFile::from_dir("/p/src", None);
    assert_eq!(
        SyncWorkspace::sandbox_request("/p/src", failed),
        Err(MakepadAnalyzerError::DocumentError(DocumentError::ManifestFileNotFound {
            dir: "/p/src".into()
        }))
    );
    let foreign = MakepadManifestFile::from_dir(
        "/p/src",
        Some(ManifestSource {
            path: "/p/Cargo.toml".into(),
            text: Some("[package]\nname = \"x\"\n".into()),
        }),
    );
    assert_eq!(
        SyncWorkspace::sandbox_request("/p/src", foreign),
        Err(MakepadAnalyzerError::DocumentError(DocumentError::NotMakepadProject {
            path: "/p/src".into()
        }))
    );
    let unread = MakepadManifestFile::from_dir(
        "/p/src",
        Some(ManifestSource { path: "/p/Cargo.toml".into(), text: None }),
    );
    assert_eq!(
        SyncWorkspace::sandbox_request("/p/src", unread),
        Err(MakepadAnalyzerError::DocumentError(DocumentError::IOError {
            path: "/p/Cargo.toml".into(),
            error: "Parse Cargo.toml failed!".into()
        }))
    );
    let invalid = MakepadManifestFile::from_dir(
        "/p/src",
        Some(ManifestSource { path: "/p/Cargo.toml".into(), text: Some("[package".into()) }),
    );
    match SyncWorkspace::sandbox_request("/p/src", invalid) {
        Err(MakepadAnalyzerError::DocumentError(DocumentError::InvalidManifestFormat {
            ..
        })) => {}
        other => panic!("unexpected {:?}", other),
    }
    let nameless = MakepadManifestFile::from_dir(
        "/p/src",
        Some(ManifestSource {
            path: "/p/Cargo.toml".into(),
            text: Some("[dependencies]\nmakepad-widgets = \"1\"\n".into()),
        }),
    );
    assert_eq!(
        SyncWorkspace::sandbox_request("/p/src", nameless),
        Err(MakepadAnalyzerError::DirectoryError(DirectoryError::CantExtractProjectName {
            dir: "/p".into()
        }))
    );
    let rootless = MakepadManifestFile::from_dir(
        "x",
        Some(ManifestSource { path: "Cargo.toml".into(), text: Some(MAKEPAD_TOML.into()) }),
    );
    assert_eq!(
        SyncWorkspace::sandbox_request("x", rootless),
        Err(MakepadAnalyzerError::DirectoryError(DirectoryError::ManifestDirNotFound))
    );
}

#[test]
fn url_of_a_path_is_in_the_file_scheme() {
    for path in ["/", "/a", "/home/u/simple/src/app.rs", "/with space/é.rs"] {
        let url = get_url_from_path(path).unwrap();
        assert!(url.starts_with("file://"));
        assert_ne!(url, path);
    }
}
