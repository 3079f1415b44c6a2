use makepad_analyzer::errors::{DirectoryError, MakepadAnalyzerError};
use makepad_analyzer::manager::{
    CleanupEvent, CleanupInterval, SessionManager, SessionManagerBuilder,
    DEFAULT_AUTO_CLEANUP_INTERVAL_SECS, DEFAULT_SESSION_CACHE_SIZE,
};
use makepad_analyzer::session::Session;

fn seconds(secs: u64) -> CleanupInterval {
    CleanupInterval { secs, subsec_nanos: 0 }
}

fn usage(manager: &SessionManager) -> f32 {
    manager.cache().len() as f32 / manager.cache().capacity() as f32
}

#[test]
fn test_session_manager_builder() {
    let mut session_manager = SessionManager::builder()
        .with_cache_capacity(5)
        .with_auto_cleanup_interval(seconds(2))
        .build();

    assert_eq!(session_manager.cache().capacity(), 5);
    assert_eq!(session_manager.auto_cleanup_interval(), seconds(2));

    session_manager.stop();
}

#[test]
fn test_session_manager_auto_cleanup() {
    let mut session_manager = SessionManager::builder()
        .with_cache_capacity(5)
        .with_auto_cleanup_interval(seconds(2))
        .build();

    for i in 0..5 {
        let path = format!("session_{}", i);
        let session = Session::new();
        session_manager.get_or_create_session(path, Ok(session)).unwrap();
    }

    assert_eq!(usage(&session_manager), 1.0);

    let inactived_session_path1 = "session_2";
    let inactived_session_path2 = "session_4";

    assert!(session_manager.get_session(inactived_session_path1).is_some());
    assert!(session_manager.get_session(inactived_session_path2).is_some());
    let recency: Vec<String> =
        session_manager.cache().iter().into_iter().map(|entry| entry.0).collect();
    assert_eq!(recency, vec!["session_4", "session_2", "session_3", "session_1", "session_0"]);

    // Mark session inactive
    session_manager.mark_session_inactived(inactived_session_path1);

    assert!(session_manager.auto_cleanup_sessions(CleanupEvent::IntervalElapsed));

    assert_eq!(usage(&session_manager), 0.8);
    assert!(session_manager.get_session(inactived_session_path1).is_none());
    assert!(session_manager.get_session("session_0").is_some());
    assert!(session_manager.get_session("session_1").is_some());
    assert!(session_manager.get_session("session_3").is_some());
    assert!(session_manager.get_session("session_4").is_some());

    session_manager.mark_session_inactived(inactived_session_path2);

    assert!(session_manager.auto_cleanup_sessions(CleanupEvent::IntervalElapsed));

    assert!(session_manager.get_session(inactived_session_path2).is_none());

    assert_eq!(usage(&session_manager), 0.6);

    session_manager.stop();
}

#[test]
fn builder_defaults() {
    let builder = SessionManagerBuilder::new();
    assert_eq!(builder.cache_capacity, 7);
    assert_eq!(builder.auto_cleanup_interval, seconds(3600));
    assert_eq!(DEFAULT_SESSION_CACHE_SIZE, 7);
    assert_eq!(DEFAULT_AUTO_CLEANUP_INTERVAL_SECS, 60 * 60);
    let manager = SessionManager::builder().build();
    assert_eq!(manager.cache().capacity(), 7);
    assert_eq!(manager.cache().len(), 0);
    assert_eq!(manager.auto_cleanup_interval(), seconds(3600));
}

#[test]
fn failed_creation_inserts_nothing() {
    let mut manager = SessionManager::builder().with_cache_capacity(2).build();
    let failure = MakepadAnalyzerError::DirectoryError(DirectoryError::TempDirFailed);
    assert_eq!(
        manager.get_or_create_session("/p".to_string(), Err(failure.clone())).unwrap_err(),
        failure
    );
    assert_eq!(manager.cache().len(), 0);
    assert!(manager.get_session("/p").is_none());
}

#[test]
fn created_session_is_cached() {
    let mut manager = SessionManager::builder().with_cache_capacity(2).build();
    assert!(manager.get_session("/p").is_none());
    let handle = manager.get_or_create_session("/p".to_string(), Ok(Session::new())).unwrap();
    assert!(handle.status());
    assert!(manager.get_session("/p").is_some());
    assert_eq!(manager.cache().len(), 1);
}

#[test]
fn cancelled_task_ends_without_sweeping() {
    let mut manager = SessionManager::builder().with_cache_capacity(2).build();
    manager.get_or_create_session("/p".to_string(), Ok(Session::new())).unwrap();
    manager.mark_session_inactived("/p");
    assert!(!manager.auto_cleanup_sessions(CleanupEvent::Cancelled));
    assert_eq!(manager.cache().len(), 1);
    assert!(manager.auto_cleanup_sessions(CleanupEvent::IntervalElapsed));
    assert_eq!(manager.cache().len(), 0);
}

#[test]
fn stop_signals_exactly_once() {
    let mut manager = SessionManager::builder().build();
    assert!(manager.stop());
    assert!(!manager.stop());
    assert!(!manager.stop());
}

#[test]
fn manifest_cache_remembers_projects() {
    let mut manager = SessionManager::builder().build();
    assert_eq!(manager.manifest_cache("file:///p/src/a.rs"), None);
    manager.remember_project("file:///p/src/a.rs".to_string(), "/p".to_string());
    assert_eq!(manager.manifest_cache("file:///p/src/a.rs"), Some("/p".to_string()));
    assert_eq!(manager.manifest_cache("file:///p/src/b.rs"), None);
    manager.remember_project("file:///p/src/a.rs".to_string(), "/q".to_string());
    assert_eq!(manager.manifest_cache("file:///p/src/a.rs"), Some("/q".to_string()));
}
