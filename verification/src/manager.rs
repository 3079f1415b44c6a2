//! The owner of the session cache.
//!
//! The manager finds the session of a project, takes in a session that was
//! set up for one, remembers which project a document belongs to, and decides
//! what the periodic sweep does. Waiting and signalling are left to the
//! caller.

use dashmap::DashMap;
use std::sync::Arc;
use vstd::prelude::*;
use vstd::string::*;
use crate::cache::{is_live, lookup, touched, LRUSessionCache};
use crate::errors::MakepadAnalyzerError;
use crate::session::Session;

verus! {

/// The number of sessions that a manager holds where none is asked for.
pub const DEFAULT_SESSION_CACHE_SIZE: usize = 7;

/// The seconds between two sweeps where none are asked for: one hour.
pub const DEFAULT_AUTO_CLEANUP_INTERVAL_SECS: u64 = 3600;

/// A span of time: whole seconds, and the nanoseconds beyond them.
#[derive(Debug, Clone, Copy, PartialEq, Eq, Structural)]
pub struct CleanupInterval {
    pub secs: u64,
    pub subsec_nanos: u32,
}

/// What the task that sweeps the cache was woken by.
#[derive(Debug, Clone, Copy, PartialEq, Eq, Structural)]
pub enum CleanupEvent {
    /// The interval between two sweeps has passed.
    IntervalElapsed,
    /// The manager was stopped.
    Cancelled,
}

/// The project paths that a map records, each under the text of a document's
/// URI.
pub uninterp spec fn recorded_projects(table: DashMap<String, String>) -> Map<Seq<char>, Seq<char>>;

/// `DashMap::new`: the map it makes holds nothing.
#[verifier::external_body]
fn project_map_new() -> (r: DashMap<String, String>)
    ensures
        recorded_projects(r) == (Map::<Seq<char>, Seq<char>>::empty()),
{
    DashMap::new()
}

/// `DashMap::insert`: the map then holds `value` under `key` and is otherwise
/// unchanged.
#[verifier::external_body]
fn project_map_insert(table: &mut DashMap<String, String>, key: String, value: String)
    ensures
        recorded_projects(*final(table)) == recorded_projects(*old(table)).insert(key@, value@),
{
    table.insert(key, value);
}

/// `DashMap::try_get`: a copy of the value under `key`, if the map holds one.
/// No entry of the map is locked while a caller holds the map itself by
/// reference, so the lookup is never refused.
#[verifier::external_body]
fn project_map_get(table: &DashMap<String, String>, key: &str) -> (r: Option<String>)
    ensures
        r is Some == recorded_projects(*table).contains_key(key@),
        r matches Some(path) ==> path@ == recorded_projects(*table)[key@],
{
    table.try_get(key).try_unwrap().map(|entry| entry.value().clone())
}

/// The owner of the session cache.
#[derive(Debug)]
pub struct SessionManager {
    cache: LRUSessionCache,
    manifest_cache: DashMap<String, String>,
    auto_cleanup_interval: CleanupInterval,
    stopped: bool,
}

impl SessionManager {
    /// The cache of sessions.
    pub closed spec fn cache_value(&self) -> LRUSessionCache {
        self.cache
    }

    /// The project of each document that was resolved, by the document's URI.
    pub closed spec fn projects(&self) -> Map<Seq<char>, Seq<char>> {
        recorded_projects(self.manifest_cache)
    }

    /// The time between two sweeps.
    pub closed spec fn interval(&self) -> CleanupInterval {
        self.auto_cleanup_interval
    }

    /// Whether the manager was stopped.
    pub closed spec fn is_stopped(&self) -> bool {
        self.stopped
    }

    /// The cache is consistent.
    pub open spec fn wf(&self) -> bool {
        self.cache_value().wf()
    }

    fn init(cache: LRUSessionCache, auto_cleanup_interval: CleanupInterval) -> (r: SessionManager)
        requires
            cache.wf(),
        ensures
            r.wf(),
            r.cache_value() == cache,
            r.interval() == auto_cleanup_interval,
            !r.is_stopped(),
            r.projects() == Map::<Seq<char>, Seq<char>>::empty(),
    {
        SessionManager {
            cache,
            manifest_cache: project_map_new(),
            auto_cleanup_interval,
            stopped: false,
        }
    }

    /// A builder with the default capacity and interval.
    pub fn builder() -> (r: SessionManagerBuilder)
        ensures
            r.cache_capacity == DEFAULT_SESSION_CACHE_SIZE,
            r.auto_cleanup_interval == (CleanupInterval {
                secs: DEFAULT_AUTO_CLEANUP_INTERVAL_SECS,
                subsec_nanos: 0,
            }),
    {
        SessionManagerBuilder::new()
    }

    /// The cache of sessions.
    pub fn cache(&self) -> (r: &LRUSessionCache)
        ensures
            *r == self.cache_value(),
    {
        &self.cache
    }

    /// The time between two sweeps.
    pub fn auto_cleanup_interval(&self) -> (r: CleanupInterval)
        ensures
            r == self.interval(),
    {
        self.auto_cleanup_interval
    }

    /// The project that the document at `uri` was found to belong to.
    pub fn manifest_cache(&self, uri: &str) -> (r: Option<String>)
        ensures
            r is Some == self.projects().contains_key(uri@),
            r matches Some(path) ==> path@ == self.projects()[uri@],
    {
        project_map_get(&self.manifest_cache, uri)
    }

    /// Remembers that the document at `uri` belongs to the project at
    /// `project_path`.
    pub fn remember_project(&mut self, uri: String, project_path: String)
        ensures
            final(self).projects() == old(self).projects().insert(uri@, project_path@),
            final(self).cache_value() == old(self).cache_value(),
            final(self).interval() == old(self).interval(),
            final(self).is_stopped() == old(self).is_stopped(),
    {
        project_map_insert(&mut self.manifest_cache, uri, project_path);
    }

    /// The session of the project at `project_path`, where the cache holds
    /// one; the cache's rule for the order of use applies.
    pub fn get_session(&mut self, project_path: &str) -> (r: Option<Arc<Session>>)
        requires
            old(self).wf(),
        ensures
            final(self).wf(),
            final(self).projects() == old(self).projects(),
            final(self).interval() == old(self).interval(),
            final(self).is_stopped() == old(self).is_stopped(),
            final(self).cache_value().limit() == old(self).cache_value().limit(),
            final(self).cache_value().sessions() == old(self).cache_value().sessions(),
            r == lookup(old(self).cache_value().sessions(), project_path@),
            final(self).cache_value().recency() == if old(self).cache_value().sessions().contains_key(
                project_path@,
            )
                && old(self).cache_value().sessions().len() >= old(self).cache_value().limit() {
                touched(old(self).cache_value().recency(), project_path@)
            } else {
                old(self).cache_value().recency()
            },
    {
        self.cache.get(project_path)
    }

    /// Takes in what setting up a session for the project at `project_path`
    /// gave, after the cache was found to hold none for it. A session that
    /// was set up is put into the cache and handed out. A failure leaves the
    /// manager as it was and is handed on.
    pub fn get_or_create_session(
        &mut self,
        project_path: String,
        created: Result<Session, MakepadAnalyzerError>,
    ) -> (r: Result<Arc<Session>, MakepadAnalyzerError>)
        requires
            old(self).wf(),
        ensures
            final(self).wf(),
            match created {
                Err(e) => r == Err::<Arc<Session>, MakepadAnalyzerError>(e)
                    && *final(self) == *old(self),
                Ok(session) => {
                    let before = old(self).cache_value();
                    let after = final(self).cache_value();
                    &&& r == Ok::<Arc<Session>, MakepadAnalyzerError>(Arc::new(session))
                    &&& final(self).projects() == old(self).projects()
                    &&& final(self).interval() == old(self).interval()
                    &&& final(self).is_stopped() == old(self).is_stopped()
                    &&& after.limit() == before.limit()
                    &&& after.sessions() == before.sessions_after_insert(
                        project_path@,
                        Arc::new(session),
                    )
                    &&& after.recency() == before.recency_after_insert(project_path@)
                },
            },
    {
        match created {
            Err(e) => Err(e),
            Ok(session) => {
                let handle = Arc::new(session);
                self.cache.insert(project_path, handle.clone());
                Ok(handle)
            },
        }
    }

    /// Marks the session of the project at `project_path` as no longer in
    /// use; the next sweep removes it.
    pub fn mark_session_inactived(&mut self, project_path: &str)
        requires
            old(self).wf(),
        ensures
            final(self).wf(),
            final(self).projects() == old(self).projects(),
            final(self).interval() == old(self).interval(),
            final(self).is_stopped() == old(self).is_stopped(),
            final(self).cache_value().limit() == old(self).cache_value().limit(),
            final(self).cache_value().recency() == old(self).cache_value().recency(),
            final(self).cache_value().sessions() == if old(self).cache_value().sessions().contains_key(
                project_path@,
            ) {
                old(self).cache_value().sessions().insert(
                    project_path@,
                    Arc::new(old(self).cache_value().sessions()[project_path@].deactivated()),
                )
            } else {
                old(self).cache_value().sessions()
            },
            old(self).cache_value().sessions().contains_key(project_path@) ==> {
                &&& !final(self).cache_value().sessions()[project_path@].active()
                &&& final(self).cache_value().sessions()[project_path@].documents_value() == old(
                    self).cache_value().sessions()[project_path@].documents_value()
                &&& final(self).cache_value().sessions()[project_path@].workspace_value() == old(
                    self).cache_value().sessions()[project_path@].workspace_value()
            },
    {
        self.cache.mark_session_inactived(project_path);
    }

    /// One turn of the task that sweeps the cache: when the interval has
    /// passed, every session that is no longer in use is removed and the task
    /// goes on; when the manager was stopped, nothing is removed and the task
    /// ends. The result tells whether the task goes on.
    pub fn auto_cleanup_sessions(&mut self, event: CleanupEvent) -> (goes_on: bool)
        requires
            old(self).wf(),
        ensures
            final(self).wf(),
            final(self).projects() == old(self).projects(),
            final(self).interval() == old(self).interval(),
            final(self).is_stopped() == old(self).is_stopped(),
            goes_on == (event == CleanupEvent::IntervalElapsed),
            event == CleanupEvent::Cancelled
                ==> final(self).cache_value() == old(self).cache_value(),
            event == CleanupEvent::IntervalElapsed ==> {
                let before = old(self).cache_value();
                let after = final(self).cache_value();
                &&& after.limit() == before.limit()
                &&& after.recency() == before.recency().filter(is_live(before.sessions()))
                &&& forall|k: Seq<char>| #[trigger]
                    after.sessions().contains_key(k) <==> before.sessions().contains_key(k)
                        && before.sessions()[k].active()
                &&& forall|k: Seq<char>| #[trigger]
                    after.sessions().contains_key(k) ==> after.sessions()[k]
                        == before.sessions()[k]
            },
    {
        match event {
            CleanupEvent::Cancelled => false,
            CleanupEvent::IntervalElapsed => {
                self.cache.cleanup_sessions();
                true
            },
        }
    }

    /// Stops the manager. The result tells whether the task that sweeps the
    /// cache is to be signalled: it is on the first call, and on no later one.
    pub fn stop(&mut self) -> (signal: bool)
        ensures
            final(self).is_stopped(),
            signal == !old(self).is_stopped(),
            final(self).cache_value() == old(self).cache_value(),
            final(self).projects() == old(self).projects(),
            final(self).interval() == old(self).interval(),
    {
        let signal = !self.stopped;
        self.stopped = true;
        signal
    }
}

/// The options with which a manager is made.
pub struct SessionManagerBuilder {
    pub cache_capacity: usize,
    pub auto_cleanup_interval: CleanupInterval,
}

impl SessionManagerBuilder {
    /// The default options: room for 7 sessions, a sweep every hour.
    pub fn new() -> (r: SessionManagerBuilder)
        ensures
            r.cache_capacity == DEFAULT_SESSION_CACHE_SIZE,
            r.auto_cleanup_interval == (CleanupInterval {
                secs: DEFAULT_AUTO_CLEANUP_INTERVAL_SECS,
                subsec_nanos: 0,
            }),
    {
        SessionManagerBuilder {
            cache_capacity: DEFAULT_SESSION_CACHE_SIZE,
            auto_cleanup_interval: CleanupInterval {
                secs: DEFAULT_AUTO_CLEANUP_INTERVAL_SECS,
                subsec_nanos: 0,
            },
        }
    }

    /// The same options, for `capacity` sessions.
    pub fn with_cache_capacity(self, capacity: usize) -> (r: SessionManagerBuilder)
        ensures
            r.cache_capacity == capacity,
            r.auto_cleanup_interval == self.auto_cleanup_interval,
    {
        let mut this = self;
        this.cache_capacity = capacity;
        this
    }

    /// The same options, with a sweep every `interval`.
    pub fn with_auto_cleanup_interval(self, interval: CleanupInterval) -> (r: SessionManagerBuilder)
        ensures
            r.cache_capacity == self.cache_capacity,
            r.auto_cleanup_interval == interval,
    {
        let mut this = self;
        this.auto_cleanup_interval = interval;
        this
    }

    /// A manager with these options: an empty cache and no project
    /// remembered, not stopped.
    pub fn build(self) -> (r: SessionManager)
        ensures
            r.wf(),
            !r.is_stopped(),
            r.interval() == self.auto_cleanup_interval,
            r.cache_value().limit() == self.cache_capacity,
            r.cache_value().sessions() == Map::<Seq<char>, Arc<Session>>::empty(),
            r.cache_value().recency() == Seq::<Seq<char>>::empty(),
            r.projects() == Map::<Seq<char>, Seq<char>>::empty(),
    {
        SessionManager::init(LRUSessionCache::new(self.cache_capacity), self.auto_cleanup_interval)
    }
}

} // verus!
