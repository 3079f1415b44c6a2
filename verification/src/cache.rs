//! A bounded cache of sessions, by project path.
//!
//! The cache keeps its keys in order of use, the most recently used first.
//! A new session that finds the cache full takes the place of the least
//! recently used one. Independently of it, a sweep removes every session that
//! was marked as no longer in use, wherever it stands in that order.

use dashmap::DashMap;
use std::collections::VecDeque;
use std::sync::Arc;
use vstd::prelude::*;
use vstd::string::*;
use crate::session::Session;
use crate::text::str_eq;

verus! {

/// The sessions that a map holds, each under the text of its key.
pub uninterp spec fn cached_sessions(table: DashMap<String, Arc<Session>>) -> Map<
    Seq<char>,
    Arc<Session>,
>;

/// `DashMap::new`: the map it makes holds nothing.
#[verifier::external_body]
fn session_map_new() -> (r: DashMap<String, Arc<Session>>)
    ensures
        cached_sessions(r) == (Map::<Seq<char>, Arc<Session>>::empty()),
{
    DashMap::new()
}

/// `DashMap::len`: the number of entries.
#[verifier::external_body]
fn session_map_len(table: &DashMap<String, Arc<Session>>) -> (r: usize)
    ensures
        r == cached_sessions(*table).len(),
{
    table.len()
}

/// `DashMap::try_get`: a handle to the session under `key`, if the map holds
/// one. No entry of the map is locked while a caller holds the map itself by
/// reference, so the lookup is never refused.
#[verifier::external_body]
fn session_map_get(table: &DashMap<String, Arc<Session>>, key: &str) -> (r: Option<Arc<Session>>)
    ensures
        r == if cached_sessions(*table).contains_key(key@) {
            Some(cached_sessions(*table)[key@])
        } else {
            None::<Arc<Session>>
        },
{
    table.try_get(key).try_unwrap().map(|entry| entry.value().clone())
}

/// `DashMap::insert`: the map then holds `value` under `key` and is otherwise
/// unchanged; the value that was under `key` before, if any, is returned.
#[verifier::external_body]
fn session_map_insert(
    table: &mut DashMap<String, Arc<Session>>,
    key: String,
    value: Arc<Session>,
) -> (r: Option<Arc<Session>>)
    ensures
        cached_sessions(*final(table)) == cached_sessions(*old(table)).insert(key@, value),
        r == if cached_sessions(*old(table)).contains_key(key@) {
            Some(cached_sessions(*old(table))[key@])
        } else {
            None::<Arc<Session>>
        },
{
    table.insert(key, value)
}

/// `DashMap::remove`: the map no longer holds an entry under `key` and is
/// otherwise unchanged; the value that was under `key`, if any, is returned.
#[verifier::external_body]
fn session_map_remove(table: &mut DashMap<String, Arc<Session>>, key: &str) -> (r: Option<
    Arc<Session>,
>)
    ensures
        cached_sessions(*final(table)) == cached_sessions(*old(table)).remove(key@),
        r == if cached_sessions(*old(table)).contains_key(key@) {
            Some(cached_sessions(*old(table))[key@])
        } else {
            None::<Arc<Session>>
        },
{
    table.remove(key).map(|entry| entry.1)
}

/// `Arc::unwrap_or_clone`: the session behind a handle, taken out of it where
/// the handle is the only one, and copied otherwise. A copy holds what the
/// session holds.
#[verifier::external_body]
fn session_of(handle: Arc<Session>) -> (r: Session)
    ensures
        r == *handle,
{
    Arc::unwrap_or_clone(handle)
}

/// The texts of a sequence of keys.
pub open spec fn key_texts(keys: Seq<String>) -> Seq<Seq<char>> {
    keys.map_values(|key: String| key@)
}

/// An order of use without the first `key` in it.
pub open spec fn without(order: Seq<Seq<char>>, key: Seq<char>) -> Seq<Seq<char>>
    decreases order.len(),
{
    if order.len() == 0 {
        order
    } else if order[0] == key {
        order.drop_first()
    } else {
        seq![order[0]] + without(order.drop_first(), key)
    }
}

/// An order of use after `key` was used: `key` first, the others as they were.
pub open spec fn touched(order: Seq<Seq<char>>, key: Seq<char>) -> Seq<Seq<char>> {
    seq![key] + without(order, key)
}

/// The keys under which `sessions` holds a session that is still in use.
pub open spec fn is_live(sessions: Map<Seq<char>, Arc<Session>>) -> spec_fn(Seq<char>) -> bool {
    |key: Seq<char>| sessions.contains_key(key) && sessions[key].active()
}

/// The keys under which `sessions` holds a session that is no longer in use.
pub open spec fn is_dead(sessions: Map<Seq<char>, Arc<Session>>) -> spec_fn(Seq<char>) -> bool {
    |key: Seq<char>| sessions.contains_key(key) && !sessions[key].active()
}

/// Removing the element at the first place where `key` stands gives the order
/// without `key`.
pub proof fn lemma_remove_first(order: Seq<Seq<char>>, key: Seq<char>, at: int)
    requires
        0 <= at < order.len(),
        order[at] == key,
        forall|j: int| 0 <= j < at ==> order[j] != key,
    ensures
        order.remove(at) == without(order, key),
    decreases at,
{
    if at == 0 {
        assert(order.remove(0) =~= order.drop_first());
    } else {
        lemma_remove_first(order.drop_first(), key, at - 1);
        assert(order.remove(at) =~= seq![order[0]] + order.drop_first().remove(at - 1));
    }
}

/// An order that does not hold `key` is itself without `key`.
pub proof fn lemma_without_absent(order: Seq<Seq<char>>, key: Seq<char>)
    requires
        !order.contains(key),
    ensures
        without(order, key) == order,
    decreases order.len(),
{
    if order.len() > 0 {
        assert(order[0] != key);
        assert forall|k: Seq<char>| order.drop_first().contains(k) implies order.contains(k) by {
            let i = choose|i: int| 0 <= i < order.drop_first().len() && order.drop_first()[i] == k;
            assert(order[i + 1] == k);
        }
        lemma_without_absent(order.drop_first(), key);
        assert(seq![order[0]] + order.drop_first() =~= order);
    }
}

/// What the order without `key` holds: each key of the order but `key`, once.
pub proof fn lemma_without(order: Seq<Seq<char>>, key: Seq<char>)
    requires
        order.no_duplicates(),
    ensures
        without(order, key).no_duplicates(),
        !without(order, key).contains(key),
        forall|k: Seq<char>|
            #[trigger] without(order, key).contains(k) <==> order.contains(k) && k != key,
        without(order, key).len() == if order.contains(key) {
            order.len() - 1
        } else {
            order.len() as int
        },
    decreases order.len(),
{
    let out = without(order, key);
    if order.len() == 0 {
    } else {
        let rest = order.drop_first();
        assert forall|k: Seq<char>| rest.contains(k) <==> order.contains(k) && k != order[0] by {
            if rest.contains(k) {
                let i = choose|i: int| 0 <= i < rest.len() && rest[i] == k;
                assert(order[i + 1] == k);
            }
            if order.contains(k) && k != order[0] {
                let i = choose|i: int| 0 <= i < order.len() && order[i] == k;
                assert(rest[i - 1] == k);
            }
        }
        if order[0] == key {
        } else {
            lemma_without(rest, key);
            let inner = without(rest, key);
            assert(out == seq![order[0]] + inner);
            assert forall|k: Seq<char>| #[trigger] out.contains(k) <==> order.contains(k) && k
                != key by {
                if out.contains(k) {
                    let i = choose|i: int| 0 <= i < out.len() && out[i] == k;
                    if i > 0 {
                        assert(inner[i - 1] == k);
                        assert(inner.contains(k));
                        assert(rest.contains(k));
                        assert(order.contains(k) && k != key);
                    } else {
                        assert(order[0] == k);
                        assert(order.contains(k) && k != key);
                    }
                }
                if order.contains(k) && k != key {
                    if k == order[0] {
                        assert(out[0] == k);
                        assert(out.contains(k));
                    } else {
                        assert(rest.contains(k));
                        assert(inner.contains(k));
                        let i = choose|i: int| 0 <= i < inner.len() && inner[i] == k;
                        assert(out[i + 1] == k);
                        assert(out.contains(k));
                    }
                }
            }
            assert forall|i: int, j: int| 0 <= i < j < out.len() implies out[i] != out[j] by {
                if i == 0 {
                    assert(inner[j - 1] == out[j]);
                    assert(inner.contains(out[j]));
                } else {
                    assert(inner[i - 1] == out[i]);
                    assert(inner[j - 1] == out[j]);
                }
            }
            if order.contains(key) {
                assert(rest.contains(key));
            }
        }
    }
}

/// What the order holds after `key` was used: `key`, and each other key of
/// the order, once.
pub proof fn lemma_touched(order: Seq<Seq<char>>, key: Seq<char>)
    requires
        order.no_duplicates(),
    ensures
        touched(order, key).no_duplicates(),
        touched(order, key)[0] == key,
        forall|k: Seq<char>| #[trigger] touched(order, key).contains(k) <==> order.contains(k)
            || k == key,
        touched(order, key).len() == if order.contains(key) {
            order.len() as int
        } else {
            (order.len() + 1) as int
        },
{
    lemma_without(order, key);
    let inner = without(order, key);
    let out = touched(order, key);
    assert forall|k: Seq<char>| #[trigger] out.contains(k) <==> order.contains(k) || k == key by {
        if out.contains(k) {
            let i = choose|i: int| 0 <= i < out.len() && out[i] == k;
            if i > 0 {
                assert(inner[i - 1] == k);
                assert(inner.contains(k));
                assert(order.contains(k));
            } else {
                assert(k == key);
            }
        }
        if k == key {
            assert(out[0] == k);
            assert(out.contains(k));
        } else if order.contains(k) {
            assert(inner.contains(k));
            let i = choose|i: int| 0 <= i < inner.len() && inner[i] == k;
            assert(out[i + 1] == k);
            assert(out.contains(k));
        }
    }
    assert forall|i: int, j: int| 0 <= i < j < out.len() implies out[i] != out[j] by {
        if i == 0 {
            assert(inner[j - 1] == out[j]);
            assert(inner.contains(out[j]));
        } else {
            assert(inner[i - 1] == out[i]);
            assert(inner[j - 1] == out[j]);
        }
    }
}

/// The session that `sessions` holds under `key`, if any.
pub open spec fn lookup(sessions: Map<Seq<char>, Arc<Session>>, key: Seq<char>) -> Option<
    Arc<Session>,
> {
    if sessions.contains_key(key) {
        Some(sessions[key])
    } else {
        None
    }
}

/// The first place at which `key` stands in `order`.
fn position(order: &VecDeque<String>, key: &str) -> (r: Option<usize>)
    ensures
        match r {
            Some(at) => at < order@.len() && key_texts(order@)[at as int] == key@ && forall|j: int|
                0 <= j < at ==> key_texts(order@)[j] != key@,
            None => !key_texts(order@).contains(key@),
        },
{
    let n = order.len();
    let mut i: usize = 0;
    while i < n
        invariant
            i <= n,
            n == order@.len(),
            forall|j: int| 0 <= j < i ==> key_texts(order@)[j] != key@,
        decreases n - i,
    {
        if str_eq(order[i].as_str(), key) {
            return Some(i);
        }
        i = i + 1;
    }
    None
}

/// Whether `key` stands in `keys`.
fn holds_key(keys: &Vec<String>, key: &str) -> (r: bool)
    ensures
        r == key_texts(keys@).contains(key@),
{
    let n = keys.len();
    let mut i: usize = 0;
    while i < n
        invariant
            i <= n,
            n == keys@.len(),
            forall|j: int| 0 <= j < i ==> key_texts(keys@)[j] != key@,
        decreases n - i,
    {
        if str_eq(keys[i].as_str(), key) {
            assert(key_texts(keys@)[i as int] == key@);
            return true;
        }
        i = i + 1;
    }
    false
}

/// A bounded cache of sessions with an order of use.
#[derive(Debug)]
pub struct LRUSessionCache {
    sessions: DashMap<String, Arc<Session>>,
    usage_order: VecDeque<String>,
    capacity: usize,
}

impl LRUSessionCache {
    /// The sessions held, each under the path of its project.
    pub closed spec fn sessions(&self) -> Map<Seq<char>, Arc<Session>> {
        cached_sessions(self.sessions)
    }

    /// The paths held, the most recently used first.
    pub closed spec fn recency(&self) -> Seq<Seq<char>> {
        key_texts(self.usage_order@)
    }

    /// The number of sessions that the cache is meant to hold.
    pub closed spec fn limit(&self) -> nat {
        self.capacity as nat
    }

    /// The order of use names each path held exactly once and no other, and
    /// the cache holds no more sessions than its limit; a cache with limit 0
    /// may hold one.
    pub open spec fn wf(&self) -> bool {
        &&& self.sessions().dom().finite()
        &&& self.recency().no_duplicates()
        &&& forall|k: Seq<char>|
            #![trigger self.sessions().contains_key(k)]
            #![trigger self.recency().contains(k)]
            self.sessions().contains_key(k) <==> self.recency().contains(k)
        &&& self.sessions().len() == self.recency().len()
        &&& (self.sessions().len() <= self.limit() || self.sessions().len() <= 1)
    }

    /// Whether a new path would take the place of the least recently used one.
    pub open spec fn evicts(&self) -> bool {
        self.sessions().len() >= self.limit() && self.recency().len() > 0
    }

    /// The sessions held after a session was put under `path`: it stands
    /// under `path`; where `path` is new and the cache is full, the least
    /// recently used session has left.
    pub open spec fn sessions_after_insert(&self, path: Seq<char>, session: Arc<Session>) -> Map<
        Seq<char>,
        Arc<Session>,
    > {
        if !self.sessions().contains_key(path) && self.evicts() {
            self.sessions().remove(self.recency().last()).insert(path, session)
        } else {
            self.sessions().insert(path, session)
        }
    }

    /// The order of use after a session was put under `path`: `path` comes
    /// first; where `path` is new and the cache is full, the last path has
    /// left.
    pub open spec fn recency_after_insert(&self, path: Seq<char>) -> Seq<Seq<char>> {
        if self.sessions().contains_key(path) {
            touched(self.recency(), path)
        } else if self.evicts() {
            seq![path] + self.recency().drop_last()
        } else {
            seq![path] + self.recency()
        }
    }

    /// An empty cache for `capacity` sessions.
    pub fn new(capacity: usize) -> (r: LRUSessionCache)
        ensures
            r.wf(),
            r.limit() == capacity,
            r.sessions() == Map::<Seq<char>, Arc<Session>>::empty(),
            r.recency() == Seq::<Seq<char>>::empty(),
    {
        let r = LRUSessionCache {
            sessions: session_map_new(),
            usage_order: VecDeque::with_capacity(capacity),
            capacity,
        };
        assert(r.recency() =~= Seq::<Seq<char>>::empty());
        r
    }

    /// The number of sessions held.
    pub fn len(&self) -> (r: usize)
        ensures
            r == self.sessions().len(),
    {
        session_map_len(&self.sessions)
    }

    /// The number of sessions that the cache is meant to hold.
    pub fn capacity(&self) -> (r: usize)
        ensures
            r == self.limit(),
    {
        self.capacity
    }

    /// The paths and sessions held, the most recently used first.
    pub fn iter(&self) -> (r: Vec<(String, Arc<Session>)>)
        requires
            self.wf(),
        ensures
            r@.len() == self.recency().len(),
            forall|i: int|
                0 <= i < r@.len() ==> (#[trigger] r@[i]).0@ == self.recency()[i] && r@[i].1
                    == self.sessions()[self.recency()[i]],
    {
        let mut out: Vec<(String, Arc<Session>)> = Vec::new();
        let n = self.usage_order.len();
        let mut i: usize = 0;
        while i < n
            invariant
                i <= n,
                n == self.usage_order@.len(),
                self.wf(),
                out@.len() == i,
                forall|j: int|
                    0 <= j < i ==> (#[trigger] out@[j]).0@ == self.recency()[j] && out@[j].1
                        == self.sessions()[self.recency()[j]],
            decreases n - i,
        {
            let key = self.usage_order[i].clone();
            assert(self.recency()[i as int] == key@);
            assert(self.recency().contains(key@));
            match session_map_get(&self.sessions, key.as_str()) {
                Some(session) => {
                    out.push((key, session));
                },
                None => {
                    assert(false);
                },
            }
            i = i + 1;
        }
        out
    }

    /// The session under `path`. Where the cache holds as many sessions as
    /// its limit or more, a session that is found also becomes the most
    /// recently used.
    pub fn get(&mut self, path: &str) -> (r: Option<Arc<Session>>)
        requires
            old(self).wf(),
        ensures
            final(self).wf(),
            final(self).limit() == old(self).limit(),
            final(self).sessions() == old(self).sessions(),
            r == lookup(old(self).sessions(), path@),
            final(self).recency() == if old(self).sessions().contains_key(path@)
                && old(self).sessions().len() >= old(self).limit() {
                touched(old(self).recency(), path@)
            } else {
                old(self).recency()
            },
    {
        match session_map_get(&self.sessions, path) {
            Some(session) => {
                if session_map_len(&self.sessions) >= self.capacity {
                    proof {
                        lemma_touched(self.recency(), path@);
                    }
                    self.move_to_front(path);
                }
                Some(session)
            },
            None => None,
        }
    }

    /// Puts `session` under `path`, as the most recently used. A session that
    /// was held under `path` is replaced. Otherwise, where the cache holds as
    /// many sessions as its limit or more, the least recently used one leaves.
    pub fn insert(&mut self, path: String, session: Arc<Session>)
        requires
            old(self).wf(),
        ensures
            final(self).wf(),
            final(self).limit() == old(self).limit(),
            final(self).sessions() == old(self).sessions_after_insert(path@, session),
            final(self).recency() == old(self).recency_after_insert(path@),
    {
        if session_map_get(&self.sessions, path.as_str()).is_some() {
            let key = path.clone();
            let _ = session_map_insert(&mut self.sessions, key, session);
            proof {
                lemma_touched(self.recency(), path@);
                assert(self.sessions().dom() =~= old(self).sessions().dom());
            }
            self.move_to_front(path.as_str());
        } else {
            let ghost before = self.recency();
            if session_map_len(&self.sessions) >= self.capacity {
                proof {
                    if before.len() > 0 {
                        lemma_drop_last_contains(before);
                    }
                }
                self.evict_least_recently_used();
            }
            let ghost kept = self.recency();
            let ghost held = self.sessions();
            assert forall|k: Seq<char>| held.contains_key(k) <==> kept.contains(k) by {
                assert(old(self).sessions().contains_key(k) <==> before.contains(k));
            }
            assert(held.dom().finite());
            assert(held.len() == kept.len());
            let key = path.clone();
            let _ = session_map_insert(&mut self.sessions, key, session);
            self.usage_order.push_front(path);
            proof {
                let now = self.recency();
                assert(now =~= seq![path@] + kept);
                assert(!kept.contains(path@)) by {
                    if kept.contains(path@) {
                        let i = choose|i: int| 0 <= i < kept.len() && kept[i] == path@;
                        assert(before[i] == path@);
                        assert(before.contains(path@));
                    }
                }
                assert forall|i: int, j: int| 0 <= i < j < now.len() implies now[i] != now[j] by {
                    if i == 0 {
                        assert(kept[j - 1] == now[j]);
                        assert(kept.contains(now[j]));
                    } else {
                        assert(kept[i - 1] == now[i]);
                        assert(kept[j - 1] == now[j]);
                    }
                }
                assert forall|k: Seq<char>|
                    #![trigger self.sessions().contains_key(k)]
                    #![trigger self.recency().contains(k)]
                    self.sessions().contains_key(k) <==> self.recency().contains(k) by {
                    assert(self.sessions().contains_key(k) <==> k == path@ || held.contains_key(k));
                    if now.contains(k) {
                        let i = choose|i: int| 0 <= i < now.len() && now[i] == k;
                        if i > 0 {
                            assert(kept[i - 1] == k);
                            assert(kept.contains(k));
                        }
                    }
                    if k == path@ {
                        assert(now[0] == k);
                    } else if kept.contains(k) {
                        let i = choose|i: int| 0 <= i < kept.len() && kept[i] == k;
                        assert(now[i + 1] == k);
                    }
                }
            }
        }
    }

    /// Removes every session that is marked as no longer in use, wherever it
    /// stands in the order of use. The other sessions keep their order.
    pub fn cleanup_sessions(&mut self)
        requires
            old(self).wf(),
        ensures
            final(self).wf(),
            final(self).limit() == old(self).limit(),
            final(self).recency() == old(self).recency().filter(is_live(old(self).sessions())),
            forall|k: Seq<char>| #[trigger]
                final(self).sessions().contains_key(k) <==> old(self).sessions().contains_key(k)
                    && old(self).sessions()[k].active(),
            forall|k: Seq<char>| #[trigger]
                final(self).sessions().contains_key(k)
                    ==> final(self).sessions()[k] == old(self).sessions()[k],
    {
        broadcast use {
            Seq::lemma_filter_push,
            Seq::lemma_filter_contains,
            Seq::lemma_filter_contains_rev,
            Seq::lemma_filter_pred,
        };

        let inactive_sessions = self.collect_inactive_sessions();
        let ghost dead = key_texts(inactive_sessions@);
        let ghost live = is_live(old(self).sessions());
        proof {
            assert(dead == old(self).recency().filter(is_dead(old(self).sessions())));
            assert forall|k: Seq<char>| dead.contains(k) <==> old(self).sessions().contains_key(k)
                && !old(self).sessions()[k].active() by {
                if dead.contains(k) {
                    let i = choose|i: int| 0 <= i < dead.len() && dead[i] == k;
                    assert(is_dead(old(self).sessions())(dead[i]));
                }
                if old(self).sessions().contains_key(k) && !old(self).sessions()[k].active() {
                    assert(old(self).recency().contains(k));
                    assert(is_dead(old(self).sessions())(k));
                }
            }
        }
        if inactive_sessions.len() == 0 {
            proof {
                let order = old(self).recency();
                assert forall|i: int| 0 <= i < order.len() implies live(#[trigger] order[i]) by {
                    assert(order.contains(order[i]));
                    assert(!dead.contains(order[i]));
                }
                lemma_filter_all(order, live);
            }
            return ;
        }
        // Remove inactive sessions

        let n = inactive_sessions.len();
        let mut i: usize = 0;
        while i < n
            invariant
                i <= n,
                n == inactive_sessions@.len(),
                dead == key_texts(inactive_sessions@),
                self.usage_order == old(self).usage_order,
                self.capacity == old(self).capacity,
                self.sessions().dom().finite(),
                forall|k: Seq<char>| #[trigger]
                    self.sessions().contains_key(k) <==> old(self).sessions().contains_key(k)
                        && !dead.take(i as int).contains(k),
                forall|k: Seq<char>| #[trigger]
                    self.sessions().contains_key(k)
                        ==> self.sessions()[k] == old(self).sessions()[k],
            decreases n - i,
        {
            let ghost held = self.sessions();
            let _ = session_map_remove(&mut self.sessions, inactive_sessions[i].as_str());
            proof {
                let gone = dead[i as int];
                let done = dead.take(i as int);
                let next = dead.take(i + 1);
                assert(next =~= done.push(gone));
                assert forall|k: Seq<char>| #[trigger]
                    self.sessions().contains_key(k) <==> old(self).sessions().contains_key(k)
                        && !next.contains(k) by {
                    assert(self.sessions().contains_key(k) <==> held.contains_key(k) && k != gone);
                    if next.contains(k) {
                        let j = choose|j: int| 0 <= j < next.len() && next[j] == k;
                        if j < i {
                            assert(done[j] == k);
                        }
                    }
                    if done.contains(k) {
                        let j = choose|j: int| 0 <= j < done.len() && done[j] == k;
                        assert(next[j] == k);
                    }
                    if k == gone {
                        assert(next[i as int] == k);
                    }
                }
            }
            i = i + 1;
        }
        // Remove inactive sessions from usage order

        let m = self.usage_order.len();
        let mut kept: VecDeque<String> = VecDeque::new();
        let mut j: usize = 0;
        assert(dead.take(n as int) =~= dead);
        assert(old(self).recency().take(0) =~= Seq::<Seq<char>>::empty());
        assert(key_texts(kept@) =~= Seq::<Seq<char>>::empty());
        proof {
            reveal(Seq::filter);
        }
        while j < m
            invariant
                j <= m,
                m == self.usage_order@.len(),
                self.usage_order == old(self).usage_order,
                old(self).wf(),
                live == is_live(old(self).sessions()),
                dead == key_texts(inactive_sessions@),
                forall|k: Seq<char>|
                    dead.contains(k) <==> old(self).sessions().contains_key(k)
                        && !old(self).sessions()[k].active(),
                key_texts(kept@) == old(self).recency().take(j as int).filter(live),
            decreases m - j,
        {
            let ghost order = old(self).recency();
            let ghost key = order[j as int];
            assert(self.usage_order@[j as int]@ == key);
            assert(order.contains(key));
            assert(old(self).sessions().contains_key(key));
            assert(order.take(j + 1) =~= order.take(j as int).push(key));
            proof {
                order.take(j as int).lemma_filter_push(key, live);
            }
            if !holds_key(&inactive_sessions, self.usage_order[j].as_str()) {
                assert(live(key));
                let ghost before = kept@;
                kept.push_back(self.usage_order[j].clone());
                assert(key_texts(kept@) =~= key_texts(before).push(key));
            } else {
                assert(!live(key));
            }
            j = j + 1;
        }
        self.usage_order = kept;
        proof {
            let order = old(self).recency();
            let now = self.recency();
            assert(order.take(m as int) =~= order);
            lemma_filter_keeps_order(order, live);
            assert forall|k: Seq<char>|
                #![trigger self.sessions().contains_key(k)]
                #![trigger self.recency().contains(k)]
                self.sessions().contains_key(k) <==> self.recency().contains(k) by {
                if now.contains(k) {
                    let i = choose|i: int| 0 <= i < now.len() && now[i] == k;
                    assert(live(now[i]));
                }
                if self.sessions().contains_key(k) {
                    assert(order.contains(k));
                    assert(live(k));
                }
            }
            now.unique_seq_to_set();
            assert(now.to_set() =~= self.sessions().dom());
            order.unique_seq_to_set();
            assert(order.to_set() =~= old(self).sessions().dom());
        }
    }

    /// Marks the session under `path` as no longer in use. It stays in the
    /// cache, at its place in the order of use, with its documents and
    /// directories; the other sessions are as they were.
    pub fn mark_session_inactived(&mut self, path: &str)
        requires
            old(self).wf(),
        ensures
            final(self).wf(),
            final(self).limit() == old(self).limit(),
            final(self).recency() == old(self).recency(),
            final(self).sessions() == if old(self).sessions().contains_key(path@) {
                old(self).sessions().insert(
                    path@,
                    Arc::new(old(self).sessions()[path@].deactivated()),
                )
            } else {
                old(self).sessions()
            },
            old(self).sessions().contains_key(path@) ==> {
                &&& !final(self).sessions()[path@].active()
                &&& final(self).sessions()[path@].documents_value() == old(
                    self).sessions()[path@].documents_value()
                &&& final(self).sessions()[path@].workspace_value() == old(
                    self).sessions()[path@].workspace_value()
            },
    {
        proof {
            if self.sessions().contains_key(path@) {
                self.sessions()[path@].lemma_deactivated();
            }
        }
        match session_map_remove(&mut self.sessions, path) {
            Some(handle) => {
                let mut session = session_of(handle);
                session.mark_inactived();
                let _ = session_map_insert(&mut self.sessions, path.to_owned(), Arc::new(session));
                proof {
                    assert(self.sessions() =~= old(self).sessions().insert(
                        path@,
                        Arc::new(old(self).sessions()[path@].deactivated()),
                    ));
                    assert(self.sessions().dom() =~= old(self).sessions().dom());
                }
            },
            None => {
                assert(self.sessions() =~= old(self).sessions());
            },
        }
    }

    /// The paths of the sessions that are marked as no longer in use, in
    /// order of use.
    pub fn collect_inactive_sessions(&self) -> (r: Vec<String>)
        requires
            self.wf(),
        ensures
            key_texts(r@) == self.recency().filter(is_dead(self.sessions())),
    {
        broadcast use Seq::lemma_filter_push;

        let mut out: Vec<String> = Vec::new();
        let n = self.usage_order.len();
        let mut i: usize = 0;
        let ghost dead = is_dead(self.sessions());
        proof {
            reveal(Seq::filter);
        }
        assert(self.recency().take(0) =~= Seq::<Seq<char>>::empty());
        assert(key_texts(out@) =~= Seq::<Seq<char>>::empty());
        while i < n
            invariant
                i <= n,
                n == self.usage_order@.len(),
                self.wf(),
                dead == is_dead(self.sessions()),
                key_texts(out@) == self.recency().take(i as int).filter(dead),
            decreases n - i,
        {
            let ghost key = self.recency()[i as int];
            assert(self.usage_order@[i as int]@ == key);
            assert(self.recency().contains(key));
            assert(self.recency().take(i + 1) =~= self.recency().take(i as int).push(key));
            proof {
                self.recency().take(i as int).lemma_filter_push(key, dead);
            }
            match session_map_get(&self.sessions, self.usage_order[i].as_str()) {
                Some(session) => {
                    if !session.status() {
                        assert(dead(key));
                        let ghost before = out@;
                        out.push(self.usage_order[i].clone());
                        assert(key_texts(out@) =~= key_texts(before).push(key));
                    } else {
                        assert(!dead(key));
                    }
                },
                None => {
                    assert(!dead(key));
                },
            }
            i = i + 1;
        }
        assert(self.recency().take(n as int) =~= self.recency());
        out
    }

    /// Makes `path` the most recently used.
    fn move_to_front(&mut self, path: &str)
        ensures
            final(self).recency() == touched(old(self).recency(), path@),
            final(self).sessions() == old(self).sessions(),
            final(self).limit() == old(self).limit(),
    {
        match position(&self.usage_order, path) {
            Some(index) => {
                let ghost before = self.usage_order@;
                let _ = self.usage_order.remove(index);
                proof {
                    assert(key_texts(self.usage_order@) =~= key_texts(before).remove(index as int));
                    lemma_remove_first(key_texts(before), path@, index as int);
                }
            },
            None => {
                proof {
                    lemma_without_absent(self.recency(), path@);
                }
            },
        }
        let ghost kept = self.usage_order@;
        self.usage_order.push_front(path.to_owned());
        assert(key_texts(self.usage_order@) =~= seq![path@] + key_texts(kept));
    }

    /// Takes the least recently used session out of the cache.
    fn evict_least_recently_used(&mut self)
        requires
            old(self).wf(),
        ensures
            final(self).limit() == old(self).limit(),
            old(self).recency().len() == 0 ==> final(self).recency() == old(self).recency()
                && final(self).sessions() == old(self).sessions(),
            old(self).recency().len() > 0
                ==> final(self).recency() == old(self).recency().drop_last()
                && final(self).sessions() == old(self).sessions().remove(
                old(self).recency().last(),
            ),
    {
        let ghost before = self.usage_order@;
        match self.usage_order.pop_back() {
            Some(old_path) => {
                let _ = session_map_remove(&mut self.sessions, old_path.as_str());
                assert(key_texts(self.usage_order@) =~= key_texts(before).drop_last());
            },
            None => {},
        }
    }
}

/// A cache made for at least one session never holds more sessions than it
/// was made for, and its order of use names each path held exactly once.
pub proof fn lemma_cache_is_bounded(cache: LRUSessionCache)
    requires
        cache.wf(),
        cache.limit() >= 1,
    ensures
        cache.sessions().len() <= cache.limit(),
        cache.recency().no_duplicates(),
        cache.recency().to_set() == cache.sessions().dom(),
{
    assert(cache.recency().to_set() =~= cache.sessions().dom());
}

/// A new path that is put into a full cache takes the place of the least
/// recently used one, and of no other: the paths held afterwards are those
/// held before without the last of the order of use, and the new one. The
/// cache holds as many sessions as before.
pub proof fn lemma_insert_evicts_least_recent(
    cache: LRUSessionCache,
    path: Seq<char>,
    session: Arc<Session>,
)
    requires
        cache.wf(),
        cache.limit() >= 1,
        cache.sessions().len() == cache.limit(),
        !cache.sessions().contains_key(path),
    ensures
        cache.evicts(),
        cache.sessions().contains_key(cache.recency().last()),
        !cache.sessions_after_insert(path, session).contains_key(cache.recency().last()),
        forall|k: Seq<char>| #[trigger]
            cache.sessions_after_insert(path, session).contains_key(k) <==> k == path || (
            cache.sessions().contains_key(k) && k != cache.recency().last()),
        forall|k: Seq<char>|
            k != path && #[trigger] cache.sessions_after_insert(path, session).contains_key(k)
                ==> cache.sessions_after_insert(path, session)[k] == cache.sessions()[k],
        cache.sessions_after_insert(path, session)[path] == session,
        cache.sessions_after_insert(path, session).len() == cache.limit(),
        cache.recency_after_insert(path)[0] == path,
{
    let order = cache.recency();
    let last = order.last();
    assert(order[order.len() - 1] == last);
    assert(order.contains(last));
    assert(cache.sessions().contains_key(last));
    assert(last != path);
    let rest = cache.sessions().remove(last);
    assert(rest.dom() =~= cache.sessions().dom().remove(last));
    assert(rest.insert(path, session).dom() =~= rest.dom().insert(path));
}

/// What an order free of repetition holds without its last key.
pub proof fn lemma_drop_last_contains(order: Seq<Seq<char>>)
    requires
        order.no_duplicates(),
        order.len() > 0,
    ensures
        order.drop_last().no_duplicates(),
        forall|k: Seq<char>| #[trigger]
            order.drop_last().contains(k) <==> order.contains(k) && k != order.last(),
{
    let rest = order.drop_last();
    assert forall|k: Seq<char>| #[trigger] rest.contains(k) <==> order.contains(k) && k
        != order.last() by {
        if rest.contains(k) {
            let i = choose|i: int| 0 <= i < rest.len() && rest[i] == k;
            assert(order[i] == k);
        }
        if order.contains(k) && k != order.last() {
            let i = choose|i: int| 0 <= i < order.len() && order[i] == k;
            assert(rest[i] == k);
        }
    }
}

/// A filter that every element passes changes nothing.
pub proof fn lemma_filter_all(order: Seq<Seq<char>>, pred: spec_fn(Seq<char>) -> bool)
    requires
        forall|i: int| 0 <= i < order.len() ==> pred(#[trigger] order[i]),
    ensures
        order.filter(pred) == order,
    decreases order.len(),
{
    reveal(Seq::filter);
    if order.len() > 0 {
        lemma_filter_all(order.drop_last(), pred);
        assert(order.drop_last().push(order.last()) =~= order);
    }
}

/// A filter keeps an order free of repetition so.
pub proof fn lemma_filter_keeps_order(order: Seq<Seq<char>>, pred: spec_fn(Seq<char>) -> bool)
    requires
        order.no_duplicates(),
    ensures
        order.filter(pred).no_duplicates(),
    decreases order.len(),
{
    reveal(Seq::filter);
    broadcast use Seq::lemma_filter_contains_rev;

    if order.len() > 0 {
        let rest = order.drop_last();
        lemma_filter_keeps_order(rest, pred);
        let inner = rest.filter(pred);
        if pred(order.last()) {
            let out = inner.push(order.last());
            assert forall|i: int, j: int| 0 <= i < j < out.len() implies out[i] != out[j] by {
                if j == out.len() - 1 {
                    assert(inner.contains(inner[i]));
                    if inner[i] == order.last() {
                        assert(rest.contains(order.last()));
                        let k = choose|k: int| 0 <= k < rest.len() && rest[k] == order.last();
                        assert(order[k] == order[order.len() - 1]);
                    }
                }
            }
        }
    }
}

} // verus!
