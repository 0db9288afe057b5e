//! The relay's two concurrent maps, kept in `dashmap::DashMap`: sessions by local
//! client address and the route from a remote server address back to the local
//! client. Addresses are held in their textual form (`ip:port`).

use vstd::prelude::*;
use dashmap::DashMap;
use std::collections::hash_map::RandomState;

verus! {

/// Tracks one relay session: the remote server that a local client talks to and
/// when the client or its server was last heard from (nanoseconds on the relay's
/// monotonic clock).
pub struct Session {
    pub _remote_addr: String,
    pub last_active: u64,
}

#[verifier::external_type_specification]
#[verifier::external_body]
#[verifier::reject_recursive_types(K)]
#[verifier::reject_recursive_types(V)]
#[verifier::reject_recursive_types(S)]
pub struct ExDashMap<K, V, S>(DashMap<K, V, S>);

/// Session timeout: a session idle this many whole seconds is dropped.
pub const SESSION_TIMEOUT_SECS: u64 = 30;

/// Nanoseconds per second.
pub const NANOS_PER_SEC: u64 = 1_000_000_000;

/// Whether a session last active at `last_active` is still alive at `now`: fewer
/// than `SESSION_TIMEOUT_SECS` whole seconds have passed (none when `now` is the
/// earlier of the two, as `Instant::duration_since` saturates).
pub open spec fn is_fresh(now: u64, last_active: u64) -> bool {
    (if now >= last_active {
        now - last_active
    } else {
        0
    }) / (NANOS_PER_SEC as int) < SESSION_TIMEOUT_SECS
}

/// Whether a session is still alive at `now`.
pub fn session_is_fresh(now: u64, last_active: u64) -> (b: bool)
    ensures
        b == is_fresh(now, last_active),
{
    let idle = if now >= last_active {
        now - last_active
    } else {
        0
    };
    idle / NANOS_PER_SEC < SESSION_TIMEOUT_SECS
}

/// What the session map holds: for each local client address, the remote server
/// address and the last activity time.
pub uninterp spec fn session_entries(m: DashMap<String, Session, RandomState>) -> Map<
    Seq<char>,
    (Seq<char>, u64),
>;

/// What the route map holds: for each remote server address, the local client
/// address that its responses go to.
pub uninterp spec fn route_entries(m: DashMap<String, String, RandomState>) -> Map<
    Seq<char>,
    Seq<char>,
>;

/// No sessions.
pub open spec fn no_sessions() -> Map<Seq<char>, (Seq<char>, u64)> {
    Map::empty()
}

/// No routes.
pub open spec fn no_routes() -> Map<Seq<char>, Seq<char>> {
    Map::empty()
}

/// An empty session map (`DashMap::new`).
#[verifier::external_body]
pub(crate) fn new_session_map() -> (sessions: DashMap<String, Session, RandomState>)
    ensures
        session_entries(sessions) == no_sessions(),
{
    DashMap::new()
}

/// An empty route map (`DashMap::new`).
#[verifier::external_body]
pub(crate) fn new_route_map() -> (routes: DashMap<String, String, RandomState>)
    ensures
        route_entries(routes) == no_routes(),
{
    DashMap::new()
}

/// Records activity of the local client `key` at `now` (`DashMap::entry`,
/// `Entry::or_insert`, `RefMut::value_mut`): a new session towards `remote` when
/// there is none; otherwise the session keeps its remote address.
#[verifier::external_body]
pub(crate) fn touch_session(
    m: &mut DashMap<String, Session, RandomState>,
    key: String,
    remote: String,
    now: u64,
)
    ensures
        session_entries(*final(m)) == session_entries(*old(m)).insert(
            key@,
            (
                if session_entries(*old(m)).contains_key(key@) {
                    session_entries(*old(m))[key@].0
                } else {
                    remote@
                },
                now,
            ),
        ),
{
    m.entry(key).or_insert(Session { _remote_addr: remote, last_active: now }).value_mut().last_active =
        now;
}

/// Records activity of an existing session at `now` (`DashMap::get_mut`); nothing
/// changes when there is no session for `key`.
#[verifier::external_body]
pub(crate) fn refresh_session(m: &mut DashMap<String, Session, RandomState>, key: &String, now: u64)
    ensures
        session_entries(*final(m)) == (if session_entries(*old(m)).contains_key(key@) {
            session_entries(*old(m)).insert(key@, (session_entries(*old(m))[key@].0, now))
        } else {
            session_entries(*old(m))
        }),
{
    if let Some(mut s) = m.get_mut(key) {
        s.last_active = now;
    }
}

/// Drops the sessions that are no longer alive at `now` (`DashMap::retain`).
#[verifier::external_body]
pub(crate) fn retain_fresh_sessions(m: &mut DashMap<String, Session, RandomState>, now: u64)
    ensures
        session_entries(*final(m)) == session_entries(*old(m)).restrict(
            session_entries(*old(m)).dom().filter(
                |k: Seq<char>| is_fresh(now, session_entries(*old(m))[k].1),
            ),
        ),
{
    m.retain(|_, s| session_is_fresh(now, s.last_active));
}

/// The number of sessions (`DashMap::len`).
#[verifier::external_body]
pub(crate) fn session_count(m: &DashMap<String, Session, RandomState>) -> (n: usize)
    ensures
        n == session_entries(*m).dom().len(),
{
    m.len()
}

/// The local client addresses that have a session, each once, in the map's
/// iteration order (`DashMap::iter`), which depends on the hasher's random seed.
#[verifier::external_body]
pub(crate) fn session_keys(m: &DashMap<String, Session, RandomState>) -> (keys: Vec<String>)
    ensures
        keys@.map_values(|k: String| k@).no_duplicates(),
        keys@.map_values(|k: String| k@).to_set() == session_entries(*m).dom(),
{
    m.iter().map(|e| e.key().clone()).collect()
}

/// Routes responses from `remote` to `local` (`DashMap::insert`).
#[verifier::external_body]
pub(crate) fn set_route(m: &mut DashMap<String, String, RandomState>, remote: String, local: String)
    ensures
        route_entries(*final(m)) == route_entries(*old(m)).insert(remote@, local@),
{
    m.insert(remote, local);
}

/// The local client that responses from `remote` go to (`DashMap::get`).
#[verifier::external_body]
pub(crate) fn route_of(m: &DashMap<String, String, RandomState>, remote: &String) -> (local: Option<String>)
    ensures
        match local {
            Some(l) => route_entries(*m).contains_key(remote@) && l@ == route_entries(*m)[remote@],
            None => !route_entries(*m).contains_key(remote@),
        },
{
    m.get(remote).map(|r| r.value().clone())
}

/// A session is alive exactly while fewer than 30 seconds (30 * 10^9 ns) have
/// passed since its last activity.
pub proof fn lemma_fresh_within_thirty_seconds(now: u64, last_active: u64)
    ensures
        is_fresh(now, last_active) <==> (now as int) < (last_active as int) + 30_000_000_000,
{
    if now >= last_active {
        let d: int = now - last_active;
        assert(d / 1_000_000_000 < 30 <==> d < 30_000_000_000) by (nonlinear_arith)
            requires
                d >= 0,
        ;
    }
}

} // verus!
