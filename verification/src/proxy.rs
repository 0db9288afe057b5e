//! The relay's decisions, as a state machine that the I/O loop drives: what to do
//! with a datagram from a local console, where a datagram from the remote server
//! goes, and the periodic statistics snapshot with its session cleanup.

use vstd::prelude::*;
use vstd::string::*;
use vstd::utf8::encode_utf8;
use dashmap::DashMap;
use std::collections::hash_map::RandomState;
use crate::bytes::be_i64_value;
use crate::discovery::{
    build_motd, build_pong, cap_mtu, capped, is_ping, is_unconnected_ping, lemma_pong_fields,
    motd_text, ping_timestamp, pong_bytes,
};
use crate::session_table::{
    is_fresh, new_route_map, NANOS_PER_SEC, new_session_map, no_routes, no_sessions, refresh_session,
    retain_fresh_sessions, route_entries, route_of, session_count, session_entries, session_keys,
    set_route, touch_session, Session,
};

verus! {

/// MTU cap for RakNet connections.
pub const MTU_CAP: u16 = 1400;

/// The guid the relay announces as its own in discovery.
pub const SERVER_GUID: i64 = 0x12345678_9ABCDEF0;

/// Traffic counters: packets since the last statistics tick and bytes since
/// start, each wrapping around at 2^64.
#[derive(Clone, Copy, Debug, PartialEq, Eq, Structural)]
pub struct ProxyCounters {
    pub pps_in: u64,
    pub pps_out: u64,
    pub bytes_in: u64,
    pub bytes_out: u64,
}

/// Traffic statistics snapshot for the running proxy: packets per second in and
/// out over the interval since the previous snapshot, byte totals, and sessions.
#[derive(Clone, Debug)]
pub struct TrafficStats {
    pub pps_in: u64,
    pub pps_out: u64,
    pub bytes_in: u64,
    pub bytes_out: u64,
    pub active_sessions: u32,
    pub clients: Vec<String>,
}

impl Default for TrafficStats {
    fn default() -> (s: Self)
        ensures
            s.pps_in == 0 && s.pps_out == 0 && s.bytes_in == 0 && s.bytes_out == 0,
            s.active_sessions == 0,
            s.clients@.len() == 0,
    {
        TrafficStats {
            pps_in: 0,
            pps_out: 0,
            bytes_in: 0,
            bytes_out: 0,
            active_sessions: 0,
            clients: Vec::new(),
        }
    }
}

/// Shared proxy state: counters, sessions by local client address, the route
/// from the remote server address back to the local client, and the time of the
/// last statistics tick (nanoseconds on the relay's clock; the clock starts at 0
/// when the state is made).
pub struct ProxyState {
    pub stats: ProxyCounters,
    pub last_tick: u64,
    pub sessions: DashMap<String, Session, RandomState>,
    pub reverse_map: DashMap<String, String, RandomState>,
}

/// The proxy state as plain values.
pub struct ProxyView {
    pub stats: ProxyCounters,
    pub last_tick: u64,
    pub sessions: Map<Seq<char>, (Seq<char>, u64)>,
    pub routes: Map<Seq<char>, Seq<char>>,
}

impl View for ProxyState {
    type V = ProxyView;

    open spec fn view(&self) -> ProxyView {
        ProxyView {
            stats: self.stats,
            last_tick: self.last_tick,
            sessions: session_entries(self.sessions),
            routes: route_entries(self.reverse_map),
        }
    }
}

impl Default for ProxyState {
    fn default() -> (s: Self)
        ensures
            s@.stats == (ProxyCounters { pps_in: 0, pps_out: 0, bytes_in: 0, bytes_out: 0 }),
            s@.last_tick == 0,
            s@.sessions == no_sessions(),
            s@.routes == no_routes(),
    {
        ProxyState {
            stats: ProxyCounters { pps_in: 0, pps_out: 0, bytes_in: 0, bytes_out: 0 },
            last_tick: 0,
            sessions: new_session_map(),
            reverse_map: new_route_map(),
        }
    }
}

/// What to do with a datagram from a local console.
pub enum LocalAction {
    /// Send these bytes back to the console (the answer to a discovery ping).
    Reply(Vec<u8>),
    /// Send these bytes on to the remote server.
    Forward(Vec<u8>),
}

/// `a + b` wrapped around at 2^64, as `AtomicU64::fetch_add` adds.
pub open spec fn wrap_add(a: u64, b: int) -> u64 {
    ((a + b) % 0x1_0000_0000_0000_0000) as u64
}

/// Counters after `len` bytes came in.
pub open spec fn counted_in(c: ProxyCounters, len: int) -> ProxyCounters {
    ProxyCounters { pps_in: wrap_add(c.pps_in, 1), bytes_in: wrap_add(c.bytes_in, len), ..c }
}

/// Counters after `len` bytes went out.
pub open spec fn counted_out(c: ProxyCounters, len: int) -> ProxyCounters {
    ProxyCounters { pps_out: wrap_add(c.pps_out, 1), bytes_out: wrap_add(c.bytes_out, len), ..c }
}

/// The pong answering a discovery ping: it echoes the ping's timestamp and carries
/// the MOTD built from the label and the relay's guid.
pub open spec fn ping_reply(data: Seq<u8>, label: Seq<char>, server_guid: i64) -> Seq<u8> {
    pong_bytes(
        be_i64_value(data.subrange(1, 9)),
        server_guid,
        encode_utf8(motd_text(label, server_guid as int)),
    )
}

/// The state after a datagram `data` from the local client `src`. A ping is
/// answered and counted; anything else is forwarded to `remote` and renews the
/// client's session and the route back to it.
pub open spec fn local_step(
    s: ProxyView,
    src: Seq<char>,
    data: Seq<u8>,
    remote: Seq<char>,
    label: Seq<char>,
    server_guid: i64,
    now: u64,
) -> ProxyView {
    let counted = counted_in(s.stats, data.len() as int);
    if is_ping(data) {
        ProxyView {
            stats: counted_out(counted, ping_reply(data, label, server_guid).len() as int),
            ..s
        }
    } else {
        ProxyView {
            stats: counted_out(counted, data.len() as int),
            sessions: s.sessions.insert(
                src,
                (
                    if s.sessions.contains_key(src) {
                        s.sessions[src].0
                    } else {
                        remote
                    },
                    now,
                ),
            ),
            routes: s.routes.insert(remote, src),
            ..s
        }
    }
}

/// The state after a datagram of `len` bytes from the remote address `from`: when
/// a local client is routed to, the datagram goes to it, is counted, and renews
/// that client's session; otherwise nothing changes.
pub open spec fn remote_step(s: ProxyView, from: Seq<char>, len: int, now: u64) -> ProxyView {
    if s.routes.contains_key(from) {
        let local = s.routes[from];
        ProxyView {
            stats: counted_out(s.stats, len),
            sessions: if s.sessions.contains_key(local) {
                s.sessions.insert(local, (s.sessions[local].0, now))
            } else {
                s.sessions
            },
            ..s
        }
    } else {
        s
    }
}

/// The sessions still alive at `now`.
pub open spec fn fresh_sessions(sessions: Map<Seq<char>, (Seq<char>, u64)>, now: u64) -> Map<
    Seq<char>,
    (Seq<char>, u64),
> {
    sessions.restrict(sessions.dom().filter(|k: Seq<char>| is_fresh(now, sessions[k].1)))
}

/// The state after a statistics tick at `now`: stale sessions are gone, the
/// packet counters start again from zero and the tick time is `now`; byte totals
/// and routes stay.
pub open spec fn tick_step(s: ProxyView, now: u64) -> ProxyView {
    ProxyView {
        stats: ProxyCounters { pps_in: 0, pps_out: 0, ..s.stats },
        last_tick: now,
        sessions: fresh_sessions(s.sessions, now),
        routes: s.routes,
    }
}

/// Nanoseconds from `since` to `now`; none when `now` is the earlier.
pub open spec fn elapsed_nanos(since: u64, now: u64) -> int {
    if now >= since {
        now - since
    } else {
        0
    }
}

/// The rate, per second and rounded down, of `count` packets over `elapsed`
/// nanoseconds (one nanosecond where no time passed), at most `u64::MAX`.
pub open spec fn per_second(count: u64, elapsed: int) -> u64 {
    let rate = count * (NANOS_PER_SEC as int) / (if elapsed <= 0 {
        1
    } else {
        elapsed
    });
    if rate > u64::MAX {
        u64::MAX
    } else {
        rate as u64
    }
}

/// The rate per second of `count` packets over the nanoseconds from `since` to `now`.
pub fn packets_per_second(count: u64, since: u64, now: u64) -> (rate: u64)
    ensures
        rate == per_second(count, elapsed_nanos(since, now)),
{
    let elapsed: u64 = if now >= since {
        now - since
    } else {
        0
    };
    let divisor: u128 = if elapsed == 0 {
        1
    } else {
        elapsed as u128
    };
    let c = count as u128;
    assert(c * 1_000_000_000 <= 0xffff_ffff_ffff_ffffu128 * 1_000_000_000) by (nonlinear_arith)
        requires
            c <= 0xffff_ffff_ffff_ffffu128,
    ;
    let rate = c * 1_000_000_000u128 / divisor;
    if rate > u64::MAX as u128 {
        u64::MAX
    } else {
        rate as u64
    }
}

fn add_wrapping(a: u64, b: u64) -> (r: u64)
    ensures
        r == wrap_add(a, b as int),
{
    if a <= u64::MAX - b {
        a + b
    } else {
        (b - (u64::MAX - a)) - 1
    }
}

impl ProxyCounters {
    fn count_in(&mut self, len: u64)
        ensures
            *final(self) == counted_in(*old(self), len as int),
    {
        self.bytes_in = add_wrapping(self.bytes_in, len);
        self.pps_in = add_wrapping(self.pps_in, 1);
    }

    fn count_out(&mut self, len: u64)
        ensures
            *final(self) == counted_out(*old(self), len as int),
    {
        self.bytes_out = add_wrapping(self.bytes_out, len);
        self.pps_out = add_wrapping(self.pps_out, 1);
    }
}

impl ProxyState {
    /// Handles a datagram from the local console at `src`, received at `now`: a
    /// discovery ping gets a pong announcing `label`; anything else is forwarded to
    /// `remote` with its MTU capped at `MTU_CAP`, and the client's session and the
    /// route back to it are renewed.
    pub fn on_local_packet(
        &mut self,
        src: String,
        data: &[u8],
        remote: &String,
        label: &str,
        server_guid: i64,
        now: u64,
    ) -> (action: LocalAction)
        ensures
            final(self)@ == local_step(old(self)@, src@, data@, remote@, label@, server_guid, now),
            match action {
                LocalAction::Reply(p) => is_ping(data@) && p@ == ping_reply(data@, label@, server_guid),
                LocalAction::Forward(p) => !is_ping(data@) && p@ == capped(data@, MTU_CAP),
            },
    {
        self.stats.count_in(data.len() as u64);
        if is_unconnected_ping(data) {
            let motd = build_motd(label, server_guid);
            let ts = ping_timestamp(data);
            let pong = build_pong(ts, server_guid, motd.as_str());
            self.stats.count_out(pong.len() as u64);
            return LocalAction::Reply(pong);
        }
        let out = cap_mtu(data, MTU_CAP);
        touch_session(&mut self.sessions, src.clone(), remote.clone(), now);
        set_route(&mut self.reverse_map, remote.clone(), src);
        self.stats.count_out(data.len() as u64);
        LocalAction::Forward(out)
    }

    /// Handles a datagram of `len` bytes from the remote address `from`, received
    /// at `now`: the local client that it goes to, if any.
    pub fn on_remote_packet(&mut self, from: &String, len: usize, now: u64) -> (local: Option<String>)
        ensures
            final(self)@ == remote_step(old(self)@, from@, len as int, now),
            match local {
                Some(l) => old(self)@.routes.contains_key(from@) && l@ == old(self)@.routes[from@],
                None => !old(self)@.routes.contains_key(from@),
            },
    {
        match route_of(&self.reverse_map, from) {
            Some(local) => {
                self.stats.count_out(len as u64);
                refresh_session(&mut self.sessions, &local, now);
                Some(local)
            },
            None => None,
        }
    }

    /// The periodic tick at `now`: drops sessions idle for `SESSION_TIMEOUT_SECS`
    /// seconds or more, then takes a snapshot: packets per second in and out since
    /// the previous tick (the packet counts restart from zero), the byte totals,
    /// the number of sessions and the client addresses.
    pub fn on_tick(&mut self, now: u64) -> (stats: TrafficStats)
        ensures
            final(self)@ == tick_step(old(self)@, now),
            stats.pps_in == per_second(
                old(self)@.stats.pps_in,
                elapsed_nanos(old(self)@.last_tick, now),
            ),
            stats.pps_out == per_second(
                old(self)@.stats.pps_out,
                elapsed_nanos(old(self)@.last_tick, now),
            ),
            stats.bytes_in == old(self)@.stats.bytes_in,
            stats.bytes_out == old(self)@.stats.bytes_out,
            stats.active_sessions as int == final(self)@.sessions.dom().len() % 0x1_0000_0000,
            stats.clients@.map_values(|c: String| c@).no_duplicates(),
            stats.clients@.map_values(|c: String| c@).to_set() == final(self)@.sessions.dom(),
    {
        retain_fresh_sessions(&mut self.sessions, now);
        let clients = session_keys(&self.sessions);
        let n = session_count(&self.sessions);
        let n64 = n as u64;
        let active = n64 as u32;
        assert(active == (n64 % 0x1_0000_0000) as u32) by (bit_vector)
            requires
                active == n64 as u32,
        ;
        let stats = TrafficStats {
            pps_in: packets_per_second(self.stats.pps_in, self.last_tick, now),
            pps_out: packets_per_second(self.stats.pps_out, self.last_tick, now),
            bytes_in: self.stats.bytes_in,
            bytes_out: self.stats.bytes_out,
            active_sessions: active,
            clients,
        };
        self.stats.pps_in = 0;
        self.stats.pps_out = 0;
        self.last_tick = now;
        stats
    }
}

/// The answer to a discovery ping is a pong that echoes the ping's timestamp and
/// announces the relay's guid and the MOTD.
pub proof fn lemma_ping_reply_echoes_timestamp(data: Seq<u8>, label: Seq<char>, server_guid: i64)
    requires
        is_ping(data),
    ensures
        ({
            let p = ping_reply(data, label, server_guid);
            &&& p[0] == 0x1c
            &&& be_i64_value(p.subrange(1, 9)) == be_i64_value(data.subrange(1, 9))
            &&& be_i64_value(p.subrange(9, 17)) == server_guid
            &&& p.subrange(35, p.len() as int) == encode_utf8(motd_text(label, server_guid as int))
        }),
{
    lemma_pong_fields(
        be_i64_value(data.subrange(1, 9)),
        server_guid,
        encode_utf8(motd_text(label, server_guid as int)),
    );
}

/// A discovery ping opens no session and sets no route.
pub proof fn lemma_ping_touches_no_session(
    s: ProxyView,
    src: Seq<char>,
    data: Seq<u8>,
    remote: Seq<char>,
    label: Seq<char>,
    server_guid: i64,
    now: u64,
)
    requires
        is_ping(data),
    ensures
        local_step(s, src, data, remote, label, server_guid, now).sessions == s.sessions,
        local_step(s, src, data, remote, label, server_guid, now).routes == s.routes,
{
}

/// Once a local client's datagram is forwarded, responses from the remote server
/// go back to that client, and each response renews the client's session.
pub proof fn lemma_response_routed_back(
    s: ProxyView,
    src: Seq<char>,
    data: Seq<u8>,
    remote: Seq<char>,
    label: Seq<char>,
    server_guid: i64,
    now: u64,
    len: int,
    later: u64,
)
    requires
        !is_ping(data),
    ensures
        ({
            let s1 = local_step(s, src, data, remote, label, server_guid, now);
            let s2 = remote_step(s1, remote, len, later);
            &&& s1.routes.contains_key(remote)
            &&& s1.routes[remote] == src
            &&& s1.sessions.contains_key(src)
            &&& s1.sessions[src].1 == now
            &&& s2.sessions.contains_key(src)
            &&& s2.sessions[src].1 == later
            &&& s2.stats == counted_out(s1.stats, len)
        }),
{
}

/// A tick keeps exactly the sessions still alive at its time, unchanged.
pub proof fn lemma_tick_keeps_live_sessions(s: ProxyView, now: u64)
    ensures
        forall|k: Seq<char>|
            #[trigger] tick_step(s, now).sessions.contains_key(k) <==> s.sessions.contains_key(k)
                && is_fresh(now, s.sessions[k].1),
        forall|k: Seq<char>|
            #[trigger] tick_step(s, now).sessions.contains_key(k) ==> tick_step(s, now).sessions[k]
                == s.sessions[k],
        tick_step(s, now).routes == s.routes,
        tick_step(s, now).stats.pps_in == 0 && tick_step(s, now).stats.pps_out == 0,
        tick_step(s, now).stats.bytes_in == s.stats.bytes_in,
        tick_step(s, now).stats.bytes_out == s.stats.bytes_out,
{
}

/// A client that sent a datagram less than the timeout before a tick keeps its
/// session through that tick.
pub proof fn lemma_recent_client_survives_tick(
    s: ProxyView,
    src: Seq<char>,
    data: Seq<u8>,
    remote: Seq<char>,
    label: Seq<char>,
    server_guid: i64,
    sent: u64,
    now: u64,
)
    requires
        !is_ping(data),
        is_fresh(now, sent),
    ensures
        tick_step(local_step(s, src, data, remote, label, server_guid, sent), now).sessions.contains_key(
            src,
        ),
{
    let s1 = local_step(s, src, data, remote, label, server_guid, sent);
    assert(s1.sessions.dom().filter(|k: Seq<char>| is_fresh(now, s1.sessions[k].1)).contains(src));
}

/// Over the relay's half-second tick the reported rate is twice the packets
/// counted; over one second it is the count itself.
pub proof fn lemma_rate_per_second(count: u64)
    ensures
        2 * count <= u64::MAX ==> per_second(count, 500_000_000) == 2 * count,
        per_second(count, NANOS_PER_SEC as int) == count,
{
    assert(count * 1_000_000_000 / 500_000_000 == 2 * count) by (nonlinear_arith);
    assert(count * 1_000_000_000 / 1_000_000_000 == count) by (nonlinear_arith);
}

} // verus!
