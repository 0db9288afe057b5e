use bedrock_bridge::discovery::{build_motd, build_pong, RAKNET_MAGIC};
use bedrock_bridge::proxy::{LocalAction, ProxyState, TrafficStats, MTU_CAP, SERVER_GUID};
use bedrock_bridge::session_table::Session;

const SEC: u64 = 1_000_000_000;

fn ping(ts: i64) -> Vec<u8> {
    let mut p = vec![0u8; 33];
    p[0] = 0x01;
    p[1..9].copy_from_slice(&ts.to_be_bytes());
    p[9..25].copy_from_slice(&RAKNET_MAGIC);
    p
}

#[test]
fn test_proxy_state_default() {
    let state = ProxyState::default();
    assert!(state.sessions.is_empty());
    assert!(state.reverse_map.is_empty());
}

#[test]
fn test_counter_operations() {
    let mut state = ProxyState::default();
    let remote = "10.0.0.1:19132".to_string();
    state.on_local_packet("192.168.1.50:12345".to_string(), &[0xffu8; 100], &remote, "L", SERVER_GUID, 0);
    state.on_local_packet("192.168.1.50:12345".to_string(), &[0xffu8; 50], &remote, "L", SERVER_GUID, 0);
    assert_eq!(state.stats.bytes_in, 150);
    let stats = state.on_tick(SEC / 2);
    assert_eq!(stats.bytes_in, 150);
    assert_eq!(stats.pps_in, 4);
    assert_eq!(stats.pps_out, 4);
    assert_eq!(state.stats.pps_in, 0);
    assert_eq!(state.stats.bytes_in, 150);
}

#[test]
fn test_session_cleanup() {
    let mut state = ProxyState::default();
    let addr = "192.168.1.50:12345".to_string();
    let remote = "10.0.0.1:19132".to_string();
    state.sessions.insert(addr.clone(), Session { _remote_addr: remote, last_active: 0 });
    assert_eq!(state.sessions.len(), 1);
    let stats = state.on_tick(60 * SEC);
    assert!(state.sessions.is_empty());
    assert_eq!(stats.active_sessions, 0);
    assert!(stats.clients.is_empty());
}

#[test]
fn test_reverse_mapping() {
    let state = ProxyState::default();
    let local = "192.168.1.50:12345".to_string();
    let remote = "10.0.0.1:19132".to_string();
    state.reverse_map.insert(remote.clone(), local.clone());
    assert_eq!(state.reverse_map.get(&remote).map(|r| r.value().clone()), Some(local));
}

#[test]
fn ping_is_answered_not_forwarded() {
    let mut state = ProxyState::default();
    let remote = "10.0.0.1:19132".to_string();
    let action = state.on_local_packet("1.2.3.4:5".to_string(), &ping(77), &remote, "My Server", SERVER_GUID, 0);
    let motd = build_motd("My Server", SERVER_GUID);
    match action {
        LocalAction::Reply(p) => {
            assert_eq!(p, build_pong(77, SERVER_GUID, &motd));
            assert_eq!(i64::from_be_bytes(p[1..9].try_into().unwrap()), 77);
            assert_eq!(state.stats.bytes_out, p.len() as u64);
        }
        LocalAction::Forward(_) => panic!("a ping must be answered"),
    }
    assert!(state.sessions.is_empty());
    assert!(state.reverse_map.is_empty());
    assert_eq!(state.stats.pps_in, 1);
    assert_eq!(state.stats.pps_out, 1);
    assert_eq!(state.stats.bytes_in, 33);
}

#[test]
fn forwarded_packet_is_capped_and_routes_back() {
    let mut state = ProxyState::default();
    let remote = "10.0.0.1:19132".to_string();
    let client = "192.168.1.50:12345".to_string();
    let req = vec![0x05u8; 1500];
    match state.on_local_packet(client.clone(), &req, &remote, "L", SERVER_GUID, 5 * SEC) {
        LocalAction::Forward(p) => assert_eq!(p.len(), MTU_CAP as usize),
        LocalAction::Reply(_) => panic!("not a ping"),
    }
    assert_eq!(state.stats.bytes_out, 1500);
    assert_eq!(state.on_remote_packet(&remote, 40, 6 * SEC), Some(client.clone()));
    assert_eq!(state.sessions.get(&client).unwrap().last_active, 6 * SEC);
    assert_eq!(state.sessions.get(&client).unwrap()._remote_addr, remote);
    assert_eq!(state.stats.bytes_out, 1540);
    assert_eq!(state.stats.pps_out, 2);
    assert_eq!(state.on_remote_packet(&"9.9.9.9:1".to_string(), 40, 6 * SEC), None);
    assert_eq!(state.stats.pps_out, 2);
}

#[test]
fn recent_session_survives_tick() {
    let mut state = ProxyState::default();
    let remote = "10.0.0.1:19132".to_string();
    state.on_local_packet("a:1".to_string(), &[0u8; 10], &remote, "L", SERVER_GUID, 0);
    state.on_local_packet("b:2".to_string(), &[0u8; 10], &remote, "L", SERVER_GUID, 10 * SEC);
    let stats = state.on_tick(30 * SEC);
    assert_eq!(stats.active_sessions, 1);
    assert_eq!(stats.clients, vec!["b:2".to_string()]);
    assert_eq!(state.reverse_map.get(&remote).map(|r| r.value().clone()), Some("b:2".to_string()));
    let stats = state.on_tick(40 * SEC - 1);
    assert_eq!(stats.active_sessions, 1);
    let stats = state.on_tick(40 * SEC);
    assert_eq!(stats.active_sessions, 0);
}

#[test]
fn counters_wrap_around() {
    let mut state = ProxyState::default();
    state.stats.bytes_in = u64::MAX - 1;
    state.on_local_packet("a:1".to_string(), &[0u8; 5], &"r:1".to_string(), "L", SERVER_GUID, 0);
    assert_eq!(state.stats.bytes_in, 3);
}

#[test]
fn default_stats_are_zero() {
    let s = TrafficStats::default();
    assert_eq!((s.pps_in, s.pps_out, s.bytes_in, s.bytes_out, s.active_sessions), (0, 0, 0, 0, 0));
    assert!(s.clients.is_empty());
}

#[test]
fn packet_rate_is_per_second_of_the_interval() {
    let mut state = ProxyState::default();
    let remote = "10.0.0.1:19132".to_string();
    for _ in 0..3 {
        state.on_local_packet("a:1".to_string(), &[0u8; 10], &remote, "L", SERVER_GUID, SEC);
    }
    let stats = state.on_tick(2 * SEC);
    assert_eq!(stats.pps_in, 1);
    assert_eq!(state.last_tick, 2 * SEC);
    for _ in 0..3 {
        state.on_local_packet("a:1".to_string(), &[0u8; 10], &remote, "L", SERVER_GUID, 2 * SEC);
    }
    let stats = state.on_tick(2 * SEC + SEC / 2);
    assert_eq!(stats.pps_in, 6);
    let stats = state.on_tick(3 * SEC);
    assert_eq!(stats.pps_in, 0);
    state.on_local_packet("a:1".to_string(), &[0u8; 10], &remote, "L", SERVER_GUID, 3 * SEC);
    let stats = state.on_tick(3 * SEC);
    assert_eq!(stats.pps_in, 1_000_000_000);
}
