use bedrock_bridge::discovery::{
    build_motd, build_pong, cap_mtu, extract_mtu_req1, is_open_connect_req_1, is_unconnected_ping,
    ping_timestamp, PACKET_OPEN_CONNECT_REPLY_1, PACKET_OPEN_CONNECT_REQ_1, PACKET_UNCONNECTED_PING,
    PACKET_UNCONNECTED_PONG, RAKNET_MAGIC,
};

#[test]
fn test_magic_bytes() {
    assert_eq!(RAKNET_MAGIC.len(), 16);
    assert_eq!(RAKNET_MAGIC[0], 0x00);
    assert_eq!(RAKNET_MAGIC[15], 0x78);
}

#[test]
fn test_build_motd() {
    let motd = build_motd("Test Server", 12345);
    assert!(motd.starts_with("MCPE;"));
    assert!(motd.contains("Test Server"));
    assert!(motd.contains("748"));
    assert!(motd.contains("12345"));
    assert!(motd.contains("Survival"));
    let fields: Vec<&str> = motd.split(';').collect();
    assert_eq!(fields.len(), 9);
    assert_eq!(fields[0], "MCPE");
    assert_eq!(fields[1], "Test Server");
    assert_eq!(fields[2], "748");
}

#[test]
fn test_is_unconnected_ping_valid() {
    let mut packet = vec![0u8; 33];
    packet[0] = PACKET_UNCONNECTED_PING;
    packet[1..9].copy_from_slice(&42i64.to_be_bytes());
    packet[9..25].copy_from_slice(&RAKNET_MAGIC);
    packet[25..33].copy_from_slice(&0i64.to_be_bytes());
    assert!(is_unconnected_ping(&packet));
}

#[test]
fn test_is_unconnected_ping_wrong_id() {
    let mut packet = vec![0u8; 33];
    packet[0] = 0x1c;
    assert!(!is_unconnected_ping(&packet));
}

#[test]
fn test_is_unconnected_ping_too_short() {
    let packet = vec![PACKET_UNCONNECTED_PING; 10];
    assert!(!is_unconnected_ping(&packet));
}

#[test]
fn test_is_unconnected_ping_empty() {
    assert!(!is_unconnected_ping(&[]));
}

#[test]
fn test_build_pong_structure() {
    let motd = "MCPE;Test;748;1.0;0;10;1234;World;Survival";
    let pong = build_pong(42i64, 0xABCDEF01i64, motd);

    assert_eq!(pong[0], PACKET_UNCONNECTED_PONG);
    assert_eq!(i64::from_be_bytes(pong[1..9].try_into().unwrap()), 42);
    assert_eq!(i64::from_be_bytes(pong[9..17].try_into().unwrap()), 0xABCDEF01i64);
    assert_eq!(&pong[17..33], &RAKNET_MAGIC);
    let motd_len = u16::from_be_bytes([pong[33], pong[34]]);
    assert_eq!(motd_len as usize, motd.len());
    assert_eq!(&pong[35..], motd.as_bytes());
}

#[test]
fn test_build_pong_roundtrip() {
    let motd = "MCPE;Hello World;748;1.21.0;0;10;999;Bedrock;Creative";
    let pong = build_pong(-100i64, i64::MAX, motd);
    assert_eq!(pong[0], 0x1c);
    assert_eq!(i64::from_be_bytes(pong[1..9].try_into().unwrap()), -100);
}

#[test]
fn test_is_open_connect_req_1_valid() {
    let mut packet = vec![0u8; 30];
    packet[0] = PACKET_OPEN_CONNECT_REQ_1;
    assert!(is_open_connect_req_1(&packet));
}

#[test]
fn test_is_open_connect_req_1_too_short() {
    let packet = vec![PACKET_OPEN_CONNECT_REQ_1; 20];
    assert!(!is_open_connect_req_1(&packet));
}

#[test]
fn test_cap_mtu_truncates_req1() {
    let mut packet = vec![PACKET_OPEN_CONNECT_REQ_1; 1500];
    packet[0] = PACKET_OPEN_CONNECT_REQ_1;
    let capped = cap_mtu(&packet, 1400);
    assert_eq!(capped.len(), 1400);
    assert_eq!(capped[0], PACKET_OPEN_CONNECT_REQ_1);
}

#[test]
fn test_cap_mtu_no_change_if_under() {
    let packet = vec![PACKET_OPEN_CONNECT_REQ_1; 1000];
    let capped = cap_mtu(&packet, 1400);
    assert_eq!(capped.len(), 1000);
}

#[test]
fn test_cap_mtu_rewrites_reply1() {
    let mut packet = vec![0u8; 28];
    packet[0] = PACKET_OPEN_CONNECT_REPLY_1;
    packet[26] = (1492u16 >> 8) as u8;
    packet[27] = (1492u16 & 0xFF) as u8;
    let capped = cap_mtu(&packet, 1400);
    let new_mtu = u16::from_be_bytes([capped[26], capped[27]]);
    assert_eq!(new_mtu, 1400);
}

#[test]
fn test_cap_mtu_reply1_no_change_if_under() {
    let mut packet = vec![0u8; 28];
    packet[0] = PACKET_OPEN_CONNECT_REPLY_1;
    packet[26] = (1200u16 >> 8) as u8;
    packet[27] = (1200u16 & 0xFF) as u8;
    let capped = cap_mtu(&packet, 1400);
    let new_mtu = u16::from_be_bytes([capped[26], capped[27]]);
    assert_eq!(new_mtu, 1200);
}

#[test]
fn test_cap_mtu_passthrough_other_packets() {
    let packet = vec![0xFF; 50];
    let capped = cap_mtu(&packet, 1400);
    assert_eq!(capped, packet);
}

#[test]
fn test_cap_mtu_empty() {
    let capped = cap_mtu(&[], 1400);
    assert!(capped.is_empty());
}

#[test]
fn test_extract_mtu_req1() {
    let packet = vec![0u8; 1447];
    assert_eq!(extract_mtu_req1(&packet), 1447);
}

#[test]
fn test_discovery_ping_pong_roundtrip() {
    let motd = build_motd("Test LAN", 0x1234);
    let pong = build_pong(42i64, 0x1234i64, &motd);

    assert_eq!(pong[0], 0x1c);
    assert_eq!(&pong[17..33], &RAKNET_MAGIC);

    let motd_len = u16::from_be_bytes([pong[33], pong[34]]);
    assert_eq!(motd_len as usize, motd.len());
    assert_eq!(&pong[35..], motd.as_bytes());
    assert!(motd.contains("Test LAN"));
}

#[test]
fn test_build_ping_and_detect() {
    let mut ping = vec![0u8; 33];
    ping[0] = 0x01;
    ping[1..9].copy_from_slice(&99i64.to_be_bytes());
    ping[9..25].copy_from_slice(&RAKNET_MAGIC);
    ping[25..33].copy_from_slice(&0i64.to_be_bytes());

    assert!(is_unconnected_ping(&ping));

    let ts = i64::from_be_bytes(ping[1..9].try_into().unwrap());
    let motd = build_motd("My Server", 12345);
    let pong = build_pong(ts, 12345i64, &motd);

    assert_eq!(pong[0], 0x1c);
    assert_eq!(i64::from_be_bytes(pong[1..9].try_into().unwrap()), 99i64);
}

#[test]
fn motd_exact_text() {
    assert_eq!(build_motd("Test Server", 12345), "MCPE;Test Server;748;1.21.0;0;10;12345;World;Survival");
    assert_eq!(build_motd("", 0), "MCPE;;748;1.21.0;0;10;0;World;Survival");
}

#[test]
fn motd_negative_and_extreme_guids() {
    assert_eq!(build_motd("x", -7), "MCPE;x;748;1.21.0;0;10;-7;World;Survival");
    assert!(build_motd("x", i64::MIN).contains(";-9223372036854775808;"));
    assert!(build_motd("x", i64::MAX).contains(";9223372036854775807;"));
    let relay_guid: i64 = 0x12345678_9ABCDEF0;
    assert!(build_motd("x", relay_guid).contains(&format!(";{};", relay_guid)));
}

#[test]
fn motd_fields_with_unicode_name() {
    let motd = build_motd("Sërvér ⛏", 99);
    let fields: Vec<&str> = motd.split(';').collect();
    assert_eq!(fields, vec!["MCPE", "Sërvér ⛏", "748", "1.21.0", "0", "10", "99", "World", "Survival"]);
}

#[test]
fn pong_carries_utf8_motd_bytes() {
    let motd = "MCPE;⛏;748";
    let pong = build_pong(1, 2, motd);
    assert_eq!(pong.len(), 35 + motd.len());
    assert_eq!(u16::from_be_bytes([pong[33], pong[34]]) as usize, motd.len());
    assert_eq!(&pong[35..], motd.as_bytes());
    assert_eq!(i64::from_be_bytes(pong[9..17].try_into().unwrap()), 2);
}

#[test]
fn pong_length_field_wraps_at_16_bits() {
    let motd = "a".repeat(65536 + 5);
    let pong = build_pong(0, 0, &motd);
    assert_eq!(u16::from_be_bytes([pong[33], pong[34]]), 5);
    assert_eq!(pong.len(), 35 + 65541);
}

#[test]
fn ping_timestamp_reads_bytes_one_to_eight() {
    let mut ping = vec![0u8; 33];
    ping[0] = PACKET_UNCONNECTED_PING;
    ping[1..9].copy_from_slice(&(-123456789i64).to_be_bytes());
    assert_eq!(ping_timestamp(&ping), -123456789);
    assert_eq!(ping_timestamp(&[1, 2, 3]), 0);
}

#[test]
fn ping_needs_exactly_33_bytes_or_more() {
    let mut packet = vec![0u8; 32];
    packet[0] = PACKET_UNCONNECTED_PING;
    assert!(!is_unconnected_ping(&packet));
    packet.push(0);
    assert!(is_unconnected_ping(&packet));
}

#[test]
fn req1_boundary_length() {
    let mut packet = vec![0u8; 25];
    packet[0] = PACKET_OPEN_CONNECT_REQ_1;
    assert!(!is_open_connect_req_1(&packet));
    packet.push(0);
    assert!(is_open_connect_req_1(&packet));
    assert!(!is_open_connect_req_1(&[]));
}

#[test]
fn extract_mtu_wraps_at_16_bits() {
    let packet = vec![0u8; 65536 + 3];
    assert_eq!(extract_mtu_req1(&packet), 3);
}

#[test]
fn cap_mtu_is_idempotent() {
    let mut reply = vec![0u8; 40];
    reply[0] = PACKET_OPEN_CONNECT_REPLY_1;
    reply[26] = 0x05;
    reply[27] = 0xd4;
    reply[39] = 0xee;
    let once = cap_mtu(&reply, 1400);
    assert_eq!(cap_mtu(&once, 1400), once);
    assert_eq!(once.len(), 40);
    assert_eq!(once[39], 0xee);
    assert_eq!(&once[..26], &reply[..26]);

    let req = vec![PACKET_OPEN_CONNECT_REQ_1; 1600];
    let once = cap_mtu(&req, 1400);
    assert_eq!(cap_mtu(&once, 1400), once);
    assert_eq!(extract_mtu_req1(&once), 1400);
}

#[test]
fn cap_mtu_short_reply_untouched() {
    let mut packet = vec![0xffu8; 27];
    packet[0] = PACKET_OPEN_CONNECT_REPLY_1;
    assert_eq!(cap_mtu(&packet, 1400), packet);
}

#[test]
fn cap_mtu_reply_equal_to_cap_untouched() {
    let mut packet = vec![0u8; 28];
    packet[0] = PACKET_OPEN_CONNECT_REPLY_1;
    packet[26] = (1400u16 >> 8) as u8;
    packet[27] = (1400u16 & 0xff) as u8;
    assert_eq!(cap_mtu(&packet, 1400), packet);
}

#[test]
fn cap_mtu_zero_cap_empties_request() {
    let packet = vec![PACKET_OPEN_CONNECT_REQ_1; 10];
    assert!(cap_mtu(&packet, 0).is_empty());
}
