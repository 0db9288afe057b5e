//! RakNet discovery: Unconnected Ping/Pong on UDP 19132 and MTU capping of the
//! Open Connection handshake.
//!
//! Packet layouts:
//! - 0x01 Unconnected Ping: `[1 id] [8 timestamp] [16 magic] [8 guid]`
//! - 0x1c Unconnected Pong: `[1 id] [8 timestamp] [8 server guid] [16 magic] [2 motd length] [motd]`
//! - 0x05 Open Connection Request 1: `[1 id] [5 protocol] [16 magic] [1 security] [padding]`,
//!   whose total length announces the MTU
//! - 0x06 Open Connection Reply 1: `[1 id] [8 guid] [16 magic] [1 security] [2 mtu]`

use vstd::prelude::*;
use vstd::string::*;
use crate::bytes::{
    be16, be16_value, be_i64, be_i64_value, lemma_be16_roundtrip, lemma_be_i64_roundtrip, push_be16,
    push_be_i64, read_be_i64,
};
use crate::text::{
    decimal, has_char, lemma_decimal_without, lemma_split_join, lemma_split_single, push_decimal_i64,
    push_str, split_on,
};

verus! {

/// The RakNet offline message magic: `00 ff ff 00 fe fe fe fe fd fd fd fd 12 34 56 78`.
pub const RAKNET_MAGIC: [u8; 16] = [
    0x00, 0xff, 0xff, 0x00, 0xfe, 0xfe, 0xfe, 0xfe, 0xfd, 0xfd, 0xfd, 0xfd, 0x12, 0x34, 0x56, 0x78,
];

pub const PACKET_UNCONNECTED_PING: u8 = 0x01;

pub const PACKET_UNCONNECTED_PONG: u8 = 0x1c;

pub const DEFAULT_PORT: u16 = 19132;

pub const PACKET_OPEN_CONNECT_REQ_1: u8 = 0x05;

pub const PACKET_OPEN_CONNECT_REPLY_1: u8 = 0x06;

/// Length of an Unconnected Ping: id, timestamp, magic and client guid.
pub const UNCONNECTED_PING_LEN: usize = 33;

/// Offset of the MTU field in an Open Connection Reply 1.
pub const REPLY_1_MTU_OFFSET: usize = 26;

/// The magic as a sequence.
pub open spec fn raknet_magic() -> Seq<u8> {
    seq![
        0x00u8, 0xffu8, 0xffu8, 0x00u8, 0xfeu8, 0xfeu8, 0xfeu8, 0xfeu8,
        0xfdu8, 0xfdu8, 0xfdu8, 0xfdu8, 0x12u8, 0x34u8, 0x56u8, 0x78u8,
    ]
}

/// The characters of an ASCII literal part of the MOTD.
pub open spec fn motd_head() -> Seq<char> {
    seq!['M', 'C', 'P', 'E', ';']
}

/// The fields between the server name and the guid: protocol, version, online and max players.
pub open spec fn motd_middle() -> Seq<char> {
    seq![';', '7', '4', '8', ';', '1', '.', '2', '1', '.', '0', ';', '0', ';', '1', '0', ';']
}

/// The level name and game mode.
pub open spec fn motd_tail() -> Seq<char> {
    seq![';', 'W', 'o', 'r', 'l', 'd', ';', 'S', 'u', 'r', 'v', 'i', 'v', 'a', 'l']
}

/// The Bedrock MOTD:
/// `MCPE;[ServerName];748;1.21.0;0;10;[GUID];World;Survival`.
pub open spec fn motd_text(server_name: Seq<char>, server_guid: int) -> Seq<char> {
    motd_head() + server_name + motd_middle() + decimal(server_guid) + motd_tail()
}

/// Whether bytes form an Unconnected Ping.
pub open spec fn is_ping(data: Seq<u8>) -> bool {
    data.len() >= UNCONNECTED_PING_LEN && data[0] == PACKET_UNCONNECTED_PING
}

/// The Unconnected Pong answering a ping with the given timestamp.
pub open spec fn pong_bytes(ping_timestamp: i64, server_guid: i64, motd: Seq<u8>) -> Seq<u8> {
    seq![PACKET_UNCONNECTED_PONG] + be_i64(ping_timestamp) + be_i64(server_guid) + raknet_magic()
        + be16((motd.len() % 0x10000) as u16) + motd
}

/// The MTU announced by bytes as an Open Connection Request 1: their length, as 16 bits.
pub open spec fn req1_mtu(data: Seq<u8>) -> u16 {
    (data.len() % 0x10000) as u16
}

/// The MTU field of an Open Connection Reply 1.
pub open spec fn reply1_mtu(data: Seq<u8>) -> u16
    recommends
        data.len() >= REPLY_1_MTU_OFFSET + 2,
{
    be16_value(data[REPLY_1_MTU_OFFSET as int], data[REPLY_1_MTU_OFFSET + 1])
}

/// A packet with its MTU capped at `max_mtu`: a Request 1 longer than the cap is
/// truncated to it, a Reply 1 whose MTU field exceeds the cap gets the cap written
/// there; anything else is left as it is.
pub open spec fn capped(data: Seq<u8>, max_mtu: u16) -> Seq<u8> {
    if data.len() == 0 {
        data
    } else if data[0] == PACKET_OPEN_CONNECT_REQ_1 {
        if data.len() > max_mtu {
            data.take(max_mtu as int)
        } else {
            data
        }
    } else if data[0] == PACKET_OPEN_CONNECT_REPLY_1 {
        if data.len() >= REPLY_1_MTU_OFFSET + 2 && reply1_mtu(data) > max_mtu {
            data.update(REPLY_1_MTU_OFFSET as int, be16(max_mtu)[0]).update(
                REPLY_1_MTU_OFFSET + 1,
                be16(max_mtu)[1],
            )
        } else {
            data
        }
    } else {
        data
    }
}

/// Builds the MOTD string for Bedrock Edition discovery.
pub fn build_motd(server_name: &str, server_guid: i64) -> (motd: String)
    ensures
        motd@ == motd_text(server_name@, server_guid as int),
{
    let head = "MCPE;";
    let middle = ";748;1.21.0;0;10;";
    let tail = ";World;Survival";
    proof {
        reveal_strlit("MCPE;");
        reveal_strlit(";748;1.21.0;0;10;");
        reveal_strlit(";World;Survival");
        assert(head@ =~= motd_head());
        assert(middle@ =~= motd_middle());
        assert(tail@ =~= motd_tail());
    }
    let mut motd = String::from_str(head);
    push_str(&mut motd, server_name);
    push_str(&mut motd, middle);
    push_decimal_i64(&mut motd, server_guid);
    push_str(&mut motd, tail);
    assert(motd@ =~= motd_text(server_name@, server_guid as int));
    motd
}

/// Whether a packet is an Unconnected Ping (id 0x01, at least 33 bytes).
pub fn is_unconnected_ping(data: &[u8]) -> (b: bool)
    ensures
        b == is_ping(data@),
{
    data.len() != 0 && data[0] == PACKET_UNCONNECTED_PING && data.len() >= UNCONNECTED_PING_LEN
}

/// Builds an Unconnected Pong. The motd length field holds the motd's byte length
/// modulo 2^16.
pub fn build_pong(ping_timestamp: i64, server_guid: i64, motd: &str) -> (packet: Vec<u8>)
    ensures
        packet@ == pong_bytes(ping_timestamp, server_guid, motd.spec_bytes()),
{
    let motd_bytes = motd.as_bytes();
    let n = motd_bytes.len();
    let motd_len = n as u16;
    assert(motd_len == (n % 0x10000) as u16) by (bit_vector)
        requires
            motd_len == n as u16,
    ;
    let mut packet: Vec<u8> = Vec::new();
    packet.push(PACKET_UNCONNECTED_PONG);
    push_be_i64(&mut packet, ping_timestamp);
    push_be_i64(&mut packet, server_guid);
    let mut i: usize = 0;
    while i < RAKNET_MAGIC.len()
        invariant
            0 <= i <= 16,
            packet@ == seq![PACKET_UNCONNECTED_PONG] + be_i64(ping_timestamp) + be_i64(server_guid)
                + raknet_magic().take(i as int),
        decreases 16 - i,
    {
        packet.push(RAKNET_MAGIC[i]);
        assert(raknet_magic().take(i + 1) =~= raknet_magic().take(i as int).push(RAKNET_MAGIC[i as int]));
        i += 1;
    }
    assert(raknet_magic().take(16) =~= raknet_magic());
    push_be16(&mut packet, motd_len);
    let ghost prefix = packet@;
    let mut j: usize = 0;
    while j < n
        invariant
            n == motd_bytes@.len(),
            j <= n,
            packet@ == prefix + motd_bytes@.take(j as int),
        decreases n - j,
    {
        packet.push(motd_bytes[j]);
        assert(motd_bytes@.take(j + 1) =~= motd_bytes@.take(j as int).push(motd_bytes@[j as int]));
        j += 1;
    }
    assert(motd_bytes@.take(n as int) =~= motd_bytes@);
    packet
}

/// Whether a packet is an Open Connection Request 1 (id 0x05, more than 25 bytes).
pub fn is_open_connect_req_1(data: &[u8]) -> (b: bool)
    ensures
        b == (data@.len() > 25 && data@[0] == PACKET_OPEN_CONNECT_REQ_1),
{
    data.len() != 0 && data[0] == PACKET_OPEN_CONNECT_REQ_1 && data.len() > 25
}

/// The MTU announced by an Open Connection Request 1: the total packet length
/// (the padding counts toward it), as 16 bits.
pub fn extract_mtu_req1(data: &[u8]) -> (mtu: u16)
    ensures
        mtu == req1_mtu(data@),
{
    let n = data.len();
    let mtu = n as u16;
    assert(mtu == (n % 0x10000) as u16) by (bit_vector)
        requires
            mtu == n as u16,
    ;
    mtu
}

/// The timestamp of an Unconnected Ping: bytes 1 to 8, big-endian; 0 where the
/// packet is shorter than that.
pub fn ping_timestamp(data: &[u8]) -> (ts: i64)
    ensures
        ts == (if data@.len() >= 9 {
            be_i64_value(data@.subrange(1, 9))
        } else {
            0
        }),
{
    if data.len() >= 9 {
        read_be_i64(data, 1)
    } else {
        0
    }
}

fn copy_prefix(data: &[u8], n: usize) -> (out: Vec<u8>)
    requires
        n <= data@.len(),
    ensures
        out@ == data@.take(n as int),
{
    let mut out: Vec<u8> = Vec::new();
    let mut i: usize = 0;
    while i < n
        invariant
            n <= data@.len(),
            i <= n,
            out@ == data@.take(i as int),
        decreases n - i,
    {
        out.push(data[i]);
        assert(data@.take(i + 1) =~= data@.take(i as int).push(data@[i as int]));
        i += 1;
    }
    out
}

/// Caps the MTU of a forwarded packet at `max_mtu`.
/// An Open Connection Request 1 is truncated to `max_mtu` bytes (its padding is the
/// MTU indicator); an Open Connection Reply 1 of at least 28 bytes gets `max_mtu`
/// written, big-endian, at bytes 26 and 27 when the MTU there is larger; any other
/// packet is returned unchanged.
pub fn cap_mtu(data: &[u8], max_mtu: u16) -> (out: Vec<u8>)
    ensures
        out@ == capped(data@, max_mtu),
{
    if data.len() == 0 {
        return copy_prefix(data, 0);
    }
    if data[0] == PACKET_OPEN_CONNECT_REQ_1 {
        if data.len() > max_mtu as usize {
            copy_prefix(data, max_mtu as usize)
        } else {
            let out = copy_prefix(data, data.len());
            assert(data@.take(data@.len() as int) =~= data@);
            out
        }
    } else if data[0] == PACKET_OPEN_CONNECT_REPLY_1 {
        let mut buf = copy_prefix(data, data.len());
        assert(data@.take(data@.len() as int) =~= data@);
        if buf.len() >= REPLY_1_MTU_OFFSET + 2 {
            let hi = buf[REPLY_1_MTU_OFFSET];
            let lo = buf[REPLY_1_MTU_OFFSET + 1];
            let mtu: u16 = ((hi as u16) << 8u16) | (lo as u16);
            if mtu > max_mtu {
                buf.set(REPLY_1_MTU_OFFSET, ((max_mtu >> 8u16) & 0xffu16) as u8);
                buf.set(REPLY_1_MTU_OFFSET + 1, (max_mtu & 0xffu16) as u8);
            }
        }
        buf
    } else {
        let out = copy_prefix(data, data.len());
        assert(data@.take(data@.len() as int) =~= data@);
        out
    }
}

/// The pong answering a ping carries, at fixed places, the echoed timestamp, the
/// server guid, the magic, the motd length and the motd itself.
pub proof fn lemma_pong_fields(ping_timestamp: i64, server_guid: i64, motd: Seq<u8>)
    ensures
        ({
            let p = pong_bytes(ping_timestamp, server_guid, motd);
            &&& p.len() == 35 + motd.len()
            &&& p[0] == PACKET_UNCONNECTED_PONG
            &&& be_i64_value(p.subrange(1, 9)) == ping_timestamp
            &&& be_i64_value(p.subrange(9, 17)) == server_guid
            &&& p.subrange(17, 33) == raknet_magic()
            &&& be16_value(p[33], p[34]) as int == motd.len() % 0x10000
            &&& p.subrange(35, p.len() as int) == motd
        }),
{
    let p = pong_bytes(ping_timestamp, server_guid, motd);
    lemma_be_i64_roundtrip(ping_timestamp);
    lemma_be_i64_roundtrip(server_guid);
    lemma_be16_roundtrip((motd.len() % 0x10000) as u16);
    assert(p.subrange(1, 9) =~= be_i64(ping_timestamp));
    assert(p.subrange(9, 17) =~= be_i64(server_guid));
    assert(p.subrange(17, 33) =~= raknet_magic());
    assert(p.subrange(35, p.len() as int) =~= motd);
    assert(p[33] == be16((motd.len() % 0x10000) as u16)[0]);
    assert(p[34] == be16((motd.len() % 0x10000) as u16)[1]);
}

/// Capping never lengthens a packet and keeps its first byte; only a Request 1
/// changes length, and it then has exactly `min(length, max_mtu)` bytes.
pub proof fn lemma_capped_shape(data: Seq<u8>, max_mtu: u16)
    ensures
        capped(data, max_mtu).len() <= data.len(),
        data.len() > 0 && data[0] == PACKET_OPEN_CONNECT_REQ_1 ==> capped(data, max_mtu).len() == (
        if data.len() > max_mtu {
            max_mtu as int
        } else {
            data.len() as int
        }),
        !(data.len() > 0 && data[0] == PACKET_OPEN_CONNECT_REQ_1) ==> capped(data, max_mtu).len()
            == data.len(),
        capped(data, max_mtu).len() > 0 ==> capped(data, max_mtu)[0] == data[0],
        forall|i: int|
            0 <= i < capped(data, max_mtu).len() && i != REPLY_1_MTU_OFFSET && i
                != REPLY_1_MTU_OFFSET + 1 ==> #[trigger] capped(data, max_mtu)[i] == data[i],
{
}

/// A capped Request 1 announces an MTU of at most the cap.
pub proof fn lemma_capped_req1_within_cap(data: Seq<u8>, max_mtu: u16)
    requires
        data.len() > 0,
        data[0] == PACKET_OPEN_CONNECT_REQ_1,
        data.len() < 0x10000,
    ensures
        req1_mtu(capped(data, max_mtu)) <= max_mtu,
        req1_mtu(capped(data, max_mtu)) == (if req1_mtu(data) > max_mtu {
            max_mtu
        } else {
            req1_mtu(data)
        }),
{
}

/// A capped Reply 1 carries in its MTU field the smaller of its MTU and the cap.
pub proof fn lemma_capped_reply1_within_cap(data: Seq<u8>, max_mtu: u16)
    requires
        data.len() >= REPLY_1_MTU_OFFSET + 2,
        data[0] == PACKET_OPEN_CONNECT_REPLY_1,
    ensures
        reply1_mtu(capped(data, max_mtu)) == (if reply1_mtu(data) > max_mtu {
            max_mtu
        } else {
            reply1_mtu(data)
        }),
{
    lemma_be16_roundtrip(max_mtu);
}

/// Capping twice with the same cap is capping once.
pub proof fn lemma_capped_idempotent(data: Seq<u8>, max_mtu: u16)
    ensures
        capped(capped(data, max_mtu), max_mtu) == capped(data, max_mtu),
{
    let once = capped(data, max_mtu);
    if data.len() > 0 && data[0] == PACKET_OPEN_CONNECT_REPLY_1 && data.len() >= REPLY_1_MTU_OFFSET
        + 2 && reply1_mtu(data) > max_mtu {
        lemma_be16_roundtrip(max_mtu);
        assert(reply1_mtu(once) == max_mtu);
    }
}

/// The nine fields of the MOTD, in order, where the server name holds no `;`.
pub open spec fn motd_fields(server_name: Seq<char>, server_guid: int) -> Seq<Seq<char>> {
    seq![
        seq!['M', 'C', 'P', 'E'],
        server_name,
        seq!['7', '4', '8'],
        seq!['1', '.', '2', '1', '.', '0'],
        seq!['0'],
        seq!['1', '0'],
        decimal(server_guid),
        seq!['W', 'o', 'r', 'l', 'd'],
        seq!['S', 'u', 'r', 'v', 'i', 'v', 'a', 'l'],
    ]
}

proof fn lemma_literal_field(f: Seq<char>)
    requires
        f.len() <= 8,
        forall|i: int| 0 <= i < f.len() ==> #[trigger] f[i] != ';',
    ensures
        split_on(f, ';') == seq![f],
{
    lemma_split_single(f, ';');
}

/// Split at `;`, the MOTD has nine fields: `MCPE`, the server name, `748`,
/// `1.21.0`, `0`, `10`, the guid in decimal, `World` and `Survival`, provided the
/// server name holds no `;`.
pub proof fn lemma_motd_fields(server_name: Seq<char>, server_guid: int)
    requires
        !has_char(server_name, ';'),
    ensures
        split_on(motd_text(server_name, server_guid), ';') == motd_fields(server_name, server_guid),
{
    let f = motd_fields(server_name, server_guid);
    let sep = seq![';'];
    let f0 = f[0];
    let f1 = f[1];
    let f2 = f[2];
    let f3 = f[3];
    let f4 = f[4];
    let f5 = f[5];
    let f6 = f[6];
    let f7 = f[7];
    let f8 = f[8];
    lemma_literal_field(f0);
    lemma_literal_field(f2);
    lemma_literal_field(f3);
    lemma_literal_field(f4);
    lemma_literal_field(f5);
    lemma_literal_field(f7);
    lemma_literal_field(f8);
    lemma_split_single(f1, ';');
    lemma_decimal_without(server_guid, ';');
    lemma_split_single(f6, ';');
    let r7 = f7 + sep + f8;
    let r6 = f6 + sep + r7;
    let r5 = f5 + sep + r6;
    let r4 = f4 + sep + r5;
    let r3 = f3 + sep + r4;
    let r2 = f2 + sep + r3;
    let r1 = f1 + sep + r2;
    let r0 = f0 + sep + r1;
    lemma_split_join(f7, f8, ';');
    lemma_split_join(f6, r7, ';');
    lemma_split_join(f5, r6, ';');
    lemma_split_join(f4, r5, ';');
    lemma_split_join(f3, r4, ';');
    lemma_split_join(f2, r3, ';');
    lemma_split_join(f1, r2, ';');
    lemma_split_join(f0, r1, ';');
    assert(r0 =~= motd_text(server_name, server_guid));
    assert(split_on(r0, ';') =~= f);
}

/// Capping at `m1` and then at `m2` is capping once at the smaller of the two.
pub proof fn lemma_capped_compose(data: Seq<u8>, m1: u16, m2: u16)
    ensures
        capped(capped(data, m1), m2) == capped(data, if m1 <= m2 {
            m1
        } else {
            m2
        }),
{
    let m = if m1 <= m2 {
        m1
    } else {
        m2
    };
    let c1 = capped(data, m1);
    if data.len() > 0 && data[0] == PACKET_OPEN_CONNECT_REQ_1 {
        if data.len() > m1 {
            if m1 == 0 {
                assert(capped(c1, m2) =~= data.take(m as int));
            } else {
                assert(c1[0] == data[0]);
                assert(capped(c1, m2) =~= data.take(m as int));
            }
        }
    } else if data.len() >= REPLY_1_MTU_OFFSET + 2 && data[0] == PACKET_OPEN_CONNECT_REPLY_1 {
        lemma_be16_roundtrip(m1);
        lemma_be16_roundtrip(m2);
        let v = reply1_mtu(data);
        if v > m1 {
            assert(reply1_mtu(c1) == m1);
            if m1 > m2 {
                assert(capped(c1, m2) =~= capped(data, m2));
            }
        }
    }
}

/// A datagram is a discovery ping exactly when it starts with the id 0x01 and
/// has at least 33 bytes; any datagram with another first byte is not one.
pub proof fn lemma_ping_is_id_one(data: Seq<u8>)
    ensures
        is_ping(data) <==> (data.len() >= 33 && data[0] == 0x01u8),
        data.len() > 0 && data[0] != 0x01u8 ==> !is_ping(data),
{
}

/// Only the Open Connection Request 1 (0x05) and Reply 1 (0x06) are changed by
/// capping: a packet with any other first byte, or an empty one, comes back as
/// it is. A Request 1 becomes a prefix of itself; a Reply 1 keeps every byte but
/// 26 and 27.
pub proof fn lemma_capped_touches_only_handshake(data: Seq<u8>, max_mtu: u16)
    ensures
        data.len() == 0 ==> capped(data, max_mtu) == data,
        data.len() > 0 && data[0] != 0x05u8 && data[0] != 0x06u8 ==> capped(data, max_mtu) == data,
        data.len() > 0 && data[0] == 0x05u8 ==> capped(data, max_mtu) == data.take(
            capped(data, max_mtu).len() as int,
        ),
        data.len() > 0 && data[0] == 0x05u8 && data.len() <= max_mtu ==> capped(data, max_mtu)
            == data,
        data.len() > 0 && data[0] == 0x06u8 ==> capped(data, max_mtu).len() == data.len()
            && forall|i: int|
            0 <= i < data.len() && i != 26 && i != 27 ==> #[trigger] capped(data, max_mtu)[i]
                == data[i],
        data.len() > 0 && data[0] == 0x06u8 && (data.len() < 28 || ((data[26] as int) * 256
            + data[27] as int) <= max_mtu) ==> capped(data, max_mtu) == data,
{
    if data.len() > 0 && data[0] == 0x05u8 {
        if data.len() > max_mtu {
            assert(capped(data, max_mtu) =~= data.take(max_mtu as int));
        } else {
            assert(data =~= data.take(data.len() as int));
        }
    }
    if data.len() >= 28 && data[0] == 0x06u8 {
        let hi = data[26];
        let lo = data[27];
        assert((((hi as u16) << 8u16) | (lo as u16)) as int == (hi as int) * 256 + lo as int)
            by (bit_vector);
    }
}

/// A capped Reply 1 carries, big-endian in bytes 26 and 27, the smaller of the
/// MTU it had there and the cap.
pub proof fn lemma_capped_reply1_field(data: Seq<u8>, max_mtu: u16)
    requires
        data.len() >= 28,
        data[0] == 0x06u8,
    ensures
        ({
            let c = capped(data, max_mtu);
            let old_mtu = (data[26] as int) * 256 + data[27] as int;
            (c[26] as int) * 256 + c[27] as int == if old_mtu > max_mtu {
                max_mtu as int
            } else {
                old_mtu
            }
        }),
{
    let hi = data[26];
    let lo = data[27];
    assert((((hi as u16) << 8u16) | (lo as u16)) as int == (hi as int) * 256 + lo as int)
        by (bit_vector);
    let m = max_mtu;
    let mh = ((m >> 8u16) & 0xffu16) as u8;
    let ml = (m & 0xffu16) as u8;
    assert((mh as int) * 256 + ml as int == m as int) by (bit_vector)
        requires
            mh == ((m >> 8u16) & 0xffu16) as u8,
            ml == (m & 0xffu16) as u8,
    ;
}

} // verus!
