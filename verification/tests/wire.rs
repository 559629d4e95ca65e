use bitcrust_core::block_header::{BlockHeader, VarInt};
use bitcrust_core::hash::checksum;
use bitcrust_core::inventory_vector::InventoryVector;
use bitcrust_core::message::{
    AddrMessage, AuthenticatedBitcrustMessage, GetblocksMessage, GetdataMessage,
    GetheadersMessage, HeaderMessage, InvMessage, Message, SendCmpctMessage,
};
use bitcrust_core::net_addr::{Ipv6Address, NetAddr, Services};
use bitcrust_core::parser::{
    addr, bitcrust_peer_count, bitcrust_peer_count_request, block_header, compact_size, feefilter,
    getblocks, getdata, header, headers, inv, inv_vector, magic, message, net_addr, ping, pong,
    raw_message, search_header, send_compact, slice2tuple, to_hex_string, trim_command,
    variable_str, version, Needed, Network, ParseResult, RawMessage, WireError,
};

fn wrap(magic: [u8; 4], command: &[u8], payload: &[u8]) -> Vec<u8> {
    let mut out = magic.to_vec();
    let mut name = command.to_vec();
    name.resize(12, 0);
    out.extend_from_slice(&name);
    out.extend_from_slice(&(payload.len() as u32).to_le_bytes());
    out.extend_from_slice(&checksum(payload));
    out.extend_from_slice(payload);
    out
}

fn main_frame(command: &str, payload: &[u8]) -> Vec<u8> {
    wrap([0xF9, 0xBE, 0xB4, 0xD9], command.as_bytes(), payload)
}

fn peer() -> String {
    "peer".to_string()
}

fn version_payload(version: i32, relay: Option<u8>) -> Vec<u8> {
    let mut out = version.to_le_bytes().to_vec();
    out.extend_from_slice(&5u64.to_le_bytes());
    out.extend_from_slice(&(-2i64).to_le_bytes());
    for port in [1u16, 2u16] {
        out.extend_from_slice(&9u64.to_le_bytes());
        out.extend_from_slice(&[0x20, 0x01, 0x0d, 0xb8, 0, 0, 0, 0, 0, 0, 0, 0, 0, 0, 0, port as u8]);
        out.extend_from_slice(&port.to_be_bytes());
    }
    out.extend_from_slice(&0x1122334455667788u64.to_le_bytes());
    out.extend_from_slice(&[2, b'h', b'i']);
    out.extend_from_slice(&(-1i32).to_le_bytes());
    if let Some(b) = relay {
        out.push(b);
    }
    out
}

#[test]
fn hex_strings_are_upper_case_pairs_with_spaces() {
    assert_eq!(to_hex_string(&[]), "");
    assert_eq!(to_hex_string(&[0x0f]), "0F");
    assert_eq!(to_hex_string(&[0x0f, 0xa0]), "0F A0");
    assert_eq!(to_hex_string(&[0x00, 0x99, 0xab, 0xff]), "00 99 AB FF");
    let all: Vec<u8> = (0..=255).collect();
    let expected: Vec<String> = all.iter().map(|b| format!("{:02X}", b)).collect();
    assert_eq!(to_hex_string(&all), expected.join(" "));
}

#[test]
fn the_first_four_bytes_of_a_slice() {
    assert_eq!(slice2tuple(&[1, 2, 3, 4]), (1, 2, 3, 4));
    assert_eq!(slice2tuple(&[9, 8, 7, 6, 5]), (9, 8, 7, 6));
}

#[test]
fn the_first_magic_tag_is_found() {
    assert_eq!(search_header(&[]), None);
    assert_eq!(search_header(&[0xF9, 0xBE, 0xB4]), None);
    assert_eq!(search_header(&[0xF9, 0xBE, 0xB4, 0xD9]), Some((4, Network::Main)));
    assert_eq!(search_header(&[0xFA, 0xBF, 0xB5, 0xDA]), Some((4, Network::Test)));
    assert_eq!(search_header(&[0xF9, 0xBE, 0xB4, 0xDA]), None);
    assert_eq!(search_header(&[0xFA, 0xBE, 0xB4, 0xD9]), None);
    assert_eq!(
        search_header(&[0, 0xF9, 0xF9, 0xBE, 0xB4, 0xD9, 0xFA, 0xBF, 0xB5, 0xDA]),
        Some((6, Network::Main))
    );
    assert_eq!(
        search_header(&[0xFA, 0xBF, 0xB5, 0xDA, 0xF9, 0xBE, 0xB4, 0xD9]),
        Some((4, Network::Test))
    );
}

#[test]
fn magic_drops_what_stands_before_the_tag() {
    assert_eq!(magic(&[1, 2, 3]), ParseResult::Incomplete(Needed::Unknown));
    assert_eq!(
        magic(&[7, 0xFA, 0xBF, 0xB5, 0xDA, 8, 9]),
        ParseResult::Done(&[8u8, 9][..], Network::Test)
    );
    assert!(magic(&[0xF9, 0xBE, 0xB4, 0xD9]).is_done());
    assert!(!magic(&[]).is_done());
}

#[test]
fn padding_is_cut_off_the_end_of_a_command_only() {
    assert_eq!(trim_command(b"ping\0\0\0\0\0\0\0\0"), b"ping");
    assert_eq!(trim_command(b"\0\0ping\0\0\0\0\0\0"), b"\0\0ping");
    assert_eq!(trim_command(b"a\0b\0\0\0\0\0\0\0\0\0"), b"a\0b");
    assert_eq!(trim_command(&[0u8; 12]), b"");
    assert_eq!(trim_command(b"sendheaders!"), b"sendheaders!");
}

#[test]
fn a_header_that_is_cut_short_says_what_is_missing() {
    let full = main_frame("ping", &[1, 2, 3, 4, 5, 6, 7, 8]);
    assert_eq!(header(&full[..3]), ParseResult::Incomplete(Needed::Unknown));
    assert_eq!(header(&full[..4]), ParseResult::Incomplete(Needed::Size(12)));
    assert_eq!(header(&full[..15]), ParseResult::Incomplete(Needed::Size(1)));
    assert_eq!(header(&full[..16]), ParseResult::Incomplete(Needed::Size(4)));
    assert_eq!(header(&full[..19]), ParseResult::Incomplete(Needed::Size(1)));
    assert_eq!(header(&full[..20]), ParseResult::Incomplete(Needed::Size(4)));
    assert_eq!(header(&full[..23]), ParseResult::Incomplete(Needed::Size(1)));
    let (rest, head) = header(&full).unwrap();
    assert_eq!(rest, &[1, 2, 3, 4, 5, 6, 7, 8]);
    assert_eq!(head.message_type, "ping");
    assert_eq!(head.len, 8);
    assert_eq!(head.network, Network::Main);
    assert_eq!(head.checksum, &checksum(&[1, 2, 3, 4, 5, 6, 7, 8]));
}

#[test]
fn a_payload_that_is_cut_short_says_what_is_missing() {
    let full = main_frame("ping", &[1, 2, 3, 4, 5, 6, 7, 8]);
    assert_eq!(raw_message(&full[..24]), ParseResult::Incomplete(Needed::Size(8)));
    assert_eq!(raw_message(&full[..29]), ParseResult::Incomplete(Needed::Size(3)));
    assert_eq!(message(&full[..31], &peer()), ParseResult::Incomplete(Needed::Size(1)));
    assert_eq!(message(&[], &peer()), ParseResult::Incomplete(Needed::Unknown));
    let (rest, raw) = raw_message(&full).unwrap();
    assert!(rest.is_empty());
    assert!(raw.valid());
    assert_eq!(raw.body, &[1, 2, 3, 4, 5, 6, 7, 8]);
    assert_eq!(raw.len, 8);
}

#[test]
fn a_command_that_is_not_utf8_is_refused() {
    let bad = wrap([0xF9, 0xBE, 0xB4, 0xD9], &[0xff, 0xfe], &[]);
    assert_eq!(header(&bad), ParseResult::Error(WireError::InvalidCommand));
    assert_eq!(raw_message(&bad), ParseResult::Error(WireError::InvalidCommand));
    assert_eq!(message(&bad, &peer()), ParseResult::Error(WireError::InvalidCommand));
    assert_eq!(header(&bad[..16]), ParseResult::Error(WireError::InvalidCommand));
    let cut = wrap([0xF9, 0xBE, 0xB4, 0xD9], &[b'a', 0xc3], &[]);
    assert_eq!(header(&cut), ParseResult::Error(WireError::InvalidCommand));
}

#[test]
fn a_command_may_be_any_utf8() {
    let frame = wrap([0xFA, 0xBF, 0xB5, 0xDA], "héllo".as_bytes(), &[1]);
    assert_eq!(
        message(&frame, &peer()),
        ParseResult::Done(&[][..], Message::Unparsed("héllo".to_string(), vec![1]))
    );
}

#[test]
fn a_wrong_checksum_is_refused_with_the_length_to_skip() {
    let mut frame = main_frame("verack", &[]);
    frame[20] ^= 1;
    assert_eq!(message(&frame, &peer()), ParseResult::Error(WireError::InvalidChecksum(20)));
    let mut frame = main_frame("ping", &[1, 2, 3, 4, 5, 6, 7, 8]);
    frame[23] ^= 0x80;
    assert_eq!(message(&frame, &peer()), ParseResult::Error(WireError::InvalidChecksum(28)));
    let (_, raw) = raw_message(&frame).unwrap();
    assert!(!raw.valid());
    let raw = RawMessage {
        network: Network::Main,
        message_type: "x".to_string(),
        len: 0,
        checksum: &[0x5d, 0xf6, 0xe0, 0xe2],
        body: &[],
    };
    assert!(raw.valid());
}

#[test]
fn changing_any_byte_of_the_payload_is_noticed() {
    let payload = version_payload(70001, Some(1));
    let frame = main_frame("version", &payload);
    assert!(message(&frame, &peer()).is_done());
    for k in 24..frame.len() {
        for bit in [0x01u8, 0x80u8] {
            let mut changed = frame.clone();
            changed[k] ^= bit;
            assert_eq!(
                message(&changed, &peer()),
                ParseResult::Error(WireError::InvalidChecksum(payload.len() as u64 + 20))
            );
        }
    }
}

#[test]
fn noise_before_a_frame_changes_nothing() {
    let frames = [
        main_frame("ping", &[1, 2, 3, 4, 5, 6, 7, 8]),
        main_frame("verack", &[]),
        main_frame("wat", &[1, 2, 3]),
        main_frame("version", &version_payload(60002, None)),
    ];
    let noises: [&[u8]; 5] = [
        &[],
        &[0],
        &[0, 0, 0, 0, 0, 0, 0, 0],
        &[0xF9, 0xBE, 0xB4, 0x00, 0xFA, 0xBF, 0xB5],
        &[0xD9, 0xB4, 0xBE, 0xF9, 1, 2, 3],
    ];
    for frame in frames.iter() {
        for cut in [frame.len(), frame.len() - 1, 30, 24, 10, 4, 2] {
            if cut > frame.len() {
                continue;
            }
            let input = &frame[..cut];
            if cut >= 4 {
                for noise in noises.iter() {
                    let mut noisy = noise.to_vec();
                    noisy.extend_from_slice(input);
                    assert_eq!(message(&noisy, &peer()), message(input, &peer()));
                    assert_eq!(raw_message(&noisy), raw_message(input));
                    assert_eq!(header(&noisy), header(input));
                }
            }
        }
    }
}

#[test]
fn noise_that_completes_a_tag_with_the_input_is_not_skipped() {
    let frame = main_frame("verack", &[]);
    let mut tail = vec![0xBE, 0xB4, 0xD9];
    tail.extend_from_slice(&frame);
    let mut noisy = vec![0xF9];
    noisy.extend_from_slice(&tail);
    assert_ne!(message(&noisy, &peer()), message(&tail, &peer()));
}

#[test]
fn commands_without_payload_hand_back_the_input_after_the_frame() {
    let mut input = vec![0u8, 0];
    input.extend_from_slice(&main_frame("verack", &[]));
    input.extend_from_slice(&[7, 7, 7]);
    assert_eq!(message(&input, &peer()), ParseResult::Done(&[7u8, 7, 7][..], Message::Verack));
    let mut input = main_frame("sendheaders", &[]);
    input.push(1);
    assert_eq!(message(&input, &peer()), ParseResult::Done(&[1u8][..], Message::SendHeaders));
}

#[test]
fn an_unknown_command_is_kept_as_it_stands() {
    let mut input = main_frame("mempool", &[1, 2]);
    input.extend_from_slice(&[9]);
    assert_eq!(
        message(&input, &peer()),
        ParseResult::Done(&[9u8][..], Message::Unparsed("mempool".to_string(), vec![1, 2]))
    );
    let input = main_frame("", &[]);
    assert_eq!(
        message(&input, &peer()),
        ParseResult::Done(&[][..], Message::Unparsed(String::new(), vec![]))
    );
    let input = main_frame("Version", &[]);
    assert_eq!(
        message(&input, &peer()),
        ParseResult::Done(&[][..], Message::Unparsed("Version".to_string(), vec![]))
    );
}

#[test]
fn a_message_hands_back_the_input_after_its_frame() {
    let mut input = main_frame("ping", &[1, 0, 0, 0, 0, 0, 0, 0, 0xaa, 0xbb]);
    input.extend_from_slice(&[5, 5]);
    assert_eq!(message(&input, &peer()), ParseResult::Done(&[5u8, 5][..], Message::Ping(1)));
    let input = main_frame("ping", &[1, 2, 3]);
    assert_eq!(message(&input, &peer()), ParseResult::Incomplete(Needed::Size(5)));
}

#[test]
fn frames_are_decoded_one_after_the_other() {
    let mut input = vec![0u8, 0, 0];
    input.extend_from_slice(&main_frame("ping", &7u64.to_le_bytes()));
    input.extend_from_slice(&main_frame("verack", &[]));
    input.extend_from_slice(&[0xee]);
    input.extend_from_slice(&main_frame("inv", &[0]));
    input.extend_from_slice(&main_frame("pong", &9u64.to_le_bytes()));
    let mut left = &input[..];
    let mut seen = Vec::new();
    loop {
        match message(left, &peer()) {
            ParseResult::Done(rest, decoded) => {
                seen.push(decoded);
                left = rest;
            }
            other => {
                assert_eq!(other, ParseResult::Incomplete(Needed::Unknown));
                break;
            }
        }
    }
    assert!(left.is_empty());
    assert_eq!(
        seen,
        vec![
            Message::Ping(7),
            Message::Verack,
            Message::Inv(InvMessage { inventory: vec![] }),
            Message::Pong(9),
        ]
    );
}

#[test]
fn each_command_has_its_decoder() {
    let eight = 0x0102030405060708u64.to_le_bytes();
    let cases: Vec<(&str, Vec<u8>, Message)> = vec![
        ("ping", eight.to_vec(), Message::Ping(0x0102030405060708)),
        ("pong", eight.to_vec(), Message::Pong(0x0102030405060708)),
        ("feefilter", eight.to_vec(), Message::FeeFilter(0x0102030405060708)),
        ("bcr_pc", eight.to_vec(), Message::BitcrustPeerCount(0x0102030405060708)),
        (
            "sendcmpct",
            vec![1, 2, 0, 0, 0, 0, 0, 0, 0],
            Message::SendCompact(SendCmpctMessage { send_compact: true, version: 2 }),
        ),
        ("inv", vec![0], Message::Inv(InvMessage { inventory: vec![] })),
        ("getdata", vec![0], Message::GetData(GetdataMessage { inventory: vec![] })),
        ("addr", vec![0], Message::Addr(AddrMessage { addrs: vec![] })),
        (
            "headers",
            vec![0],
            Message::Header(HeaderMessage { count: VarInt::new(0), headers: vec![] }),
        ),
        (
            "getblocks",
            [&[1u8, 0, 0, 0, 0][..], &[3u8; 32][..]].concat(),
            Message::GetBlocks(GetblocksMessage {
                version: 1,
                locator_hashes: vec![],
                hash_stop: [3; 32],
            }),
        ),
        (
            "getheaders",
            [&[2u8, 0, 0, 0, 1][..], &[4u8; 32][..], &[5u8; 32][..]].concat(),
            Message::GetHeaders(GetheadersMessage {
                version: 2,
                locator_hashes: vec![[4; 32]],
                hash_stop: [5; 32],
            }),
        ),
        (
            "bcr_pcr",
            [&[1u8, 2, 3, 4, 5, 6, 7, 8][..], &[9u8; 32][..]].concat(),
            Message::BitcrustPeerCountRequest(AuthenticatedBitcrustMessage {
                nonce: [1, 2, 3, 4, 5, 6, 7, 8],
                signature: [9; 32],
            }),
        ),
    ];
    for (command, payload, expected) in cases {
        let input = main_frame(command, &payload);
        assert_eq!(message(&input, &peer()), ParseResult::Done(&[][..], expected));
    }
}

#[test]
fn single_number_payloads() {
    let bytes = [0xff, 0, 0, 0, 0, 0, 0, 0x80, 1];
    assert_eq!(ping(&bytes), ParseResult::Done(&[1u8][..], Message::Ping(0x8000_0000_0000_00ff)));
    assert_eq!(pong(&bytes), ParseResult::Done(&[1u8][..], Message::Pong(0x8000_0000_0000_00ff)));
    assert_eq!(
        feefilter(&bytes),
        ParseResult::Done(&[1u8][..], Message::FeeFilter(0x8000_0000_0000_00ff))
    );
    assert_eq!(
        bitcrust_peer_count(&bytes),
        ParseResult::Done(&[1u8][..], Message::BitcrustPeerCount(0x8000_0000_0000_00ff))
    );
    assert_eq!(ping(&bytes[..7]), ParseResult::Incomplete(Needed::Size(1)));
    assert_eq!(pong(&[]), ParseResult::Incomplete(Needed::Size(8)));
}

#[test]
fn send_compact_is_on_only_for_one() {
    for (flag, expected) in [(0u8, false), (1, true), (2, false), (0xff, false)] {
        let bytes = [flag, 7, 0, 0, 0, 0, 0, 0, 0];
        assert_eq!(
            send_compact(&bytes),
            ParseResult::Done(
                &[][..],
                Message::SendCompact(SendCmpctMessage { send_compact: expected, version: 7 })
            )
        );
    }
    assert_eq!(send_compact(&[]), ParseResult::Incomplete(Needed::Size(1)));
    assert_eq!(send_compact(&[1, 2]), ParseResult::Incomplete(Needed::Size(7)));
}

#[test]
fn a_peer_count_request_is_nonce_then_signature() {
    let mut bytes = vec![1u8, 2, 3, 4, 5, 6, 7, 8];
    bytes.extend_from_slice(&[0xee; 32]);
    assert_eq!(
        bitcrust_peer_count_request(&bytes),
        ParseResult::Done(
            &[][..],
            Message::BitcrustPeerCountRequest(AuthenticatedBitcrustMessage::with_signature(
                &[0xee; 32],
                &[1, 2, 3, 4, 5, 6, 7, 8]
            ))
        )
    );
    assert_eq!(bitcrust_peer_count_request(&bytes[..7]), ParseResult::Incomplete(Needed::Size(1)));
    assert_eq!(
        bitcrust_peer_count_request(&bytes[..30]),
        ParseResult::Incomplete(Needed::Size(10))
    );
}

#[test]
fn inventory_messages_hold_their_vectors_in_order() {
    let mut bytes = vec![2u8];
    bytes.extend_from_slice(&[1, 0, 0, 0]);
    bytes.extend_from_slice(&[0xaa; 32]);
    bytes.extend_from_slice(&[2, 0, 0, 0x40]);
    bytes.extend_from_slice(&[0xbb; 32]);
    bytes.push(0x77);
    let inventory = vec![InventoryVector::new(1, &[0xaa; 32]), InventoryVector::new(0x40000002, &[0xbb; 32])];
    assert_eq!(
        inv(&bytes),
        ParseResult::Done(&[0x77u8][..], Message::Inv(InvMessage { inventory: inventory.clone() }))
    );
    assert_eq!(
        getdata(&bytes),
        ParseResult::Done(&[0x77u8][..], Message::GetData(GetdataMessage { inventory: inventory.clone() }))
    );
    assert_eq!(InvMessage { inventory: inventory.clone() }.len(), 80);
    assert_eq!(GetdataMessage { inventory }.len(), 80);
    assert_eq!(inv(&bytes[..40]), ParseResult::Incomplete(Needed::Size(1)));
    assert_eq!(inv(&bytes[..41]), ParseResult::Incomplete(Needed::Size(32)));
    assert_eq!(inv(&bytes[..50]), ParseResult::Incomplete(Needed::Size(23)));
    assert_eq!(inv(&[]), ParseResult::Incomplete(Needed::Size(1)));
    assert_eq!(inv(&[0xff, 0xff, 0xff, 0xff, 0xff, 0xff, 0xff, 0xff, 0xff]), ParseResult::Incomplete(Needed::Size(4)));
    assert_eq!(
        inv_vector(&bytes[1..]),
        ParseResult::Done(&bytes[37..], InventoryVector { flags: 1, hash: [0xaa; 32] })
    );
}

fn header_bytes(seed: u8, txn_count: &[u8]) -> Vec<u8> {
    let mut out = (seed as i32).to_le_bytes().to_vec();
    out.extend_from_slice(&[seed; 32]);
    out.extend_from_slice(&[seed + 1; 32]);
    out.extend_from_slice(&(seed as u32 + 2).to_le_bytes());
    out.extend_from_slice(&(seed as u32 + 3).to_le_bytes());
    out.extend_from_slice(&(seed as u32 + 4).to_le_bytes());
    out.extend_from_slice(txn_count);
    out
}

fn header_value(seed: u8, txn_count: u64) -> BlockHeader {
    BlockHeader {
        version: seed as i32,
        prev_block: [seed; 32],
        merkle_root: [seed + 1; 32],
        timestamp: seed as u32 + 2,
        bits: seed as u32 + 3,
        nonce: seed as u32 + 4,
        txn_count: VarInt::new(txn_count),
    }
}

#[test]
fn headers_keep_their_transaction_counts() {
    let mut bytes = vec![2u8];
    bytes.extend_from_slice(&header_bytes(10, &[0]));
    bytes.extend_from_slice(&header_bytes(20, &[0xfd, 0x34, 0x12]));
    assert_eq!(
        headers(&bytes),
        ParseResult::Done(
            &[][..],
            Message::Header(HeaderMessage {
                count: VarInt::new(2),
                headers: vec![header_value(10, 0), header_value(20, 0x1234)],
            })
        )
    );
    assert_eq!(headers(&bytes[..bytes.len() - 1]), ParseResult::Incomplete(Needed::Size(1)));
    assert_eq!(headers(&bytes[..82]), ParseResult::Incomplete(Needed::Size(4)));
    assert_eq!(
        block_header(&bytes[1..]),
        ParseResult::Done(&bytes[82..], header_value(10, 0))
    );
    assert_eq!(block_header(&[1, 2]), ParseResult::Incomplete(Needed::Size(2)));
}

#[test]
fn a_locator_needs_its_stop_hash() {
    let mut bytes = vec![9u8, 0, 0, 0, 2];
    bytes.extend_from_slice(&[1; 32]);
    bytes.extend_from_slice(&[2; 32]);
    bytes.extend_from_slice(&[3; 31]);
    assert_eq!(getblocks(&bytes), ParseResult::Incomplete(Needed::Size(1)));
    bytes.push(3);
    assert_eq!(
        getblocks(&bytes),
        ParseResult::Done(
            &[][..],
            Message::GetBlocks(GetblocksMessage {
                version: 9,
                locator_hashes: vec![[1; 32], [2; 32]],
                hash_stop: [3; 32],
            })
        )
    );
    assert_eq!(getblocks(&bytes[..3]), ParseResult::Incomplete(Needed::Size(1)));
    assert_eq!(getblocks(&bytes[..4]), ParseResult::Incomplete(Needed::Size(1)));
    assert_eq!(getblocks(&bytes[..6]), ParseResult::Incomplete(Needed::Size(31)));
}

#[test]
fn addresses_come_with_their_times() {
    let mut one = 0x01020304u32.to_le_bytes().to_vec();
    one.extend_from_slice(&0x0bu64.to_le_bytes());
    one.extend_from_slice(&[0xfe, 0x80, 0, 0, 0, 0, 0, 0, 0, 1, 0, 2, 0, 3, 0, 4]);
    one.extend_from_slice(&[0x47, 0x9d]);
    let expected = NetAddr {
        time: Some(0x01020304),
        services: Services::from(0x0b),
        ip: Ipv6Address { a: 0xfe80, b: 0, c: 0, d: 0, e: 1, f: 2, g: 3, h: 4 },
        port: 18333,
    };
    assert_eq!(net_addr(&one), ParseResult::Done(&[][..], expected));
    let mut bytes = vec![2u8];
    bytes.extend_from_slice(&one);
    bytes.extend_from_slice(&one);
    assert_eq!(
        addr(&bytes),
        ParseResult::Done(&[][..], Message::Addr(AddrMessage { addrs: vec![expected, expected] }))
    );
    assert_eq!(addr(&bytes[..60]), ParseResult::Incomplete(Needed::Size(1)));
    assert_eq!(addr(&bytes[..32]), ParseResult::Incomplete(Needed::Size(3)));
    assert_eq!(addr(&bytes[..44]), ParseResult::Incomplete(Needed::Size(15)));
    assert_eq!(net_addr(&one[..29]), ParseResult::Incomplete(Needed::Size(1)));
    assert_eq!(net_addr(&one[..20]), ParseResult::Incomplete(Needed::Size(8)));
    assert_eq!(Services::from(0x0b).bits, 0x0b);
}

#[test]
fn strings_are_read_as_lossy_utf8() {
    assert_eq!(variable_str(&[0]), ParseResult::Done(&[][..], String::new()));
    assert_eq!(
        variable_str(&[3, b'a', 0xff, b'b', 9]),
        ParseResult::Done(&[9u8][..], "a\u{fffd}b".to_string())
    );
    assert_eq!(
        variable_str(&[2, 0xc3, 0xa9]),
        ParseResult::Done(&[][..], "é".to_string())
    );
    assert_eq!(variable_str(&[5, b'a']), ParseResult::Incomplete(Needed::Size(4)));
    assert_eq!(variable_str(&[]), ParseResult::Incomplete(Needed::Size(1)));
}

#[test]
fn compact_sizes_are_decoded_from_the_front() {
    assert_eq!(compact_size(&[0xfc, 1]), ParseResult::Done(&[1u8][..], 0xfc));
    assert_eq!(compact_size(&[0xfd, 1, 2, 3]), ParseResult::Done(&[3u8][..], 0x0201));
    assert_eq!(compact_size(&[0xfe, 1, 2, 3, 4]), ParseResult::Done(&[][..], 0x04030201));
    assert_eq!(
        compact_size(&[0xff, 1, 2, 3, 4, 5, 6, 7, 8]),
        ParseResult::Done(&[][..], 0x0807060504030201)
    );
    assert_eq!(compact_size(&[0xff, 1]), ParseResult::Incomplete(Needed::Size(7)));
}

#[test]
fn the_relay_byte_comes_with_version_70001() {
    for (number, relay, expected) in [
        (70001, Some(1u8), true),
        (70001, Some(0), false),
        (70001, Some(2), false),
        (70015, Some(1), true),
        (70000, None, false),
    ] {
        let payload = version_payload(number, relay);
        match version(&payload) {
            ParseResult::Done(rest, Message::Version(m)) => {
                assert!(rest.is_empty());
                assert_eq!(m.version, number);
                assert_eq!(m.relay, expected);
                assert_eq!(m.services, Services::from(5));
                assert_eq!(m.timestamp, -2);
                assert_eq!(m.addr_recv.port, 1);
                assert_eq!(m.addr_send.port, 2);
                assert_eq!(m.addr_recv.ip.a, 0x2001);
                assert_eq!(m.addr_recv.ip.b, 0x0db8);
                assert_eq!(m.addr_send.ip.h, 2);
                assert_eq!(m.addr_recv.time, None);
                assert_eq!(m.nonce, 0x1122334455667788);
                assert_eq!(m.user_agent, "hi");
                assert_eq!(m.start_height, -1);
            }
            other => panic!("not a version: {:?}", other),
        }
    }
    let payload = version_payload(70001, None);
    assert_eq!(version(&payload), ParseResult::Incomplete(Needed::Size(1)));
    let mut payload = version_payload(70000, None);
    payload.push(1);
    assert_eq!(version(&payload).unwrap().0, &[1]);
    let payload = version_payload(-1, None);
    assert!(version(&payload).is_done());
}

#[test]
fn a_version_payload_that_is_cut_short_says_what_is_missing() {
    let payload = version_payload(70001, Some(1));
    let expected = [
        (0usize, 4u64),
        (3, 1),
        (4, 8),
        (12, 8),
        (20, 8),
        (28, 16),
        (44, 2),
        (46, 8),
        (54, 16),
        (70, 2),
        (72, 8),
        (80, 1),
        (81, 2),
        (83, 4),
        (87, 1),
    ];
    for (cut, missing) in expected {
        assert_eq!(version(&payload[..cut]), ParseResult::Incomplete(Needed::Size(missing)));
    }
}
