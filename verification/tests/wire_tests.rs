//! Wire codec, framing and hex round trips, with boundary cases.

use arsonnet::codec::{
    decode_layer, decode_packet, decode_routed_message, encode_layer, encode_packet,
    encode_routed_message, frame_body, parse_frame_len,
};
use arsonnet::errors::CodecError;
use arsonnet::hex::{hex_decode, hex_encode};
use arsonnet::types::{
    DiscoveryMessage, KnownPeer, NextHop, NodePacket, OnionLayer, OnionPacket, OnionResponse,
    PeerNode, PeerProtocol, RoutedMessage, RoutedMessageType, SignedNode,
};

fn sample_peer_node() -> PeerNode {
    PeerNode {
        name: Some(b"alpha".to_vec()),
        pubkey: b"fingerprint-a".to_vec(),
        address: b"10.0.0.1".to_vec(),
        http_port: 8181,
        arson_port: 3000,
        secure: true,
        protocols: vec![PeerProtocol::Arson, PeerProtocol::Wss],
        version: None,
        last_seen: Some(123456),
        is_connected: false,
    }
}

fn sample_known_peer() -> KnownPeer {
    KnownPeer {
        node: sample_peer_node(),
        x25519_pubkey: Some(vec![7u8; 32]),
        last_ping: 42,
        latency_ms: Some(17),
        trust_score: 88,
        failed_attempts: 2,
    }
}

#[test]
fn packet_round_trip_onion() {
    let packet = NodePacket::Onion(OnionPacket {
        packet_id: (0u8..16).collect(),
        ephemeral_pubkey: vec![9u8; 32],
        encrypted_payload: b"ciphertext".to_vec(),
        nonce: vec![1u8; 12],
    });
    let bytes = encode_packet(&packet).expect("encodable");
    let decoded = decode_packet(&bytes).expect("decodable");
    assert_eq!(decoded, packet);
    let again = encode_packet(&decoded).expect("encodable");
    assert_eq!(again, bytes);
}

#[test]
fn packet_round_trip_onion_response() {
    let packet = NodePacket::OnionResponse(OnionResponse {
        packet_id: vec![3u8; 16],
        encrypted_response: vec![],
        nonce: vec![2u8; 12],
    });
    let bytes = encode_packet(&packet).expect("encodable");
    assert_eq!(decode_packet(&bytes), Some(packet));
}

#[test]
fn packet_round_trip_discovery_variants() {
    let variants = vec![
        DiscoveryMessage::Ping { timestamp: 7, nonce: vec![0xde, 0xad, 0xbe, 0xef, 1, 2, 3, 4] },
        DiscoveryMessage::Pong {
            timestamp: 9,
            nonce: vec![0xde, 0xad, 0xbe, 0xef, 1, 2, 3, 4],
            original_timestamp: 7,
        },
        DiscoveryMessage::GetPeers { max_count: 10 },
        DiscoveryMessage::PeerList { peers: vec![sample_known_peer()] },
        DiscoveryMessage::Announce {
            node: SignedNode { node: sample_peer_node(), signature: b"00ff".to_vec() },
            x25519_pubkey: vec![5u8; 32],
        },
    ];
    for v in variants {
        let packet = NodePacket::Discovery(v);
        let bytes = encode_packet(&packet).expect("encodable");
        let decoded = decode_packet(&bytes).expect("decodable");
        assert_eq!(decoded, packet);
        assert_eq!(encode_packet(&decoded).unwrap(), bytes);
    }
}

#[test]
fn decode_rejects_trailing_bytes() {
    let packet = NodePacket::Discovery(DiscoveryMessage::GetPeers { max_count: 1 });
    let mut bytes = encode_packet(&packet).unwrap();
    bytes.push(0);
    assert_eq!(decode_packet(&bytes), None);
}

#[test]
fn decode_rejects_bad_tag() {
    assert_eq!(decode_packet(&vec![9u8]), None);
    assert_eq!(decode_packet(&Vec::new()), None);
}

#[test]
fn layer_round_trip() {
    let layer = OnionLayer {
        next_hop: Some(NextHop { address: b"h2".to_vec(), port: 3001, pubkey: b"fp2".to_vec() }),
        inner_packet: b"inner".to_vec(),
    };
    let bytes = encode_layer(&layer).unwrap();
    assert_eq!(decode_layer(&bytes), Some(layer));

    let exit = OnionLayer { next_hop: None, inner_packet: b"payload".to_vec() };
    let bytes = encode_layer(&exit).unwrap();
    assert_eq!(decode_layer(&bytes), Some(exit));
}

#[test]
fn routed_message_round_trip() {
    for t in [
        RoutedMessageType::Chat,
        RoutedMessageType::FileRequest,
        RoutedMessageType::FileChunk,
        RoutedMessageType::PeerDiscovery,
        RoutedMessageType::KeepAlive,
    ] {
        let m = RoutedMessage { message_type: t, payload: b"xyz".to_vec(), timestamp: 42 };
        let bytes = encode_routed_message(&m).unwrap();
        assert_eq!(decode_routed_message(&bytes), Some(m));
    }
}

#[test]
fn frame_cap_boundary() {
    let at_cap = vec![0u8; 10 * 1024 * 1024];
    let framed = frame_body(&at_cap).expect("exactly the cap is accepted");
    assert_eq!(framed.len(), at_cap.len() + 4);
    let header: Vec<u8> = framed[0..4].to_vec();
    assert_eq!(parse_frame_len(&header), Ok(10 * 1024 * 1024));

    let over_cap = vec![0u8; 10 * 1024 * 1024 + 1];
    assert_eq!(frame_body(&over_cap), Err(CodecError::FrameTooLarge));

    let over_header: Vec<u8> = vec![0x00, 0xa0, 0x00, 0x01];
    assert_eq!(parse_frame_len(&over_header), Err(CodecError::FrameTooLarge));
}

#[test]
fn frame_header_is_big_endian() {
    let body = b"abc".to_vec();
    let framed = frame_body(&body).unwrap();
    assert_eq!(&framed[0..4], &[0, 0, 0, 3]);
    assert_eq!(&framed[4..], b"abc");
}

#[test]
fn hex_round_trip() {
    let data = vec![0x00, 0x0f, 0xa5, 0xff];
    let text = hex_encode(&data);
    assert_eq!(text, b"000fa5ff".to_vec());
    assert_eq!(hex_decode(&text), Some(data));
}

#[test]
fn hex_rejects_bad_text() {
    assert_eq!(hex_decode(&b"abc".to_vec()), None);
    assert_eq!(hex_decode(&b"zz".to_vec()), None);
    assert_eq!(hex_decode(&b"AB".to_vec()), None);
    assert_eq!(hex_decode(&Vec::new()), Some(Vec::new()));
}
