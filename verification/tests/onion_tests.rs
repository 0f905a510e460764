//! Onion circuits end to end: single hop, three hops, and replay defense.

use arsonnet::codec::{decode_packet, decode_routed_message, encode_packet, encode_routed_message};
use arsonnet::crypto::generate_x25519_keypair;
use arsonnet::errors::OnionError;
use arsonnet::onion::{check_onion_round_trip, HopSecret, OnionRouter};
use arsonnet::types::{
    KnownPeer, NodePacket, OnionPacket, PeerNode, RoutedMessage, RoutedMessageType,
};

fn hop_record(label: &[u8], x25519_pubkey: Vec<u8>) -> KnownPeer {
    KnownPeer {
        node: PeerNode {
            name: None,
            pubkey: label.to_vec(),
            address: b"127.0.0.1".to_vec(),
            http_port: 0,
            arson_port: 3000,
            secure: false,
            protocols: vec![],
            version: None,
            last_seen: None,
            is_connected: false,
        },
        x25519_pubkey: Some(x25519_pubkey),
        last_ping: 0,
        latency_ms: None,
        trust_score: 50,
        failed_attempts: 0,
    }
}

fn unwrap_at(
    router: &mut OnionRouter,
    packet: &OnionPacket,
    now: u64,
) -> (Vec<u8>, Option<arsonnet::types::NextHop>) {
    router.unwrap_layer(packet, None, now).expect("layer must open")
}

#[test]
fn single_hop_echo() {
    // S-style: A builds a one-hop onion to B; B's exit handler sees the
    // message; the response decrypts at A to the three-byte acknowledgement.
    let (ask, apk) = generate_x25519_keypair();
    let a = OnionRouter::new(ask, apk);
    let (bsk, bpk) = generate_x25519_keypair();
    let mut b = OnionRouter::new(bsk.clone(), bpk.clone());

    let message = RoutedMessage {
        message_type: RoutedMessageType::Chat,
        payload: b"hello".to_vec(),
        timestamp: 42,
    };
    let payload = encode_routed_message(&message).unwrap();
    let hops = vec![hop_record(b"b", bpk)];
    let (packet, secrets) = a.create_onion_packet(&hops, &payload).expect("build");

    let (inner, next_hop) = unwrap_at(&mut b, &packet, 1000);
    assert!(next_hop.is_none());
    let delivered = decode_routed_message(&inner).expect("routed message decodes");
    assert_eq!(delivered.message_type, RoutedMessageType::Chat);
    assert_eq!(delivered.payload, b"hello".to_vec());
    assert_eq!(delivered.timestamp, 42);

    let response = b.create_response(&packet.packet_id, &b"ACK".to_vec()).expect("respond");
    let recovered = a.decrypt_response(&secrets, &response).expect("decrypt");
    assert_eq!(recovered, b"ACK".to_vec());
}

#[test]
fn three_hop_circuit() {
    // S-style: A routes through B, C, D; D delivers; the response walks
    // D -> C -> B -> A; B and C each hold one circuit entry.
    let (ask, apk) = generate_x25519_keypair();
    let a = OnionRouter::new(ask, apk);
    let mut relays: Vec<OnionRouter> = Vec::new();
    let mut hops: Vec<KnownPeer> = Vec::new();
    for label in [b"b" as &[u8], b"c", b"d"] {
        let (sk, pk) = generate_x25519_keypair();
        relays.push(OnionRouter::new(sk, pk.clone()));
        hops.push(hop_record(label, pk));
    }

    let payload = b"xyz".to_vec();
    let (outer, secrets) = a.create_onion_packet(&hops, &payload).expect("build");
    assert_eq!(secrets.len(), 3);

    // Forward path.
    let mut packet = outer;
    let mut packet_ids: Vec<Vec<u8>> = Vec::new();
    for i in 0..3 {
        packet_ids.push(packet.packet_id.clone());
        let (inner, next_hop) = unwrap_at(&mut relays[i], &packet, 1000);
        if i < 2 {
            assert!(next_hop.is_some(), "relay {} must see a next hop", i);
            match decode_packet(&inner) {
                Some(NodePacket::Onion(p)) => packet = p,
                other => panic!("inner bytes must be an onion packet, got {:?}", other.is_some()),
            }
        } else {
            assert!(next_hop.is_none(), "the exit sees no next hop");
            assert_eq!(inner, payload);
        }
    }
    assert_eq!(relays[0].circuit_count(), 1);
    assert_eq!(relays[1].circuit_count(), 1);
    assert_eq!(relays[2].circuit_count(), 1);

    // Response path.
    let mut response = relays[2].create_response(&packet_ids[2], &b"ACK".to_vec()).unwrap();
    response = relays[1].relay_response(&packet_ids[1], &response).unwrap();
    response = relays[0].relay_response(&packet_ids[0], &response).unwrap();
    let recovered = a.decrypt_response(&secrets, &response).expect("decrypt");
    assert_eq!(recovered, b"ACK".to_vec());
}

#[test]
fn replay_is_dropped_without_side_effect() {
    // S-style: repeating the outer packet yields no reply and leaves the
    // replay cache as it was.
    let (ask, apk) = generate_x25519_keypair();
    let a = OnionRouter::new(ask, apk);
    let (bsk, bpk) = generate_x25519_keypair();
    let mut b = OnionRouter::new(bsk, bpk.clone());

    let payload = b"once".to_vec();
    let hops = vec![hop_record(b"b", bpk)];
    let (packet, _secrets) = a.create_onion_packet(&hops, &payload).expect("build");

    assert!(b.unwrap_layer(&packet, None, 1000).is_ok());
    let cache_after_first = b.replay_cache_len();
    assert_eq!(cache_after_first, 1);

    let replayed = b.unwrap_layer(&packet, None, 1001);
    assert_eq!(replayed.unwrap_err(), OnionError::ReplayDetected);
    assert_eq!(b.replay_cache_len(), cache_after_first);
    assert_eq!(b.circuit_count(), 1);
}

#[test]
fn empty_hop_list_is_rejected() {
    let (ask, apk) = generate_x25519_keypair();
    let a = OnionRouter::new(ask, apk);
    let r = a.create_onion_packet(&vec![], &b"p".to_vec());
    assert_eq!(r.unwrap_err(), OnionError::NoHops);
}

#[test]
fn hop_without_agreement_key_is_rejected() {
    let (ask, apk) = generate_x25519_keypair();
    let a = OnionRouter::new(ask, apk);
    let mut hop = hop_record(b"b", vec![0u8; 32]);
    hop.x25519_pubkey = None;
    let r = a.create_onion_packet(&vec![hop], &b"p".to_vec());
    assert_eq!(r.unwrap_err(), OnionError::NoAgreementKey(0));
}

#[test]
fn response_for_unknown_circuit_is_refused() {
    let (sk, pk) = generate_x25519_keypair();
    let router = OnionRouter::new(sk, pk);
    let r = router.create_response(&vec![0u8; 16], &b"ACK".to_vec());
    assert_eq!(r.unwrap_err(), OnionError::CircuitExpired);
}

#[test]
fn oversized_response_is_refused() {
    let (ask, apk) = generate_x25519_keypair();
    let a = OnionRouter::new(ask, apk);
    let (bsk, bpk) = generate_x25519_keypair();
    let mut b = OnionRouter::new(bsk, bpk.clone());
    let hops = vec![hop_record(b"b", bpk)];
    let (packet, _secrets) = a.create_onion_packet(&hops, &b"p".to_vec()).unwrap();
    b.unwrap_layer(&packet, None, 1000).unwrap();
    let big = vec![0u8; 64 * 1024 + 1];
    let r = b.create_response(&packet.packet_id, &big);
    assert_eq!(r.unwrap_err(), OnionError::PacketTooLarge);
    let at_cap = vec![0u8; 64 * 1024];
    assert!(b.create_response(&packet.packet_id, &at_cap).is_ok());
}

#[test]
fn proved_round_trip_also_runs() {
    assert!(check_onion_round_trip(1, &b"payload".to_vec(), &b"ACK".to_vec()));
    assert!(check_onion_round_trip(3, &b"xyz".to_vec(), &b"ACK".to_vec()));
    assert!(check_onion_round_trip(8, &vec![0u8; 8192], &vec![1u8; 65536]));
}

#[test]
fn circuit_entries_expire_after_ttl() {
    let (ask, apk) = generate_x25519_keypair();
    let a = OnionRouter::new(ask, apk);
    let (bsk, bpk) = generate_x25519_keypair();
    let mut b = OnionRouter::new(bsk, bpk.clone());
    let hops = vec![hop_record(b"b", bpk.clone())];
    let (first, _) = a.create_onion_packet(&hops, &b"one".to_vec()).unwrap();
    b.unwrap_layer(&first, None, 1000).unwrap();
    assert_eq!(b.circuit_count(), 1);

    // A second packet arriving past the ten-minute window prunes the first
    // circuit entry; the response for it is then refused.
    let (second, _) = a.create_onion_packet(&hops, &b"two".to_vec()).unwrap();
    b.unwrap_layer(&second, None, 1000 + 600).unwrap();
    assert_eq!(b.circuit_count(), 1);
    let r = b.create_response(&first.packet_id, &b"ACK".to_vec());
    assert_eq!(r.unwrap_err(), OnionError::CircuitExpired);
}

#[test]
fn hop_secrets_are_fresh_per_layer() {
    let (ask, apk) = generate_x25519_keypair();
    let a = OnionRouter::new(ask, apk);
    let mut hops: Vec<KnownPeer> = Vec::new();
    for label in [b"b" as &[u8], b"c"] {
        let (_sk, pk) = generate_x25519_keypair();
        hops.push(hop_record(label, pk));
    }
    let (_packet, secrets) = a.create_onion_packet(&hops, &b"p".to_vec()).unwrap();
    let HopSecret { key: k0, nonce: n0 } = &secrets[0];
    let HopSecret { key: k1, nonce: n1 } = &secrets[1];
    assert_ne!(k0, k1);
    assert_ne!(n0, n1);
}
