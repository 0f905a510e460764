//! Registry scoring and selection, discovery exchanges, sessions and relay
//! fallback, and route search.

use arsonnet::discovery::{check_pong, make_ping, DiscoveryManager};
use arsonnet::registry::{check_eviction_threshold, PeerRegistry};
use arsonnet::routing;
use arsonnet::session::{
    register_challenge_bytes, registration_valid, RemoteTable, SessionTable,
};
use arsonnet::types::{
    DiscoveryMessage, KnownPeer, Node, PeerConfig, PeerNode, PeerProtocol,
};

fn config_entry(pubkey: &[u8], port: u16) -> PeerConfig {
    PeerConfig {
        name: None,
        pubkey: pubkey.to_vec(),
        address: b"127.0.0.1".to_vec(),
        port,
        protocol: PeerProtocol::Arson,
    }
}

fn node_config(pubkey: &[u8], peers: Vec<PeerConfig>) -> Node {
    Node {
        name: b"node".to_vec(),
        pubkey: pubkey.to_vec(),
        privkey: Vec::new(),
        address: b"127.0.0.1".to_vec(),
        http_port: 8181,
        public_http_port: 8181,
        arson_port: 3000,
        public_arson_port: 3000,
        secure: false,
        version: None,
        peers,
        ping_interval: 30,
        listen_port: 0,
        public_port: 0,
    }
}

fn record(pubkey: &[u8], trust: u8, failed: u32, latency: Option<u32>, key: bool) -> KnownPeer {
    KnownPeer {
        node: PeerNode {
            name: None,
            pubkey: pubkey.to_vec(),
            address: b"127.0.0.1".to_vec(),
            http_port: 0,
            arson_port: 3000,
            secure: false,
            protocols: vec![],
            version: None,
            last_seen: None,
            is_connected: false,
        },
        x25519_pubkey: if key { Some(vec![9u8; 32]) } else { None },
        last_ping: 0,
        latency_ms: latency,
        trust_score: trust,
        failed_attempts: failed,
    }
}

#[test]
fn probe_outcomes_move_trust_monotonically() {
    let mut reg = PeerRegistry::new();
    reg.bootstrap(&vec![config_entry(b"b", 3000)]);
    let fp = b"b".to_vec();

    let before = reg.get(&fp).unwrap();
    assert_eq!(before.trust_score, 50);
    assert_eq!(before.failed_attempts, 0);

    reg.mark_probe_ok(&fp, 17, 1000);
    let after_ok = reg.get(&fp).unwrap();
    assert_eq!(after_ok.trust_score, 51);
    assert_eq!(after_ok.latency_ms, Some(17));
    assert_eq!(after_ok.last_ping, 1000);
    assert_eq!(after_ok.failed_attempts, 0);

    reg.mark_probe_fail(&fp);
    let after_fail = reg.get(&fp).unwrap();
    assert_eq!(after_fail.trust_score, 46);
    assert_eq!(after_fail.failed_attempts, 1);

    // Saturation at both ends.
    for _ in 0..300 {
        reg.mark_probe_ok(&fp, 1, 1001);
    }
    assert_eq!(reg.get(&fp).unwrap().trust_score, 255);
    for _ in 0..9 {
        reg.mark_probe_fail(&fp);
    }
    let low = reg.get(&fp).unwrap();
    assert_eq!(low.trust_score, 255 - 45);
    assert_eq!(low.failed_attempts, 9);
}

#[test]
fn eleven_failures_evict_the_record() {
    let mut reg = PeerRegistry::new();
    reg.bootstrap(&vec![config_entry(b"b", 3000)]);
    let fp = b"b".to_vec();
    for i in 0..11u32 {
        assert!(reg.contains(&fp), "still present after {} failures", i);
        reg.mark_probe_fail(&fp);
    }
    assert!(!reg.contains(&fp));
    assert!(check_eviction_threshold(&b"other".to_vec()));
}

#[test]
fn peer_exchange_selection_filters_and_sorts() {
    let mut reg = PeerRegistry::new();
    reg.put(record(b"low-trust", 20, 0, None, true));
    reg.put(record(b"flaky", 90, 3, None, true));
    reg.put(record(b"good-a", 40, 0, None, true));
    reg.put(record(b"good-b", 80, 2, None, true));
    reg.put(record(b"good-c", 60, 1, None, true));

    let picked = reg.select_for_peer_exchange(10);
    let fps: Vec<Vec<u8>> = picked.iter().map(|p| p.node.pubkey.clone()).collect();
    assert_eq!(fps, vec![b"good-b".to_vec(), b"good-c".to_vec(), b"good-a".to_vec()]);

    let capped = reg.select_for_peer_exchange(2);
    assert_eq!(capped.len(), 2);
    assert_eq!(capped[0].node.pubkey, b"good-b".to_vec());
}

#[test]
fn circuit_hop_selection_filters_and_orders() {
    let mut reg = PeerRegistry::new();
    reg.put(record(b"no-key", 90, 0, Some(10), false));
    reg.put(record(b"low-trust", 30, 0, Some(10), true));
    reg.put(record(b"flaky", 90, 3, Some(10), true));
    reg.put(record(b"excluded", 90, 0, Some(10), true));
    reg.put(record(b"fast", 80, 0, Some(10), true));
    reg.put(record(b"slow", 80, 0, Some(900), true));
    reg.put(record(b"unknown-latency", 80, 0, None, true));

    let exclude = vec![b"excluded".to_vec()];
    let picked = reg.select_circuit_hops(10, &exclude);
    let fps: Vec<Vec<u8>> = picked.iter().map(|p| p.node.pubkey.clone()).collect();
    // Scores: fast 80-1=79, slow 80-90=-10, unknown 80-100=-20.
    assert_eq!(fps, vec![b"fast".to_vec(), b"slow".to_vec(), b"unknown-latency".to_vec()]);
    for p in &picked {
        assert!(p.trust_score > 30);
        assert!(p.x25519_pubkey.is_some());
        assert!(p.failed_attempts < 3);
        assert_ne!(p.node.pubkey, b"excluded".to_vec());
    }

    let two = reg.select_circuit_hops(2, &exclude);
    assert_eq!(two.len(), 2);
}

#[test]
fn ping_pong_round_and_nonce_mismatch() {
    // S-style: a ping is answered with the echoed nonce, the round trip is
    // recorded, and a wrong nonce is rejected.
    let nonce = vec![0xde, 0xad, 0xbe, 0xef, 0xde, 0xad, 0xbe, 0xef];
    let ping = make_ping(5000, nonce.clone());

    let (bsk, bpk) = arsonnet::crypto::generate_ed25519_keypair();
    let mut b = DiscoveryManager::new(node_config(b"b", vec![]), bsk, bpk);
    let reply = b.handle_discovery(ping, 6000).expect("a ping is answered");
    match &reply {
        DiscoveryMessage::Pong { timestamp, nonce: echoed, original_timestamp } => {
            assert_eq!(*timestamp, 6000);
            assert_eq!(echoed, &nonce);
            assert_eq!(*original_timestamp, 5000);
        },
        other => panic!("expected a pong, got {:?}", other),
    }
    assert!(check_pong(&nonce, &reply));
    let wrong = vec![0u8; 8];
    assert!(!check_pong(&wrong, &reply));

    let (ask, apk) = arsonnet::crypto::generate_ed25519_keypair();
    let mut a = DiscoveryManager::new(node_config(b"a", vec![config_entry(b"b", 3000)]), ask, apk);
    a.bootstrap_peers();
    a.registry_mut().mark_probe_ok(&b"b".to_vec(), 12, 7000);
    let rec = a.registry().get(&b"b".to_vec()).unwrap();
    assert!(rec.latency_ms.unwrap() > 0);
    assert_eq!(rec.failed_attempts, 0);
}

#[test]
fn peer_exchange_sweep_merges_without_self() {
    // S-style: A starts from [B]; B returns [C, D, E] and A's own
    // fingerprint; afterwards A knows B, C, D and E but never itself.
    let (bsk, bpk) = arsonnet::crypto::generate_ed25519_keypair();
    let mut b = DiscoveryManager::new(node_config(b"b", vec![]), bsk, bpk);
    b.registry_mut().put(record(b"c", 50, 0, None, true));
    b.registry_mut().put(record(b"d", 50, 0, None, true));
    b.registry_mut().put(record(b"e", 50, 0, None, true));
    b.registry_mut().put(record(b"a", 50, 0, None, true));

    let reply = b.handle_discovery(DiscoveryMessage::GetPeers { max_count: 10 }, 100).unwrap();
    let peers = match reply {
        DiscoveryMessage::PeerList { peers } => peers,
        other => panic!("expected a peer list, got {:?}", other),
    };
    assert_eq!(peers.len(), 4);

    let (ask, apk) = arsonnet::crypto::generate_ed25519_keypair();
    let mut a = DiscoveryManager::new(node_config(b"a", vec![config_entry(b"b", 3000)]), ask, apk);
    a.bootstrap_peers();
    a.merge_discovered(peers);
    for fp in [b"b" as &[u8], b"c", b"d", b"e"] {
        assert!(a.registry().contains(&fp.to_vec()), "missing {:?}", fp);
    }
    assert!(!a.registry().contains(&b"a".to_vec()), "a node never lists itself");
}

#[test]
fn announce_with_valid_signature_upserts_and_forged_one_does_not() {
    let (ask, apk) = arsonnet::crypto::generate_ed25519_keypair();
    let a = DiscoveryManager::new(node_config(b"a", vec![]), ask, apk);
    let (announcement, agreement_key) = a.create_announcement(500).expect("announce");
    let announcer_fp = announcement.node.pubkey.clone();

    let (bsk, bpk) = arsonnet::crypto::generate_ed25519_keypair();
    let mut b = DiscoveryManager::new(node_config(b"b", vec![]), bsk.clone(), bpk.clone());
    let reply = b.handle_discovery(
        DiscoveryMessage::Announce { node: announcement, x25519_pubkey: agreement_key.clone() },
        600,
    );
    assert!(reply.is_none());
    let rec = b.registry().get(&announcer_fp).expect("announcer inserted");
    assert_eq!(rec.trust_score, 30);
    assert_eq!(rec.failed_attempts, 0);
    assert_eq!(rec.x25519_pubkey, Some(agreement_key.clone()));
    assert_eq!(rec.last_ping, 600);

    // A good payload under a tampered signature changes nothing.
    let (mut forged, key2) = a.create_announcement(700).expect("announce");
    forged.signature[0] = if forged.signature[0] == b'0' { b'1' } else { b'0' };
    let forged_fp = forged.node.pubkey.clone();
    let mut c = DiscoveryManager::new(node_config(b"c", vec![]), bsk, bpk);
    c.handle_discovery(DiscoveryMessage::Announce { node: forged, x25519_pubkey: key2 }, 700);
    assert!(!c.registry().contains(&forged_fp));
}

#[test]
fn sessions_are_unique_per_fingerprint() {
    let mut table = SessionTable::new();
    assert_eq!(table.register_connection(b"u1".to_vec(), 1, 100), None);
    assert_eq!(table.len(), 1);
    // A second successful registration replaces and reports the old session.
    assert_eq!(table.register_connection(b"u1".to_vec(), 2, 200), Some(1));
    assert_eq!(table.len(), 1);
    assert_eq!(table.send_to_peer(&b"u1".to_vec()), Some(2));

    assert_eq!(table.register_connection(b"u2".to_vec(), 3, 300), None);
    assert_eq!(table.len(), 2);
    let targets = table.broadcast_targets(&b"u1".to_vec());
    assert_eq!(targets, vec![3]);

    assert_eq!(table.unregister_connection(&b"u1".to_vec()), Some(2));
    assert_eq!(table.send_to_peer(&b"u1".to_vec()), None);
    assert_eq!(table.unregister_connection(&b"u1".to_vec()), None);
}

#[test]
fn local_miss_falls_back_to_reachable_remotes() {
    // S-style: U1 is registered at A, U2 at B; A misses locally, relays to
    // B, and B delivers.
    let mut a_sessions = SessionTable::new();
    a_sessions.register_connection(b"u1".to_vec(), 1, 100);
    assert_eq!(a_sessions.send_to_peer(&b"u2".to_vec()), None);

    let configs = vec![config_entry(b"zzz", 4000), {
        let mut c = config_entry(b"b", 8282);
        c.protocol = PeerProtocol::Ws;
        c
    }];
    let mut remotes = RemoteTable::from_configs(&configs);
    assert_eq!(remotes.relay_candidates().len(), 0);
    remotes.record_connectivity(&b"b".to_vec(), true, 150);
    let candidates = remotes.relay_candidates();
    assert_eq!(candidates.len(), 1);
    assert_eq!(candidates[0].pubkey, b"b".to_vec());
    assert_eq!(candidates[0].http_port, 8282);

    let mut b_sessions = SessionTable::new();
    b_sessions.register_connection(b"u2".to_vec(), 9, 120);
    assert_eq!(b_sessions.send_to_peer(&b"u2".to_vec()), Some(9));
}

#[test]
fn registration_challenge_and_dev_sentinel() {
    assert_eq!(register_challenge_bytes(120), b"register:2".to_vec());
    assert_eq!(register_challenge_bytes(3599), b"register:59".to_vec());
    assert!(registration_valid(true, &b"anything".to_vec(), false));
    assert!(registration_valid(false, &b"dev_mode".to_vec(), true));
    assert!(!registration_valid(false, &b"dev_mode".to_vec(), false));
    assert!(!registration_valid(false, &b"guess".to_vec(), true));
}

#[test]
fn node_migration_and_derived_descriptors() {
    let mut node = node_config(b"a", vec![]);
    node.http_port = 0;
    node.listen_port = 4444;
    node.public_port = 5555;
    node.migrate_legacy();
    assert_eq!(node.http_port, 8181);
    assert_eq!(node.public_http_port, 5555);
    assert_eq!(node.arson_port, 4444);
    assert_eq!(node.public_arson_port, 4444);

    let peer = PeerNode::from_config(&config_entry(b"b", 3000));
    assert_eq!(peer.arson_port, 3000);
    assert_eq!(peer.http_port, 0);
    assert_eq!(peer.arson_addr(), Some(b"127.0.0.1:3000".to_vec()));
    assert_eq!(peer.ws_url(), None);

    let mut ws_config = config_entry(b"c", 8181);
    ws_config.protocol = PeerProtocol::Wss;
    let ws_peer = PeerNode::from_config(&ws_config);
    assert_eq!(ws_peer.ws_url(), Some(b"wss://127.0.0.1:8181/p2p/ws".to_vec()));
    assert_eq!(ws_peer.arson_addr(), None);
}

#[test]
fn route_search_over_the_mesh() {
    let grandchild = routing::PeerNode::new(b"g".to_vec(), b"h3".to_vec(), 1, false);
    let mut child = routing::PeerNode::new(b"c".to_vec(), b"h2".to_vec(), 1, false);
    child.peers = Some(vec![grandchild]);
    let direct = routing::PeerNode::new(b"d".to_vec(), b"h1".to_vec(), 1, false);
    let me = routing::Node {
        name: b"me".to_vec(),
        pubkey: b"self".to_vec(),
        privkey: Vec::new(),
        address: b"h0".to_vec(),
        listen_port: 1,
        public_port: 1,
        secure: false,
        version: None,
        peers: vec![direct, child],
        ping_interval: 30,
    };

    assert_eq!(me.find_route(&b"self".to_vec()).unwrap(), Vec::<Vec<u8>>::new());
    assert_eq!(me.find_route(&b"d".to_vec()).unwrap(), vec![b"d".to_vec()]);
    assert_eq!(
        me.find_route(&b"g".to_vec()).unwrap(),
        vec![b"c".to_vec(), b"g".to_vec()]
    );
    assert_eq!(
        me.find_route(&b"nowhere".to_vec()).unwrap_err(),
        routing::RouteError::NoRoute
    );
}

#[test]
fn manager_exposes_registry_views() {
    let (sk, pk) = arsonnet::crypto::generate_ed25519_keypair();
    let mut m = DiscoveryManager::new(node_config(b"a", vec![]), sk, pk);
    m.registry_mut().put(record(b"good", 80, 0, Some(10), true));
    m.registry_mut().put(record(b"keyless", 80, 0, Some(10), false));
    assert_eq!(m.get_known_peers().len(), 2);
    let hops = m.get_circuit_peers(5, &vec![]);
    assert_eq!(hops.len(), 1);
    assert_eq!(hops[0].node.pubkey, b"good".to_vec());
}

#[test]
fn hop_resolution_reports_the_first_offender() {
    let mut reg = PeerRegistry::new();
    reg.put(record(b"b", 50, 0, None, true));
    reg.put(record(b"c", 50, 0, None, false));

    let hops = reg.hops_for(&vec![b"b".to_vec()]).unwrap();
    assert_eq!(hops.len(), 1);
    assert_eq!(hops[0].node.pubkey, b"b".to_vec());

    let keyless = reg.hops_for(&vec![b"b".to_vec(), b"c".to_vec()]);
    assert_eq!(keyless.unwrap_err(), arsonnet::errors::OnionError::NoAgreementKey(1));
    let missing = reg.hops_for(&vec![b"nope".to_vec()]);
    assert_eq!(missing.unwrap_err(), arsonnet::errors::OnionError::NoAgreementKey(0));
}

#[test]
fn bootstrap_records_carry_the_configured_descriptor() {
    let mut reg = PeerRegistry::new();
    reg.bootstrap(&vec![config_entry(b"b", 3000), config_entry(b"c", 3001)]);
    for (fp, port) in [(b"b".to_vec(), 3000u16), (b"c".to_vec(), 3001u16)] {
        let rec = reg.get(&fp).unwrap();
        assert_eq!(rec.node.pubkey, fp);
        assert_eq!(rec.node.address, b"127.0.0.1".to_vec());
        assert_eq!(rec.node.arson_port, port);
        assert_eq!(rec.x25519_pubkey, None);
        assert_eq!(rec.last_ping, 0);
        assert_eq!(rec.latency_ms, None);
        assert_eq!(rec.trust_score, 50);
        assert_eq!(rec.failed_attempts, 0);
    }
}

#[test]
fn announcement_is_owed_for_ordinary_configs() {
    let (sk, pk) = arsonnet::crypto::generate_ed25519_keypair();
    let m = DiscoveryManager::new(node_config(b"a", vec![]), sk, pk);
    let (signed, agreement_key) = m.create_announcement(400).expect("announcement owed");
    assert_eq!(agreement_key.len(), 32);
    assert_eq!(signed.node.name, Some(b"node".to_vec()));
    assert_eq!(signed.node.http_port, 8181);
    assert_eq!(signed.node.arson_port, 3000);
    assert_eq!(signed.node.last_seen, Some(400));
    assert!(signed.node.is_connected);
}
