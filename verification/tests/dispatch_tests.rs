//! The client-channel dispatcher: registration outcomes, local and remote
//! delivery, and the liveness replies.

use arsonnet::session::{
    handle_client_message, ClientAction, RemoteTable, SessionTable, WsClientMessage,
    WsServerMessage,
};
use arsonnet::types::{PeerConfig, PeerNode, PeerProtocol};

fn ws_remote(pubkey: &[u8], port: u16) -> PeerConfig {
    PeerConfig {
        name: None,
        pubkey: pubkey.to_vec(),
        address: b"10.0.0.2".to_vec(),
        port,
        protocol: PeerProtocol::Ws,
    }
}

#[test]
fn failed_registration_leaves_no_session() {
    let mut sessions = SessionTable::new();
    let remotes = RemoteTable::from_configs(&vec![]);
    let actions = handle_client_message(
        &mut sessions,
        &remotes,
        &None,
        7,
        WsClientMessage::Register { pubkey: b"u1".to_vec(), signature: b"bogus".to_vec() },
        false,
        false,
        None,
        600,
    );
    assert_eq!(actions.len(), 1);
    match &actions[0] {
        ClientAction::Reply(WsServerMessage::Registered { success, .. }) => assert!(!success),
        other => panic!("expected a refusal, got {:?}", other),
    }
    assert_eq!(sessions.len(), 0);
}

#[test]
fn registration_replaces_and_notifies() {
    let mut sessions = SessionTable::new();
    let remotes = RemoteTable::from_configs(&vec![]);
    sessions.register_connection(b"u2".to_vec(), 5, 100);
    sessions.register_connection(b"u1".to_vec(), 6, 100);

    // u1 registers again on a new channel: the old channel is closed, the
    // other session hears the presence broadcast, and the reply succeeds.
    let actions = handle_client_message(
        &mut sessions,
        &remotes,
        &None,
        9,
        WsClientMessage::Register { pubkey: b"u1".to_vec(), signature: b"dev_mode".to_vec() },
        false,
        true,
        None,
        700,
    );
    assert_eq!(sessions.len(), 2);
    assert_eq!(sessions.send_to_peer(&b"u1".to_vec()), Some(9));
    let mut closed = Vec::new();
    let mut status_targets = Vec::new();
    let mut registered_ok = false;
    for action in &actions {
        match action {
            ClientAction::CloseChannel { handle } => closed.push(*handle),
            ClientAction::Deliver { handle, message } => match message {
                WsServerMessage::PeerStatus { pubkey, online } => {
                    assert_eq!(pubkey, &b"u1".to_vec());
                    assert!(online);
                    status_targets.push(*handle);
                },
                other => panic!("unexpected delivery {:?}", other),
            },
            ClientAction::Reply(WsServerMessage::Registered { success, .. }) => {
                registered_ok = *success;
            },
            other => panic!("unexpected action {:?}", other),
        }
    }
    assert_eq!(closed, vec![6]);
    assert_eq!(status_targets, vec![5]);
    assert!(registered_ok);
}

#[test]
fn send_prefers_local_delivery() {
    let mut sessions = SessionTable::new();
    let remotes = RemoteTable::from_configs(&vec![ws_remote(b"b", 8282)]);
    sessions.register_connection(b"u2".to_vec(), 4, 100);
    let actions = handle_client_message(
        &mut sessions,
        &remotes,
        &Some(b"u1".to_vec()),
        7,
        WsClientMessage::SendMessage {
            to_pubkey: b"u2".to_vec(),
            encrypted_payload: b"sealed".to_vec(),
        },
        false,
        false,
        None,
        900,
    );
    assert_eq!(actions.len(), 1);
    match &actions[0] {
        ClientAction::Deliver { handle, message } => {
            assert_eq!(*handle, 4);
            match message {
                WsServerMessage::IncomingMessage { from_pubkey, encrypted_payload, timestamp } => {
                    assert_eq!(from_pubkey, &b"u1".to_vec());
                    assert_eq!(encrypted_payload, &b"sealed".to_vec());
                    assert_eq!(*timestamp, 900);
                },
                other => panic!("unexpected message {:?}", other),
            }
        },
        other => panic!("expected local delivery, got {:?}", other),
    }
}

#[test]
fn send_falls_back_to_reachable_remotes() {
    let mut sessions = SessionTable::new();
    let mut remotes = RemoteTable::from_configs(&vec![ws_remote(b"b", 8282)]);
    remotes.record_connectivity(&b"b".to_vec(), true, 100);
    let actions = handle_client_message(
        &mut sessions,
        &remotes,
        &Some(b"u1".to_vec()),
        7,
        WsClientMessage::SendMessage {
            to_pubkey: b"u2".to_vec(),
            encrypted_payload: b"sealed".to_vec(),
        },
        false,
        false,
        None,
        900,
    );
    assert_eq!(actions.len(), 1);
    match &actions[0] {
        ClientAction::TryRelay { targets, relay, on_failure } => {
            assert_eq!(targets.len(), 1);
            assert_eq!(targets[0].pubkey, b"b".to_vec());
            assert_eq!(relay.to_pubkey, b"u2".to_vec());
            assert!(matches!(on_failure, WsServerMessage::Error { .. }));
        },
        other => panic!("expected a relay attempt, got {:?}", other),
    }
}

#[test]
fn unregistered_sender_is_ignored() {
    let mut sessions = SessionTable::new();
    let remotes = RemoteTable::from_configs(&vec![]);
    let actions = handle_client_message(
        &mut sessions,
        &remotes,
        &None,
        7,
        WsClientMessage::SendMessage {
            to_pubkey: b"u2".to_vec(),
            encrypted_payload: b"sealed".to_vec(),
        },
        false,
        false,
        None,
        900,
    );
    assert!(actions.is_empty());
}

#[test]
fn ping_and_list_peers_reply() {
    let mut sessions = SessionTable::new();
    let remotes = RemoteTable::from_configs(&vec![]);
    sessions.register_connection(b"u1".to_vec(), 1, 100);
    sessions.register_connection(b"u2".to_vec(), 2, 100);

    let pong = handle_client_message(
        &mut sessions,
        &remotes,
        &Some(b"u1".to_vec()),
        1,
        WsClientMessage::Ping,
        false,
        false,
        None,
        900,
    );
    assert!(matches!(&pong[0], ClientAction::Reply(WsServerMessage::Pong)));

    let listed = handle_client_message(
        &mut sessions,
        &remotes,
        &Some(b"u1".to_vec()),
        1,
        WsClientMessage::ListPeers,
        false,
        false,
        None,
        900,
    );
    match &listed[0] {
        ClientAction::Reply(WsServerMessage::PeerList { peers }) => {
            assert_eq!(peers.len(), 2);
            assert!(peers.iter().all(|p| p.is_connected));
        },
        other => panic!("expected a peer list, got {:?}", other),
    }
}

fn node_descriptor(name: &[u8]) -> PeerNode {
    PeerNode {
        name: Some(name.to_vec()),
        pubkey: b"self".to_vec(),
        address: b"127.0.0.1".to_vec(),
        http_port: 8181,
        arson_port: 3000,
        secure: false,
        protocols: vec![PeerProtocol::Arson],
        version: None,
        last_seen: None,
        is_connected: true,
    }
}

#[test]
fn registration_reply_carries_node_info() {
    let mut sessions = SessionTable::new();
    let remotes = RemoteTable::from_configs(&vec![]);
    let actions = handle_client_message(
        &mut sessions,
        &remotes,
        &None,
        3,
        WsClientMessage::Register { pubkey: b"u1".to_vec(), signature: b"dev_mode".to_vec() },
        false,
        true,
        Some(node_descriptor(b"home")),
        500,
    );
    match actions.last().unwrap() {
        ClientAction::Reply(WsServerMessage::Registered { success, node_info }) => {
            assert!(success);
            let info = node_info.as_ref().expect("the success reply carries the node's info");
            assert_eq!(info.name, Some(b"home".to_vec()));
            assert_eq!(info.http_port, 8181);
        },
        other => panic!("expected the registration reply, got {:?}", other),
    }
}

#[test]
fn peer_list_is_the_union_with_configured_remotes() {
    let mut sessions = SessionTable::new();
    sessions.register_connection(b"u1".to_vec(), 1, 100);
    sessions.register_connection(b"b".to_vec(), 2, 100);
    // Two remotes: one shares a fingerprint with a local session and is
    // deduplicated; the other appears with its recorded reachability.
    let mut remotes = RemoteTable::from_configs(&vec![
        ws_remote(b"b", 8282),
        ws_remote(b"c", 8383),
    ]);
    remotes.record_connectivity(&b"c".to_vec(), true, 150);

    let listed = handle_client_message(
        &mut sessions,
        &remotes,
        &Some(b"u1".to_vec()),
        1,
        WsClientMessage::ListPeers,
        false,
        false,
        None,
        900,
    );
    match &listed[0] {
        ClientAction::Reply(WsServerMessage::PeerList { peers }) => {
            assert_eq!(peers.len(), 3);
            assert_eq!(peers[0].pubkey, b"u1".to_vec());
            assert_eq!(peers[1].pubkey, b"b".to_vec());
            assert!(peers[0].is_connected && peers[1].is_connected);
            assert_eq!(peers[2].pubkey, b"c".to_vec());
            assert!(peers[2].is_connected, "reachability carries into the union");
            assert_eq!(peers[2].http_port, 8383);
        },
        other => panic!("expected a peer list, got {:?}", other),
    }
}

#[test]
fn relay_targets_keep_configuration_order() {
    let mut remotes = RemoteTable::from_configs(&vec![
        ws_remote(b"first", 1001),
        ws_remote(b"skipped", 1002),
        ws_remote(b"second", 1003),
    ]);
    remotes.record_connectivity(&b"first".to_vec(), true, 10);
    remotes.record_connectivity(&b"second".to_vec(), true, 10);
    let targets = remotes.relay_candidates();
    let fps: Vec<Vec<u8>> = targets.iter().map(|t| t.pubkey.clone()).collect();
    assert_eq!(fps, vec![b"first".to_vec(), b"second".to_vec()]);
}
