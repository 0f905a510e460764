//! Data model of the overlay: node configuration, peer descriptors, the
//! packet union carried on the native transport, and the onion layer types.
//!
//! Textual fields (fingerprints, addresses, names) are held as their byte
//! encodings, so that contracts and the wire codec can speak about them
//! uniformly as byte sequences.

use vstd::prelude::*;

use crate::bytes::{push_bytes, push_decimal, spec_decimal};

verus! {

/// Connection protocol preference of a peer.
#[derive(Clone, Copy, Debug, PartialEq, Eq, Structural)]
pub enum PeerProtocol {
    /// Plain WebSocket client channel.
    Ws,
    /// TLS WebSocket client channel.
    Wss,
    /// Native binary transport over TCP.
    Arson,
}

/// Spec-level image of an optional byte vector.
pub open spec fn view_opt_bytes(o: Option<Vec<u8>>) -> Option<Seq<u8>> {
    match o {
        Some(v) => Some(v@),
        None => None,
    }
}

/// Address, port and fingerprint of the next hop inside an onion layer.
#[derive(Debug, PartialEq, Eq)]
pub struct NextHop {
    pub address: Vec<u8>,
    pub port: u16,
    pub pubkey: Vec<u8>,
}

#[verifier::ext_equal]
pub struct NextHopView {
    pub address: Seq<u8>,
    pub port: u16,
    pub pubkey: Seq<u8>,
}

impl View for NextHop {
    type V = NextHopView;

    open spec fn view(&self) -> NextHopView {
        NextHopView { address: self.address@, port: self.port, pubkey: self.pubkey@ }
    }
}

/// One encrypted onion hop: identifier, sender's ephemeral key, ciphertext
/// and the nonce it was sealed with.
#[derive(Debug, PartialEq, Eq)]
pub struct OnionPacket {
    pub packet_id: Vec<u8>,
    pub ephemeral_pubkey: Vec<u8>,
    pub encrypted_payload: Vec<u8>,
    pub nonce: Vec<u8>,
}

#[verifier::ext_equal]
pub struct OnionPacketView {
    pub packet_id: Seq<u8>,
    pub ephemeral_pubkey: Seq<u8>,
    pub encrypted_payload: Seq<u8>,
    pub nonce: Seq<u8>,
}

impl View for OnionPacket {
    type V = OnionPacketView;

    open spec fn view(&self) -> OnionPacketView {
        OnionPacketView {
            packet_id: self.packet_id@,
            ephemeral_pubkey: self.ephemeral_pubkey@,
            encrypted_payload: self.encrypted_payload@,
            nonce: self.nonce@,
        }
    }
}

/// Plaintext of one onion layer: the next hop, or none at the exit, and the
/// bytes carried inward.
#[derive(Debug, PartialEq, Eq)]
pub struct OnionLayer {
    pub next_hop: Option<NextHop>,
    pub inner_packet: Vec<u8>,
}

#[verifier::ext_equal]
pub struct OnionLayerView {
    pub next_hop: Option<NextHopView>,
    pub inner_packet: Seq<u8>,
}

impl View for OnionLayer {
    type V = OnionLayerView;

    open spec fn view(&self) -> OnionLayerView {
        OnionLayerView {
            next_hop: match self.next_hop {
                Some(ref h) => Some(h@),
                None => None,
            },
            inner_packet: self.inner_packet@,
        }
    }
}

/// Reply travelling back along a circuit.
#[derive(Debug, PartialEq, Eq)]
pub struct OnionResponse {
    pub packet_id: Vec<u8>,
    pub encrypted_response: Vec<u8>,
    pub nonce: Vec<u8>,
}

#[verifier::ext_equal]
pub struct OnionResponseView {
    pub packet_id: Seq<u8>,
    pub encrypted_response: Seq<u8>,
    pub nonce: Seq<u8>,
}

impl View for OnionResponse {
    type V = OnionResponseView;

    open spec fn view(&self) -> OnionResponseView {
        OnionResponseView {
            packet_id: self.packet_id@,
            encrypted_response: self.encrypted_response@,
            nonce: self.nonce@,
        }
    }
}

/// Kind of an application message routed through the onion overlay.
#[derive(Clone, Copy, Debug, PartialEq, Eq, Structural)]
pub enum RoutedMessageType {
    Chat,
    FileRequest,
    FileChunk,
    PeerDiscovery,
    KeepAlive,
}

/// Application message delivered at the exit hop.
#[derive(Debug, PartialEq, Eq)]
pub struct RoutedMessage {
    pub message_type: RoutedMessageType,
    pub payload: Vec<u8>,
    pub timestamp: u64,
}

#[verifier::ext_equal]
pub struct RoutedMessageView {
    pub message_type: RoutedMessageType,
    pub payload: Seq<u8>,
    pub timestamp: u64,
}

impl View for RoutedMessage {
    type V = RoutedMessageView;

    open spec fn view(&self) -> RoutedMessageView {
        RoutedMessageView {
            message_type: self.message_type,
            payload: self.payload@,
            timestamp: self.timestamp,
        }
    }
}

/// Public descriptor of a remote node.
#[derive(Debug, PartialEq, Eq)]
pub struct PeerNode {
    pub name: Option<Vec<u8>>,
    pub pubkey: Vec<u8>,
    pub address: Vec<u8>,
    pub http_port: u16,
    pub arson_port: u16,
    pub secure: bool,
    pub protocols: Vec<PeerProtocol>,
    pub version: Option<Vec<u8>>,
    pub last_seen: Option<u64>,
    pub is_connected: bool,
}

#[verifier::ext_equal]
pub struct PeerNodeView {
    pub name: Option<Seq<u8>>,
    pub pubkey: Seq<u8>,
    pub address: Seq<u8>,
    pub http_port: u16,
    pub arson_port: u16,
    pub secure: bool,
    pub protocols: Seq<PeerProtocol>,
    pub version: Option<Seq<u8>>,
    pub last_seen: Option<u64>,
    pub is_connected: bool,
}

impl View for PeerNode {
    type V = PeerNodeView;

    open spec fn view(&self) -> PeerNodeView {
        PeerNodeView {
            name: view_opt_bytes(self.name),
            pubkey: self.pubkey@,
            address: self.address@,
            http_port: self.http_port,
            arson_port: self.arson_port,
            secure: self.secure,
            protocols: self.protocols@,
            version: view_opt_bytes(self.version),
            last_seen: self.last_seen,
            is_connected: self.is_connected,
        }
    }
}

/// A peer descriptor together with a signature over its encoding.
#[derive(Debug, PartialEq, Eq)]
pub struct SignedNode {
    pub node: PeerNode,
    pub signature: Vec<u8>,
}

#[verifier::ext_equal]
pub struct SignedNodeView {
    pub node: PeerNodeView,
    pub signature: Seq<u8>,
}

impl View for SignedNode {
    type V = SignedNodeView;

    open spec fn view(&self) -> SignedNodeView {
        SignedNodeView { node: self.node@, signature: self.signature@ }
    }
}

/// Registry record for a known remote peer.
#[derive(Debug, PartialEq, Eq)]
pub struct KnownPeer {
    pub node: PeerNode,
    pub x25519_pubkey: Option<Vec<u8>>,
    pub last_ping: u64,
    pub latency_ms: Option<u32>,
    pub trust_score: u8,
    pub failed_attempts: u32,
}

#[verifier::ext_equal]
pub struct KnownPeerView {
    pub node: PeerNodeView,
    pub x25519_pubkey: Option<Seq<u8>>,
    pub last_ping: u64,
    pub latency_ms: Option<u32>,
    pub trust_score: u8,
    pub failed_attempts: u32,
}

impl View for KnownPeer {
    type V = KnownPeerView;

    open spec fn view(&self) -> KnownPeerView {
        KnownPeerView {
            node: self.node@,
            x25519_pubkey: view_opt_bytes(self.x25519_pubkey),
            last_ping: self.last_ping,
            latency_ms: self.latency_ms,
            trust_score: self.trust_score,
            failed_attempts: self.failed_attempts,
        }
    }
}

/// Discovery protocol message.
#[derive(Debug, PartialEq, Eq)]
pub enum DiscoveryMessage {
    /// Signed self-announcement, with the announcer's key-agreement key.
    Announce { node: SignedNode, x25519_pubkey: Vec<u8> },
    /// Request for up to `max_count` known peers.
    GetPeers { max_count: u16 },
    /// Response to `GetPeers`.
    PeerList { peers: Vec<KnownPeer> },
    /// Liveness probe carrying the sender's clock and an echo nonce.
    Ping { timestamp: u64, nonce: Vec<u8> },
    /// Reply to `Ping`; the nonce must be echoed unchanged.
    Pong { timestamp: u64, nonce: Vec<u8>, original_timestamp: u64 },
}

#[verifier::ext_equal]
pub enum DiscoveryMessageView {
    Announce { node: SignedNodeView, x25519_pubkey: Seq<u8> },
    GetPeers { max_count: u16 },
    PeerList { peers: Seq<KnownPeerView> },
    Ping { timestamp: u64, nonce: Seq<u8> },
    Pong { timestamp: u64, nonce: Seq<u8>, original_timestamp: u64 },
}

impl View for DiscoveryMessage {
    type V = DiscoveryMessageView;

    open spec fn view(&self) -> DiscoveryMessageView {
        match self {
            DiscoveryMessage::Announce { node, x25519_pubkey } => DiscoveryMessageView::Announce {
                node: node@,
                x25519_pubkey: x25519_pubkey@,
            },
            DiscoveryMessage::GetPeers { max_count } => DiscoveryMessageView::GetPeers {
                max_count: *max_count,
            },
            DiscoveryMessage::PeerList { peers } => DiscoveryMessageView::PeerList {
                peers: peers@.map_values(|p: KnownPeer| p@),
            },
            DiscoveryMessage::Ping { timestamp, nonce } => DiscoveryMessageView::Ping {
                timestamp: *timestamp,
                nonce: nonce@,
            },
            DiscoveryMessage::Pong { timestamp, nonce, original_timestamp } => {
                DiscoveryMessageView::Pong {
                    timestamp: *timestamp,
                    nonce: nonce@,
                    original_timestamp: *original_timestamp,
                }
            },
        }
    }
}

/// The packet union framed on the native transport.
#[derive(Debug, PartialEq, Eq)]
pub enum NodePacket {
    Onion(OnionPacket),
    OnionResponse(OnionResponse),
    Discovery(DiscoveryMessage),
}

#[verifier::ext_equal]
pub enum NodePacketView {
    Onion(OnionPacketView),
    OnionResponse(OnionResponseView),
    Discovery(DiscoveryMessageView),
}

impl View for NodePacket {
    type V = NodePacketView;

    open spec fn view(&self) -> NodePacketView {
        match self {
            NodePacket::Onion(p) => NodePacketView::Onion(p@),
            NodePacket::OnionResponse(r) => NodePacketView::OnionResponse(r@),
            NodePacket::Discovery(m) => NodePacketView::Discovery(m@),
        }
    }
}

/// Entry of the configured peer list in the node configuration.
#[derive(Debug, PartialEq, Eq)]
pub struct PeerConfig {
    pub name: Option<Vec<u8>>,
    pub pubkey: Vec<u8>,
    pub address: Vec<u8>,
    pub port: u16,
    pub protocol: PeerProtocol,
}

#[verifier::ext_equal]
pub struct PeerConfigView {
    pub name: Option<Seq<u8>>,
    pub pubkey: Seq<u8>,
    pub address: Seq<u8>,
    pub port: u16,
    pub protocol: PeerProtocol,
}

impl View for PeerConfig {
    type V = PeerConfigView;

    open spec fn view(&self) -> PeerConfigView {
        PeerConfigView {
            name: view_opt_bytes(self.name),
            pubkey: self.pubkey@,
            address: self.address@,
            port: self.port,
            protocol: self.protocol,
        }
    }
}

/// Local node configuration, including the legacy single-port fields.
#[derive(Debug, PartialEq, Eq)]
pub struct Node {
    pub name: Vec<u8>,
    pub pubkey: Vec<u8>,
    pub privkey: Vec<u8>,
    pub address: Vec<u8>,
    pub http_port: u16,
    pub public_http_port: u16,
    pub arson_port: u16,
    pub public_arson_port: u16,
    pub secure: bool,
    pub version: Option<Vec<u8>>,
    pub peers: Vec<PeerConfig>,
    pub ping_interval: u64,
    pub listen_port: u16,
    pub public_port: u16,
}

#[verifier::ext_equal]
pub struct NodeView {
    pub name: Seq<u8>,
    pub pubkey: Seq<u8>,
    pub privkey: Seq<u8>,
    pub address: Seq<u8>,
    pub http_port: u16,
    pub public_http_port: u16,
    pub arson_port: u16,
    pub public_arson_port: u16,
    pub secure: bool,
    pub version: Option<Seq<u8>>,
    pub peers: Seq<PeerConfigView>,
    pub ping_interval: u64,
    pub listen_port: u16,
    pub public_port: u16,
}

impl View for Node {
    type V = NodeView;

    open spec fn view(&self) -> NodeView {
        NodeView {
            name: self.name@,
            pubkey: self.pubkey@,
            privkey: self.privkey@,
            address: self.address@,
            http_port: self.http_port,
            public_http_port: self.public_http_port,
            arson_port: self.arson_port,
            public_arson_port: self.public_arson_port,
            secure: self.secure,
            version: view_opt_bytes(self.version),
            peers: self.peers@.map_values(|p: PeerConfig| p@),
            ping_interval: self.ping_interval,
            listen_port: self.listen_port,
            public_port: self.public_port,
        }
    }
}

impl Node {
    /// Moves a configuration that still uses the legacy single-port fields
    /// onto the split HTTP/native port scheme.
    pub fn migrate_legacy(&mut self)
        ensures
            (old(self).http_port == 0 && old(self).listen_port != 0) ==> final(self)@ == (NodeView {
                http_port: 8181u16,
                public_http_port: if old(self).secure { 443u16 } else { old(self).public_port },
                arson_port: old(self).listen_port,
                public_arson_port: old(self).listen_port,
                ..old(self)@
            }),
            !(old(self).http_port == 0 && old(self).listen_port != 0) ==> final(self)@ == old(self)@,
    {
        if self.http_port == 0 && self.listen_port != 0 {
            self.http_port = 8181;
            self.public_http_port = if self.secure {
                443
            } else {
                self.public_port
            };
            self.arson_port = self.listen_port;
            self.public_arson_port = self.listen_port;
        }
    }
}

/// Spec image of `PeerNode::from_config`.
pub open spec fn spec_peer_from_config(c: PeerConfigView) -> PeerNodeView {
    PeerNodeView {
        name: c.name,
        pubkey: c.pubkey,
        address: c.address,
        http_port: if c.protocol is Arson {
            0u16
        } else {
            c.port
        },
        arson_port: if c.protocol is Arson {
            c.port
        } else {
            0u16
        },
        secure: c.protocol is Wss,
        protocols: seq![c.protocol],
        version: None,
        last_seen: None,
        is_connected: false,
    }
}

/// Scheme part of the client-channel URL.
pub open spec fn spec_scheme(secure: bool) -> Seq<u8> {
    if secure {
        seq![119u8, 115u8, 115u8]
    } else {
        seq![119u8, 115u8]
    }
}

/// Client-channel URL of a peer, when it exposes an HTTP port.
pub open spec fn spec_ws_url(p: PeerNodeView) -> Option<Seq<u8>> {
    if p.http_port > 0 {
        Some(
            spec_scheme(p.secure) + seq![58u8, 47u8, 47u8] + p.address + seq![58u8]
                + spec_decimal(p.http_port as nat) + seq![47u8, 112u8, 50u8, 112u8, 47u8, 119u8,
                115u8],
        )
    } else {
        None
    }
}

/// Native-transport address of a peer, when it exposes one.
pub open spec fn spec_arson_addr(p: PeerNodeView) -> Option<Seq<u8>> {
    if p.arson_port > 0 {
        Some(p.address + seq![58u8] + spec_decimal(p.arson_port as nat))
    } else {
        None
    }
}

impl PeerNode {
    /// Builds the public descriptor that a configured peer entry denotes.
    pub fn from_config(config: &PeerConfig) -> (r: PeerNode)
        ensures
            r@ == spec_peer_from_config(config@),
    {
        let (http_port, arson_port): (u16, u16) = match config.protocol {
            PeerProtocol::Ws => (config.port, 0),
            PeerProtocol::Wss => (config.port, 0),
            PeerProtocol::Arson => (0, config.port),
        };
        let name = match &config.name {
            Some(n) => Some(crate::bytes::bytes_clone(n)),
            None => None,
        };
        let mut protocols: Vec<PeerProtocol> = Vec::new();
        protocols.push(config.protocol);
        let r = PeerNode {
            name,
            pubkey: crate::bytes::bytes_clone(&config.pubkey),
            address: crate::bytes::bytes_clone(&config.address),
            http_port,
            arson_port,
            secure: matches!(config.protocol, PeerProtocol::Wss),
            protocols,
            version: None,
            last_seen: None,
            is_connected: false,
        };
        assert(r@.protocols =~= seq![config.protocol]);
        r
    }

    /// URL of this peer's client channel, as bytes.
    pub fn ws_url(&self) -> (r: Option<Vec<u8>>)
        ensures
            view_opt_bytes(r) == spec_ws_url(self@),
    {
        if self.http_port > 0 {
            let mut out: Vec<u8> = Vec::new();
            out.push(119);
            out.push(115);
            if self.secure {
                out.push(115);
            }
            assert(out@ =~= spec_scheme(self.secure));
            out.push(58);
            out.push(47);
            out.push(47);
            push_bytes(&mut out, &self.address);
            out.push(58);
            push_decimal(&mut out, self.http_port as u64);
            out.push(47);
            out.push(112);
            out.push(50);
            out.push(112);
            out.push(47);
            out.push(119);
            out.push(115);
            assert(out@ =~= spec_ws_url(self@).unwrap());
            Some(out)
        } else {
            None
        }
    }

    /// `address:port` of this peer's native transport, as bytes.
    pub fn arson_addr(&self) -> (r: Option<Vec<u8>>)
        ensures
            view_opt_bytes(r) == spec_arson_addr(self@),
    {
        if self.arson_port > 0 {
            let mut out: Vec<u8> = Vec::new();
            push_bytes(&mut out, &self.address);
            out.push(58);
            push_decimal(&mut out, self.arson_port as u64);
            assert(out@ =~= spec_arson_addr(self@).unwrap());
            Some(out)
        } else {
            None
        }
    }

    /// Copies this descriptor.
    pub fn duplicate(&self) -> (r: PeerNode)
        ensures
            r@ == self@,
    {
        let name = match &self.name {
            Some(n) => Some(crate::bytes::bytes_clone(n)),
            None => None,
        };
        let version = match &self.version {
            Some(v) => Some(crate::bytes::bytes_clone(v)),
            None => None,
        };
        let mut protocols: Vec<PeerProtocol> = Vec::new();
        let mut i: usize = 0;
        while i < self.protocols.len()
            invariant
                i <= self.protocols@.len(),
                protocols@ == self.protocols@.subrange(0, i as int),
            decreases self.protocols@.len() - i,
        {
            protocols.push(self.protocols[i]);
            i = i + 1;
            assert(protocols@ =~= self.protocols@.subrange(0, i as int));
        }
        assert(protocols@ =~= self.protocols@);
        PeerNode {
            name,
            pubkey: crate::bytes::bytes_clone(&self.pubkey),
            address: crate::bytes::bytes_clone(&self.address),
            http_port: self.http_port,
            arson_port: self.arson_port,
            secure: self.secure,
            protocols,
            version,
            last_seen: self.last_seen,
            is_connected: self.is_connected,
        }
    }
}

impl KnownPeer {
    /// Copies this registry record.
    pub fn duplicate(&self) -> (r: KnownPeer)
        ensures
            r@ == self@,
    {
        let x25519_pubkey = match &self.x25519_pubkey {
            Some(k) => Some(crate::bytes::bytes_clone(k)),
            None => None,
        };
        KnownPeer {
            node: self.node.duplicate(),
            x25519_pubkey,
            last_ping: self.last_ping,
            latency_ms: self.latency_ms,
            trust_score: self.trust_score,
            failed_attempts: self.failed_attempts,
        }
    }
}

} // verus!
