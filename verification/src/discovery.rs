//! The discovery protocol: ping/pong liveness, peer exchange, and signed
//! announcements, over the peer registry.

use vstd::prelude::*;

use crate::bytes::{bytes_clone, bytes_eq};
use crate::codec::{encode_peer_node_bytes, senc_peer_node, wf_peer_node};
use crate::crypto::{
    ed25519_pub_of, ed25519_sig, ed25519_verify_ok, generate_x25519_keypair, sign_message,
    verify_signature_bytes,
};
use crate::hex::{hex_decode, hex_encode, lemma_hex_encode_injective, spec_hex_encode};
use crate::registry::{exchange_ok, has_peer, peer_at, PeerRegistry};
use crate::types::{
    DiscoveryMessage, DiscoveryMessageView, KnownPeer, Node, PeerNode, PeerProtocol, SignedNode,
    SignedNodeView,
};

verus! {

/// Whether an announcement's signature verifies: its fingerprint is the hex
/// text of an Ed25519 key that signed the deterministic encoding of the
/// embedded descriptor, and the signature field is the hex text of that
/// signature.
pub open spec fn announce_sig_ok(sn: SignedNodeView) -> bool {
    exists|pk: Seq<u8>, sig: Seq<u8>|
        {
            &&& sn.node.pubkey == spec_hex_encode(pk)
            &&& sn.signature == spec_hex_encode(sig)
            &&& #[trigger] ed25519_verify_ok(pk, senc_peer_node(sn.node), sig)
        }
}

/// An announcement the registry accepts: verifiable signature, encodable
/// descriptor, and a 32-byte agreement key.
pub open spec fn announce_accepted(sn: SignedNodeView, x25519_pubkey: Seq<u8>) -> bool {
    announce_sig_ok(sn) && wf_peer_node(sn.node) && x25519_pubkey.len() == 32
}

/// Whether the configured identity's textual fields fit the codec's length
/// cap, so that the announcement descriptor can be encoded and signed.
pub open spec fn announce_fields_fit(config: Node) -> bool {
    &&& config.name@.len() < 4294967296
    &&& config.address@.len() < 4294967296
    &&& (match config.version {
        Some(v) => v@.len() < 4294967296,
        None => true,
    })
}

/// The registry record an accepted announcement produces.
pub open spec fn spec_announce_record(
    sn: SignedNodeView,
    x25519_pubkey: Seq<u8>,
    now: u64,
) -> crate::types::KnownPeerView {
    crate::types::KnownPeerView {
        node: sn.node,
        x25519_pubkey: Some(x25519_pubkey),
        last_ping: now,
        latency_ms: None,
        trust_score: 30,
        failed_attempts: 0,
    }
}

/// Maintains the peer registry and answers discovery messages.
pub struct DiscoveryManager {
    node_config: Node,
    ed25519_privkey: Vec<u8>,
    ed25519_pubkey: Vec<u8>,
    x25519_privkey: Vec<u8>,
    x25519_pubkey: Vec<u8>,
    registry: PeerRegistry,
}

impl DiscoveryManager {
    pub closed spec fn spec_registry(self) -> PeerRegistry {
        self.registry
    }

    pub closed spec fn spec_config(self) -> Node {
        self.node_config
    }

    pub closed spec fn spec_ed25519_privkey(self) -> Seq<u8> {
        self.ed25519_privkey@
    }

    pub closed spec fn spec_ed25519_pubkey(self) -> Seq<u8> {
        self.ed25519_pubkey@
    }

    pub closed spec fn spec_x25519_pubkey(self) -> Seq<u8> {
        self.x25519_pubkey@
    }

    pub closed spec fn wf(self) -> bool {
        &&& self.registry.wf()
        &&& self.ed25519_privkey@.len() == 32
        &&& self.ed25519_pubkey@.len() == 32
        &&& self.ed25519_pubkey@ == ed25519_pub_of(self.ed25519_privkey@)
        &&& self.x25519_privkey@.len() == 32
        &&& self.x25519_pubkey@.len() == 32
    }

    /// A manager over an empty registry, with a fresh agreement keypair.
    pub fn new(node_config: Node, ed25519_privkey: Vec<u8>, ed25519_pubkey: Vec<u8>) -> (r:
        DiscoveryManager)
        requires
            ed25519_privkey@.len() == 32,
            ed25519_pubkey@.len() == 32,
            ed25519_pubkey@ == ed25519_pub_of(ed25519_privkey@),
        ensures
            r.wf(),
            r.spec_registry().spec_peers().len() == 0,
            r.spec_config() == node_config,
            r.spec_ed25519_privkey() == ed25519_privkey@,
    {
        let (x25519_privkey, x25519_pubkey) = generate_x25519_keypair();
        DiscoveryManager {
            node_config,
            ed25519_privkey,
            ed25519_pubkey,
            x25519_privkey,
            x25519_pubkey,
            registry: PeerRegistry::new(),
        }
    }

    /// This node's key-agreement public key.
    pub fn x25519_pubkey(&self) -> (r: Vec<u8>)
        ensures
            r@ == self.spec_x25519_pubkey(),
    {
        bytes_clone(&self.x25519_pubkey)
    }

    /// This node's key-agreement secret key.
    pub fn x25519_privkey(&self) -> (r: Vec<u8>)
        requires
            self.wf(),
        ensures
            r@.len() == 32,
    {
        bytes_clone(&self.x25519_privkey)
    }

    /// Read access to the registry.
    pub fn registry(&self) -> (r: &PeerRegistry)
        ensures
            r == self.spec_registry(),
    {
        &self.registry
    }

    /// Write access to the registry, for probe bookkeeping.
    pub fn registry_mut(&mut self) -> (r: &mut PeerRegistry)
        ensures
            *r == old(self).spec_registry(),
            final(self).spec_registry() == *final(r),
            final(self).spec_config() == old(self).spec_config(),
            final(self).spec_ed25519_privkey() == old(self).spec_ed25519_privkey(),
            final(self).spec_ed25519_pubkey() == old(self).spec_ed25519_pubkey(),
            final(self).spec_x25519_pubkey() == old(self).spec_x25519_pubkey(),
            old(self).wf() && final(r).wf() ==> final(self).wf(),
    {
        &mut self.registry
    }

    /// Seeds the registry from the configured peer list: each seed enters
    /// with its configured descriptor, no agreement key, median trust and a
    /// clean failure count.
    pub fn bootstrap_peers(&mut self)
        requires
            old(self).wf(),
        ensures
            final(self).wf(),
            forall|i: int|
                0 <= i < old(self).spec_config().peers@.len() ==> has_peer(
                    final(self).spec_registry().spec_peers(),
                    (#[trigger] old(self).spec_config().peers@[i])@.pubkey,
                ),
            (forall|a: int, b: int|
                0 <= a < b < old(self).spec_config().peers@.len() ==> (#[trigger] old(
                    self,
                ).spec_config().peers@[a])@.pubkey != (#[trigger] old(self).spec_config().peers@[
                    b
                ])@.pubkey) ==> (forall|i: int|
                0 <= i < old(self).spec_config().peers@.len() ==> peer_at(
                    final(self).spec_registry().spec_peers(),
                    (#[trigger] old(self).spec_config().peers@[i])@.pubkey,
                )@ == crate::registry::spec_bootstrap_record(old(self).spec_config().peers@[i])),
    {
        let peers = &self.node_config.peers;
        self.registry.bootstrap(peers);
    }

    /// Answers one inbound discovery message.
    ///
    /// A ping is answered with a pong echoing the nonce; a peer request is
    /// answered with the best-trusted eligible records; an announcement with
    /// a verifiable signature replaces the announcer's record, and one with
    /// a bad signature changes nothing. Pongs and peer lists arriving
    /// outside a request context are ignored.
    pub fn handle_discovery(&mut self, msg: DiscoveryMessage, now: u64) -> (r: Option<
        DiscoveryMessage,
    >)
        requires
            old(self).wf(),
        ensures
            final(self).wf(),
            final(self).spec_config() == old(self).spec_config(),
            final(self).spec_ed25519_privkey() == old(self).spec_ed25519_privkey(),
            final(self).spec_x25519_pubkey() == old(self).spec_x25519_pubkey(),
            (match msg@ {
                DiscoveryMessageView::Ping { timestamp, nonce } => {
                    &&& *final(self) == *old(self)
                    &&& r matches Some(reply) && reply@ == (DiscoveryMessageView::Pong {
                        timestamp: now,
                        nonce,
                        original_timestamp: timestamp,
                    })
                },
                DiscoveryMessageView::GetPeers { max_count } => {
                    &&& *final(self) == *old(self)
                    &&& (r matches Some(reply) && (reply matches DiscoveryMessage::PeerList {
                        peers,
                    } && {
                        &&& peers@.len() == vstd::math::min(
                            max_count as int,
                            old(self).spec_registry().spec_peers().filter(
                                |p: KnownPeer| exchange_ok(p),
                            ).len() as int,
                        )
                        &&& crate::registry::sorted_by_trust(peers@)
                        &&& forall|i: int|
                            0 <= i < peers@.len() ==> exchange_ok(#[trigger] peers@[i]) && (exists|
                                k: int,
                            |
                                0 <= k < old(self).spec_registry().spec_peers().len() && (
                                #[trigger] old(self).spec_registry().spec_peers()[k])@ == (
                                peers@[i])@)
                    }))
                },
                DiscoveryMessageView::Announce { node, x25519_pubkey } => {
                    &&& r is None
                    &&& announce_accepted(node, x25519_pubkey) ==> (has_peer(
                        final(self).spec_registry().spec_peers(),
                        node.node.pubkey,
                    ) && peer_at(final(self).spec_registry().spec_peers(), node.node.pubkey)@
                        == spec_announce_record(node, x25519_pubkey, now))
                    &&& !announce_accepted(node, x25519_pubkey)
                        ==> final(self).spec_registry().spec_peers()
                        == old(self).spec_registry().spec_peers()
                },
                DiscoveryMessageView::PeerList { peers } => {
                    &&& *final(self) == *old(self)
                    &&& r is None
                },
                DiscoveryMessageView::Pong { timestamp, nonce, original_timestamp } => {
                    &&& *final(self) == *old(self)
                    &&& r is None
                },
            }),
    {
        match msg {
            DiscoveryMessage::Ping { timestamp, nonce } => {
                Some(
                    DiscoveryMessage::Pong {
                        timestamp: now,
                        nonce,
                        original_timestamp: timestamp,
                    },
                )
            },
            DiscoveryMessage::GetPeers { max_count } => {
                let peers = self.registry.select_for_peer_exchange(max_count as usize);
                Some(DiscoveryMessage::PeerList { peers })
            },
            DiscoveryMessage::Announce { node, x25519_pubkey } => {
                if x25519_pubkey.len() != 32 {
                    proof {
                        assert(!announce_accepted(node@, x25519_pubkey@));
                    }
                    return None;
                }
                let node_data = match encode_peer_node_bytes(&node.node) {
                    Some(b) => b,
                    None => {
                        proof {
                            assert(!announce_accepted(node@, x25519_pubkey@));
                        }
                        return None;
                    },
                };
                let pubkey_bytes = match hex_decode(&node.node.pubkey) {
                    Some(b) => b,
                    None => {
                        proof {
                            assert(!announce_sig_ok(node@)) by {
                                if announce_sig_ok(node@) {
                                    let (pk, sig) = choose|pk: Seq<u8>, sig: Seq<u8>|
                                        {
                                            &&& node@.node.pubkey == spec_hex_encode(pk)
                                            &&& node@.signature == spec_hex_encode(sig)
                                            &&& #[trigger] ed25519_verify_ok(
                                                pk,
                                                senc_peer_node(node@.node),
                                                sig,
                                            )
                                        };
                                    assert(node@.node.pubkey != spec_hex_encode(pk));
                                }
                            }
                        }
                        return None;
                    },
                };
                let sig_bytes = match hex_decode(&node.signature) {
                    Some(b) => b,
                    None => {
                        proof {
                            assert(!announce_sig_ok(node@)) by {
                                if announce_sig_ok(node@) {
                                    let (pk, sig) = choose|pk: Seq<u8>, sig: Seq<u8>|
                                        {
                                            &&& node@.node.pubkey == spec_hex_encode(pk)
                                            &&& node@.signature == spec_hex_encode(sig)
                                            &&& #[trigger] ed25519_verify_ok(
                                                pk,
                                                senc_peer_node(node@.node),
                                                sig,
                                            )
                                        };
                                    assert(node@.signature != spec_hex_encode(sig));
                                }
                            }
                        }
                        return None;
                    },
                };
                let valid = verify_signature_bytes(&pubkey_bytes, &node_data, &sig_bytes);
                proof {
                    if valid {
                        assert(announce_sig_ok(node@)) by {
                            assert(ed25519_verify_ok(
                                pubkey_bytes@,
                                senc_peer_node(node@.node),
                                sig_bytes@,
                            ));
                        }
                    } else {
                        assert(!announce_sig_ok(node@)) by {
                            if announce_sig_ok(node@) {
                                let (pk, sig) = choose|pk: Seq<u8>, sig: Seq<u8>|
                                    {
                                        &&& node@.node.pubkey == spec_hex_encode(pk)
                                        &&& node@.signature == spec_hex_encode(sig)
                                        &&& #[trigger] ed25519_verify_ok(
                                            pk,
                                            senc_peer_node(node@.node),
                                            sig,
                                        )
                                    };
                                lemma_hex_encode_injective(pk, pubkey_bytes@);
                                lemma_hex_encode_injective(sig, sig_bytes@);
                            }
                        }
                    }
                }
                if valid {
                    let record = KnownPeer {
                        node: node.node,
                        x25519_pubkey: Some(x25519_pubkey),
                        last_ping: now,
                        latency_ms: None,
                        trust_score: 30,
                        failed_attempts: 0,
                    };
                    self.registry.put(record);
                }
                None
            },
            DiscoveryMessage::PeerList { .. } => None,
            DiscoveryMessage::Pong { .. } => None,
        }
    }

    /// Ingests the records a peer-exchange round brought back: new
    /// fingerprints are added, records already known and the local node's
    /// own fingerprint are left alone.
    pub fn merge_discovered(&mut self, new_peers: Vec<KnownPeer>)
        requires
            old(self).wf(),
        ensures
            final(self).wf(),
            final(self).spec_config() == old(self).spec_config(),
            forall|fp: Seq<u8>|
                has_peer(old(self).spec_registry().spec_peers(), fp) ==> (has_peer(
                    final(self).spec_registry().spec_peers(),
                    fp,
                ) && peer_at(final(self).spec_registry().spec_peers(), fp) == peer_at(
                    old(self).spec_registry().spec_peers(),
                    fp,
                )),
            forall|i: int|
                0 <= i < new_peers@.len() && (#[trigger] new_peers@[i]).node.pubkey@ != old(
                    self,
                ).spec_config().pubkey@ ==> has_peer(
                    final(self).spec_registry().spec_peers(),
                    new_peers@[i].node.pubkey@,
                ),
            !has_peer(
                final(self).spec_registry().spec_peers(),
                old(self).spec_config().pubkey@,
            ) || has_peer(old(self).spec_registry().spec_peers(), old(self).spec_config().pubkey@),
    {
        let mut rest = new_peers;
        let ghost orig = self.registry.spec_peers();
        let n = rest.len();
        let ghost all = rest@;
        let mut i: usize = 0;
        while i < n
            invariant
                self.wf(),
                i <= n,
                n == all.len(),
                rest@ == all.skip(i as int),
                self.node_config == old(self).node_config,
                self.ed25519_privkey == old(self).ed25519_privkey,
                self.ed25519_pubkey == old(self).ed25519_pubkey,
                self.x25519_privkey == old(self).x25519_privkey,
                self.x25519_pubkey == old(self).x25519_pubkey,
                forall|fp: Seq<u8>|
                    has_peer(orig, fp) ==> (has_peer(self.spec_registry().spec_peers(), fp)
                        && peer_at(self.spec_registry().spec_peers(), fp) == peer_at(orig, fp)),
                forall|k: int|
                    0 <= k < i && (#[trigger] all[k]).node.pubkey@ != self.node_config.pubkey@
                        ==> has_peer(self.spec_registry().spec_peers(), all[k].node.pubkey@),
                !has_peer(self.spec_registry().spec_peers(), self.node_config.pubkey@) || has_peer(
                    orig,
                    self.node_config.pubkey@,
                ),
            decreases n - i,
        {
            let ghost pre = self.registry.spec_peers();
            proof {
                assert(rest@[0] == all[i as int]);
            }
            let p = rest.remove(0);
            let is_local = bytes_eq(&p.node.pubkey, &self.node_config.pubkey);
            if !is_local {
                let already = self.registry.contains(&p.node.pubkey);
                if !already {
                    let ghost fp = p.node.pubkey@;
                    self.registry.put(p);
                    proof {
                        assert forall|fp2: Seq<u8>| has_peer(orig, fp2) implies (has_peer(
                            self.spec_registry().spec_peers(),
                            fp2,
                        ) && peer_at(self.spec_registry().spec_peers(), fp2) == peer_at(
                            orig,
                            fp2,
                        )) by {
                            assert(fp2 != fp);
                            assert(has_peer(pre, fp2) && peer_at(pre, fp2) == peer_at(orig, fp2));
                        }
                    }
                }
            }
            proof {
                assert(rest@ =~= all.skip(i + 1));
            }
            i = i + 1;
        }
    }

    /// Copies of all known peer records.
    pub fn get_known_peers(&self) -> (r: Vec<KnownPeer>)
        ensures
            r@.len() == self.spec_registry().spec_peers().len(),
            forall|i: int|
                0 <= i < r@.len() ==> r@[i]@ == (#[trigger] self.spec_registry().spec_peers()[
                    i
                ])@,
    {
        self.registry.all_peers()
    }

    /// The best eligible circuit hops, per the registry's selection policy:
    /// up to `count` records, every one eligible and drawn from the
    /// registry, best composite score first, and no eligible record left
    /// out in favour of a lower-scoring one.
    pub fn get_circuit_peers(&self, count: usize, exclude: &Vec<Vec<u8>>) -> (r: Vec<KnownPeer>)
        requires
            self.wf(),
        ensures
            crate::registry::sorted_by_hop_order(r@),
            r@.len() == vstd::math::min(
                count as int,
                self.spec_registry().spec_peers().filter(
                    |p: KnownPeer| crate::registry::hop_ok(p, exclude@),
                ).len() as int,
            ),
            forall|i: int|
                0 <= i < r@.len() ==> crate::registry::hop_ok(#[trigger] r@[i], exclude@) && (
                exists|k: int|
                    0 <= k < self.spec_registry().spec_peers().len() && (
                    #[trigger] self.spec_registry().spec_peers()[k])@ == (r@[i])@),
            forall|i: int, k: int|
                (0 <= i < r@.len() && 0 <= k < self.spec_registry().spec_peers().len()
                    && crate::registry::hop_ok(
                    #[trigger] self.spec_registry().spec_peers()[k],
                    exclude@,
                ) && !(exists|j: int|
                    0 <= j < r@.len() && (#[trigger] r@[j])@ == self.spec_registry().spec_peers()[
                        k
                    ]@)) ==> crate::registry::hop_score(#[trigger] r@[i])
                    >= crate::registry::hop_score(self.spec_registry().spec_peers()[k]),
    {
        let r = self.registry.select_circuit_hops(count, exclude);
        proof {
            assert forall|i: int|
                0 <= i < r@.len() implies crate::registry::hop_ok(#[trigger] r@[i], exclude@) && (
            exists|k: int|
                0 <= k < self.spec_registry().spec_peers().len() && (
                #[trigger] self.spec_registry().spec_peers()[k])@ == (r@[i])@) by {
                let k0 = choose|k0: int|
                    0 <= k0 < self.registry.spec_peers().len() && (
                    #[trigger] self.registry.spec_peers()[k0])@ == (r@[i])@;
                assert((self.spec_registry().spec_peers()[k0])@ == (r@[i])@);
            }
        }
        r
    }

    /// Builds this node's signed announcement: the public descriptor
    /// mirroring the configured identity, its Ed25519 signature over the
    /// deterministic encoding, and the agreement key. It is owed whenever
    /// the configured name, address and version fit the codec's length cap,
    /// and refused only when one does not.
    pub fn create_announcement(&self, now: u64) -> (r: Option<(SignedNode, Vec<u8>)>)
        requires
            self.wf(),
        ensures
            (match r {
                Some(out) => {
                    &&& out.0@.signature == spec_hex_encode(
                        ed25519_sig(
                            self.spec_ed25519_privkey(),
                            senc_peer_node(out.0@.node),
                        ),
                    )
                    &&& out.0@.node.pubkey == spec_hex_encode(self.spec_ed25519_pubkey())
                    &&& out.0@.node.name == Some(self.spec_config().name@)
                    &&& out.0@.node.address == self.spec_config().address@
                    &&& out.0@.node.http_port == self.spec_config().public_http_port
                    &&& out.0@.node.arson_port == self.spec_config().public_arson_port
                    &&& out.0@.node.secure == self.spec_config().secure
                    &&& out.0@.node.version == crate::types::view_opt_bytes(
                        self.spec_config().version,
                    )
                    &&& out.0@.node.last_seen == Some(now)
                    &&& out.0@.node.is_connected
                    &&& out.1@ == self.spec_x25519_pubkey()
                },
                None => !announce_fields_fit(self.spec_config()),
            }),
            announce_fields_fit(self.spec_config()) ==> r is Some,
    {
        let pubkey_hex = hex_encode(&self.ed25519_pubkey);
        let peer_node = PeerNode {
            name: Some(bytes_clone(&self.node_config.name)),
            pubkey: pubkey_hex,
            address: bytes_clone(&self.node_config.address),
            http_port: self.node_config.public_http_port,
            arson_port: self.node_config.public_arson_port,
            secure: self.node_config.secure,
            protocols: {
                let mut ps: Vec<PeerProtocol> = Vec::new();
                ps.push(PeerProtocol::Arson);
                ps.push(
                    if self.node_config.secure {
                        PeerProtocol::Wss
                    } else {
                        PeerProtocol::Ws
                    },
                );
                ps
            },
            version: match &self.node_config.version {
                Some(v) => Some(bytes_clone(v)),
                None => None,
            },
            last_seen: Some(now),
            is_connected: true,
        };
        let node_data = match encode_peer_node_bytes(&peer_node) {
            Some(b) => b,
            None => {
                proof {
                    assert(self.ed25519_pubkey@.len() == 32);
                    assert(peer_node@.pubkey.len() == 64);
                    assert(peer_node@.protocols.len() == 2);
                    assert(!announce_fields_fit(self.spec_config()));
                }
                return None;
            },
        };
        let signature = sign_message(&self.ed25519_privkey, &node_data);
        let signed = SignedNode { node: peer_node, signature: hex_encode(&signature) };
        Some((signed, bytes_clone(&self.x25519_pubkey)))
    }
}

/// Builds a liveness probe.
pub fn make_ping(timestamp: u64, nonce: Vec<u8>) -> (r: DiscoveryMessage)
    requires
        nonce@.len() == 8,
    ensures
        r@ == (DiscoveryMessageView::Ping { timestamp, nonce: nonce@ }),
{
    DiscoveryMessage::Ping { timestamp, nonce }
}

/// Whether a reply is the pong that answers a probe: the echoed nonce must
/// match the one sent.
pub fn check_pong(sent_nonce: &Vec<u8>, reply: &DiscoveryMessage) -> (r: bool)
    ensures
        r == (reply@ matches DiscoveryMessageView::Pong { nonce, .. } && nonce == sent_nonce@),
{
    match reply {
        DiscoveryMessage::Pong { nonce, .. } => bytes_eq(nonce, sent_nonce),
        _ => false,
    }
}

} // verus!
