//! The onion router: layered packet construction, per-hop unwrap with
//! replay defense, the circuit table, and the response path.
//!
//! Contracts are stated over the uninterpreted crypto names of
//! `crate::crypto` and the codec of `crate::codec`; the central guarantee is
//! that a packet wrapped for this node's agreement key unwraps to exactly
//! the layer that was sealed, and that a response sealed along a circuit
//! peels back to the original bytes.

use vstd::prelude::*;
use vstd::seq_lib::*;

use crate::bytes::{bytes_clone, bytes_eq};
use crate::codec::{
    decode_layer, decode_packet, encode_layer, encode_packet, sdec_onion_layer, senc_node_packet,
    senc_onion_layer, wf_onion_layer, wf_onion_packet,
};
use crate::crypto::{
    aes_decrypt, aes_encrypt, aes_gcm_seal, derive_aes_key, generate_nonce, generate_packet_id,
    generate_x25519_keypair, spec_kdf, x25519_derive_shared, x25519_ephemeral,
    x25519_ephemeral_derive, x25519_pub_of, x25519_shared,
};
use crate::errors::OnionError;
use crate::types::{KnownPeer, NextHop, NextHopView, NodePacket, NodePacketView, OnionLayer,
    OnionLayerView, OnionPacket, OnionPacketView, OnionResponse};

verus! {

/// One observed packet identifier with the time it was first seen.
#[derive(Debug)]
pub struct SeenEntry {
    pub packet_id: Vec<u8>,
    pub first_seen: u64,
}

/// Return-path material of one circuit: the key and nonce that decrypted
/// the forward layer, reused to seal the response, and the previous hop.
#[derive(Debug)]
pub struct CircuitInfo {
    pub created_at: u64,
    pub return_key: Vec<u8>,
    pub return_nonce: Vec<u8>,
    pub prev_hop: Option<Vec<u8>>,
}

/// A circuit table entry, keyed by the packet identifier.
#[derive(Debug)]
pub struct CircuitEntry {
    pub packet_id: Vec<u8>,
    pub info: CircuitInfo,
}

/// Key and nonce retained by the initiator for one hop of a circuit.
#[derive(Debug)]
pub struct HopSecret {
    pub key: Vec<u8>,
    pub nonce: Vec<u8>,
}

/// Replay-cache entries live for an hour.
pub open spec fn seen_fresh(now: u64) -> spec_fn(SeenEntry) -> bool {
    |e: SeenEntry| e.first_seen + 3600 > now
}

/// Circuit entries live for ten minutes; an entry for the identifier being
/// recorded anew is dropped as well.
pub open spec fn circuit_keep(now: u64, id: Seq<u8>) -> spec_fn(CircuitEntry) -> bool {
    |e: CircuitEntry| e.info.created_at + 600 > now && e.packet_id@ != id
}

pub open spec fn seen_has(s: Seq<SeenEntry>, id: Seq<u8>) -> bool {
    exists|k: int| 0 <= k < s.len() && s[k].packet_id@ == id
}

pub open spec fn unique_seen(s: Seq<SeenEntry>) -> bool {
    forall|j: int, k: int| 0 <= j < k < s.len() ==> s[j].packet_id@ != s[k].packet_id@
}

pub open spec fn circuits_have(s: Seq<CircuitEntry>, id: Seq<u8>) -> bool {
    exists|k: int| 0 <= k < s.len() && s[k].packet_id@ == id
}

pub open spec fn unique_circuits(s: Seq<CircuitEntry>) -> bool {
    forall|j: int, k: int| 0 <= j < k < s.len() ==> s[j].packet_id@ != s[k].packet_id@
}

/// The circuit entry carrying `id`; meaningful when the table holds it and
/// identifiers are unique.
pub open spec fn circuit_at(s: Seq<CircuitEntry>, id: Seq<u8>) -> CircuitEntry {
    s[choose|k: int| 0 <= k < s.len() && s[k].packet_id@ == id]
}

pub open spec fn wf_circuit_info(c: CircuitInfo) -> bool {
    c.return_key@.len() == 32 && c.return_nonce@.len() == 12
}

/// The symmetric key under which this node opens a packet.
pub open spec fn peel_key(privkey: Seq<u8>, packet: OnionPacketView) -> Seq<u8> {
    spec_kdf(x25519_shared(privkey, packet.ephemeral_pubkey))
}

/// Whether `pt` decodes exactly as the layer `layer`.
pub open spec fn layer_decodes(pt: Seq<u8>, layer: OnionLayerView) -> bool {
    sdec_onion_layer(pt, 0) == Some((layer, pt.len() as int))
}

/// A filtered replay cache stays unique, and gains no identifier.
proof fn lemma_filter_seen(s: Seq<SeenEntry>, pred: spec_fn(SeenEntry) -> bool)
    requires
        unique_seen(s),
    ensures
        unique_seen(s.filter(pred)),
        forall|id: Seq<u8>| seen_has(s.filter(pred), id) ==> seen_has(s, id),
    decreases s.len(),
{
    reveal(Seq::filter);
    assert forall|id: Seq<u8>| seen_has(s.filter(pred), id) implies seen_has(s, id) by {
        let k = choose|k: int| 0 <= k < s.filter(pred).len() && s.filter(pred)[k].packet_id@ == id;
        let e = s.filter(pred)[k];
        assert(s.filter(pred).contains(e));
        s.lemma_filter_contains_rev(pred, e);
        let j = choose|j: int| 0 <= j < s.len() && s[j] == e;
        assert(s[j].packet_id@ == id);
    }
    if s.len() > 0 {
        lemma_filter_seen(s.drop_last(), pred);
        if pred(s.last()) {
            assert(s.filter(pred) == s.drop_last().filter(pred).push(s.last()));
            assert(!seen_has(s.drop_last(), s.last().packet_id@)) by {
                assert forall|j: int|
                    0 <= j < s.drop_last().len() implies (s.drop_last()[j]).packet_id@
                    != s.last().packet_id@ by {
                    assert(s.drop_last()[j] == s[j]);
                    assert(s.last() == s[s.len() - 1]);
                }
            }
            assert(unique_seen(s.filter(pred))) by {
                let f = s.drop_last().filter(pred);
                assert forall|j: int, k: int|
                    0 <= j < k < f.push(s.last()).len() implies (f.push(s.last())[j]).packet_id@
                    != (f.push(s.last())[k]).packet_id@ by {
                    if k < f.len() {
                    } else {
                        assert(f.push(s.last())[k] == s.last());
                        assert(f.push(s.last())[j] == f[j]);
                        assert(seen_has(f, f[j].packet_id@));
                    }
                }
            }
        }
    }
}

/// A filtered circuit table stays unique, and gains no identifier.
proof fn lemma_filter_circuits(s: Seq<CircuitEntry>, pred: spec_fn(CircuitEntry) -> bool)
    requires
        unique_circuits(s),
    ensures
        unique_circuits(s.filter(pred)),
        forall|id: Seq<u8>| circuits_have(s.filter(pred), id) ==> circuits_have(s, id),
        forall|k: int|
            0 <= k < s.filter(pred).len() ==> s.contains(#[trigger] s.filter(pred)[k]),
    decreases s.len(),
{
    reveal(Seq::filter);
    assert forall|k: int| 0 <= k < s.filter(pred).len() implies s.contains(
        #[trigger] s.filter(pred)[k],
    ) by {
        let e = s.filter(pred)[k];
        assert(s.filter(pred).contains(e));
        s.lemma_filter_contains_rev(pred, e);
    }
    assert forall|id: Seq<u8>| circuits_have(s.filter(pred), id) implies circuits_have(s, id) by {
        let k = choose|k: int|
            0 <= k < s.filter(pred).len() && s.filter(pred)[k].packet_id@ == id;
        let e = s.filter(pred)[k];
        assert(s.contains(e));
        let j = choose|j: int| 0 <= j < s.len() && s[j] == e;
        assert(s[j].packet_id@ == id);
    }
    if s.len() > 0 {
        lemma_filter_circuits(s.drop_last(), pred);
        if pred(s.last()) {
            assert(s.filter(pred) == s.drop_last().filter(pred).push(s.last()));
            assert(!circuits_have(s.drop_last(), s.last().packet_id@)) by {
                assert forall|j: int|
                    0 <= j < s.drop_last().len() implies (s.drop_last()[j]).packet_id@
                    != s.last().packet_id@ by {
                    assert(s.drop_last()[j] == s[j]);
                    assert(s.last() == s[s.len() - 1]);
                }
            }
            assert(unique_circuits(s.filter(pred))) by {
                let f = s.drop_last().filter(pred);
                assert forall|j: int, k: int|
                    0 <= j < k < f.push(s.last()).len() implies (f.push(s.last())[j]).packet_id@
                    != (f.push(s.last())[k]).packet_id@ by {
                    if k < f.len() {
                    } else {
                        assert(f.push(s.last())[k] == s.last());
                        assert(f.push(s.last())[j] == f[j]);
                        assert(circuits_have(f, f[j].packet_id@));
                    }
                }
            }
        }
    }
}

/// Builds and opens onion packets, and tracks replay and circuit state.
pub struct OnionRouter {
    x25519_privkey: Vec<u8>,
    x25519_pubkey: Vec<u8>,
    seen_packets: Vec<SeenEntry>,
    active_circuits: Vec<CircuitEntry>,
}

impl OnionRouter {
    /// This node's key-agreement secret key.
    pub closed spec fn spec_privkey(self) -> Seq<u8> {
        self.x25519_privkey@
    }

    /// This node's advertised key-agreement public key.
    pub closed spec fn spec_pubkey(self) -> Seq<u8> {
        self.x25519_pubkey@
    }

    /// The replay cache.
    pub closed spec fn spec_seen(self) -> Seq<SeenEntry> {
        self.seen_packets@
    }

    /// The circuit table.
    pub closed spec fn spec_circuits(self) -> Seq<CircuitEntry> {
        self.active_circuits@
    }

    pub closed spec fn wf(self) -> bool {
        &&& self.x25519_privkey@.len() == 32
        &&& self.x25519_pubkey@.len() == 32
        &&& unique_seen(self.seen_packets@)
        &&& unique_circuits(self.active_circuits@)
        &&& forall|k: int|
            0 <= k < self.active_circuits@.len() ==> wf_circuit_info(
                (#[trigger] self.active_circuits@[k]).info,
            ) && self.active_circuits@[k].packet_id@.len() == 16
    }

    /// A router with empty replay cache and circuit table.
    pub fn new(x25519_privkey: Vec<u8>, x25519_pubkey: Vec<u8>) -> (r: OnionRouter)
        requires
            x25519_privkey@.len() == 32,
            x25519_pubkey@.len() == 32,
        ensures
            r.wf(),
            r.spec_privkey() == x25519_privkey@,
            r.spec_pubkey() == x25519_pubkey@,
            r.spec_seen().len() == 0,
            r.spec_circuits().len() == 0,
    {
        OnionRouter {
            x25519_privkey,
            x25519_pubkey,
            seen_packets: Vec::new(),
            active_circuits: Vec::new(),
        }
    }

    /// This node's key-agreement public key.
    pub fn pubkey(&self) -> (r: Vec<u8>)
        ensures
            r@ == self.spec_pubkey(),
    {
        bytes_clone(&self.x25519_pubkey)
    }

    /// How many identifiers the replay cache holds.
    pub fn replay_cache_len(&self) -> (r: usize)
        ensures
            r == self.spec_seen().len(),
    {
        self.seen_packets.len()
    }

    /// How many circuit entries are tracked.
    pub fn circuit_count(&self) -> (r: usize)
        ensures
            r == self.spec_circuits().len(),
    {
        self.active_circuits.len()
    }

    /// Whether a packet identifier is in the replay cache.
    pub fn seen_contains(&self, id: &Vec<u8>) -> (r: bool)
        ensures
            r == seen_has(self.spec_seen(), id@),
    {
        let n = self.seen_packets.len();
        let mut i: usize = 0;
        while i < n
            invariant
                i <= n,
                n == self.seen_packets@.len(),
                forall|k: int| 0 <= k < i ==> self.seen_packets@[k].packet_id@ != id@,
            decreases n - i,
        {
            if crate::bytes::bytes_eq(&self.seen_packets[i].packet_id, id) {
                return true;
            }
            i = i + 1;
        }
        false
    }

    /// Index of the circuit entry carrying `id`, if any.
    fn find_circuit(&self, id: &Vec<u8>) -> (r: Option<usize>)
        requires
            self.wf(),
        ensures
            (match r {
                Some(k) => k < self.spec_circuits().len() && self.spec_circuits()[
                    k as int
                ].packet_id@ == id@ && circuits_have(self.spec_circuits(), id@) && circuit_at(
                    self.spec_circuits(),
                    id@,
                ) == self.spec_circuits()[k as int],
                None => !circuits_have(self.spec_circuits(), id@),
            }),
    {
        let n = self.active_circuits.len();
        let mut i: usize = 0;
        while i < n
            invariant
                self.wf(),
                i <= n,
                n == self.active_circuits@.len(),
                forall|k: int| 0 <= k < i ==> self.active_circuits@[k].packet_id@ != id@,
            decreases n - i,
        {
            if crate::bytes::bytes_eq(&self.active_circuits[i].packet_id, id) {
                proof {
                    let s = self.active_circuits@;
                    assert(unique_circuits(s));
                    assert(s[i as int].packet_id@ == id@);
                    assert(circuits_have(s, id@));
                    let w = choose|k: int| 0 <= k < s.len() && s[k].packet_id@ == id@;
                    assert(s[w].packet_id@ == id@);
                    assert(w == i as int) by {
                        if w < i as int {
                            assert(s[w].packet_id@ != id@);
                        }
                        if w > i as int {
                            assert(s[i as int].packet_id@ != s[w].packet_id@);
                        }
                    }
                }
                return Some(i);
            }
            i = i + 1;
        }
        None
    }

    /// Drops replay-cache entries past their hour and records `id`.
    fn note_seen(&mut self, id: &Vec<u8>, now: u64)
        requires
            old(self).wf(),
            id@.len() == 16,
            !seen_has(old(self).spec_seen(), id@),
        ensures
            final(self).wf(),
            final(self).spec_privkey() == old(self).spec_privkey(),
            final(self).spec_pubkey() == old(self).spec_pubkey(),
            final(self).spec_circuits() == old(self).spec_circuits(),
            final(self).spec_seen() == old(self).spec_seen().filter(seen_fresh(now)).push(
                final(self).spec_seen().last(),
            ),
            final(self).spec_seen().last().packet_id@ == id@,
            final(self).spec_seen().last().first_seen == now,
            seen_has(final(self).spec_seen(), id@),
    {
        let ghost orig = *self;
        let ghost pred = seen_fresh(now);
        let mut i: usize = 0;
        let ghost mut j: int = 0;
        while i < self.seen_packets.len()
            invariant
                0 <= j <= orig.seen_packets@.len(),
                self.x25519_privkey == orig.x25519_privkey,
                self.x25519_pubkey == orig.x25519_pubkey,
                self.active_circuits == orig.active_circuits,
                self.seen_packets@ == orig.seen_packets@.take(j).filter(pred)
                    + orig.seen_packets@.skip(j),
                i == orig.seen_packets@.take(j).filter(pred).len(),
                pred == seen_fresh(now),
            decreases orig.seen_packets@.len() - j,
        {
            let ghost pre = self.seen_packets@;
            let e_fresh = {
                let e = &self.seen_packets[i];
                now <= e.first_seen || now - e.first_seen < 3600
            };
            proof {
                assert(self.seen_packets@[i as int] == orig.seen_packets@[j]);
                orig.seen_packets@.take(j).lemma_filter_push(orig.seen_packets@[j], pred);
                assert(orig.seen_packets@.take(j + 1) =~= orig.seen_packets@.take(j).push(
                    orig.seen_packets@[j],
                ));
            }
            if e_fresh {
                i = i + 1;
            } else {
                self.seen_packets.remove(i);
                proof {
                    assert(self.seen_packets@ =~= orig.seen_packets@.take(j + 1).filter(pred)
                        + orig.seen_packets@.skip(j + 1));
                }
            }
            proof {
                j = j + 1;
                assert(self.seen_packets@ =~= orig.seen_packets@.take(j).filter(pred)
                    + orig.seen_packets@.skip(j));
            }
        }
        proof {
            assert(orig.seen_packets@.take(orig.seen_packets@.len() as int) =~= orig.seen_packets@);
            assert(orig.seen_packets@.skip(orig.seen_packets@.len() as int) =~= Seq::<
                SeenEntry,
            >::empty());
            assert(self.seen_packets@ =~= orig.seen_packets@.filter(pred));
            lemma_filter_seen(orig.seen_packets@, pred);
        }
        let entry = SeenEntry { packet_id: bytes_clone(id), first_seen: now };
        self.seen_packets.push(entry);
        proof {
            let s = self.seen_packets@;
            assert(s.last().packet_id@ == id@);
            assert(unique_seen(s)) by {
                assert forall|a: int, b: int|
                    0 <= a < b < s.len() implies s[a].packet_id@ != (s[b]).packet_id@ by {
                    if b == s.len() - 1 {
                        assert(s[a] == orig.seen_packets@.filter(pred)[a]);
                        assert(seen_has(orig.seen_packets@.filter(pred), s[a].packet_id@));
                        if s[a].packet_id@ == id@ {
                            assert(seen_has(orig.seen_packets@, id@));
                        }
                    }
                }
            }
            assert(seen_has(s, id@)) by {
                assert(s[s.len() - 1].packet_id@ == id@);
            }
        }
    }

    /// Drops circuit entries past their ten minutes and records one for `id`.
    fn note_circuit(&mut self, id: &Vec<u8>, now: u64, return_key: Vec<u8>, return_nonce: &Vec<u8>,
        prev_hop: Option<Vec<u8>>)
        requires
            old(self).wf(),
            id@.len() == 16,
            return_key@.len() == 32,
            return_nonce@.len() == 12,
        ensures
            final(self).wf(),
            final(self).spec_privkey() == old(self).spec_privkey(),
            final(self).spec_pubkey() == old(self).spec_pubkey(),
            final(self).spec_seen() == old(self).spec_seen(),
            final(self).spec_circuits() == old(self).spec_circuits().filter(
                circuit_keep(now, id@),
            ).push(final(self).spec_circuits().last()),
            final(self).spec_circuits().last().packet_id@ == id@,
            final(self).spec_circuits().last().info.created_at == now,
            final(self).spec_circuits().last().info.return_key@ == return_key@,
            final(self).spec_circuits().last().info.return_nonce@ == return_nonce@,
            final(self).spec_circuits().last().info.prev_hop == prev_hop,
            circuits_have(final(self).spec_circuits(), id@),
            circuit_at(final(self).spec_circuits(), id@) == final(self).spec_circuits().last(),
    {
        let ghost orig = *self;
        let ghost pred = circuit_keep(now, id@);
        let mut i: usize = 0;
        let ghost mut j: int = 0;
        while i < self.active_circuits.len()
            invariant
                0 <= j <= orig.active_circuits@.len(),
                self.x25519_privkey == orig.x25519_privkey,
                self.x25519_pubkey == orig.x25519_pubkey,
                self.seen_packets == orig.seen_packets,
                self.active_circuits@ == orig.active_circuits@.take(j).filter(pred)
                    + orig.active_circuits@.skip(j),
                i == orig.active_circuits@.take(j).filter(pred).len(),
                pred == circuit_keep(now, id@),
            decreases orig.active_circuits@.len() - j,
        {
            let e_fresh = {
                let e = &self.active_circuits[i];
                (now <= e.info.created_at || now - e.info.created_at < 600)
                    && !crate::bytes::bytes_eq(&e.packet_id, id)
            };
            proof {
                assert(self.active_circuits@[i as int] == orig.active_circuits@[j]);
                orig.active_circuits@.take(j).lemma_filter_push(orig.active_circuits@[j], pred);
                assert(orig.active_circuits@.take(j + 1) =~= orig.active_circuits@.take(j).push(
                    orig.active_circuits@[j],
                ));
            }
            if e_fresh {
                i = i + 1;
            } else {
                self.active_circuits.remove(i);
                proof {
                    assert(self.active_circuits@ =~= orig.active_circuits@.take(j + 1).filter(pred)
                        + orig.active_circuits@.skip(j + 1));
                }
            }
            proof {
                j = j + 1;
                assert(self.active_circuits@ =~= orig.active_circuits@.take(j).filter(pred)
                    + orig.active_circuits@.skip(j));
            }
        }
        proof {
            assert(orig.active_circuits@.take(orig.active_circuits@.len() as int)
                =~= orig.active_circuits@);
            assert(orig.active_circuits@.skip(orig.active_circuits@.len() as int) =~= Seq::<
                CircuitEntry,
            >::empty());
            assert(self.active_circuits@ =~= orig.active_circuits@.filter(pred));
            lemma_filter_circuits(orig.active_circuits@, pred);
        }
        let entry = CircuitEntry {
            packet_id: bytes_clone(id),
            info: CircuitInfo {
                created_at: now,
                return_key,
                return_nonce: bytes_clone(return_nonce),
                prev_hop,
            },
        };
        self.active_circuits.push(entry);
        proof {
            let s = self.active_circuits@;
            let f = orig.active_circuits@.filter(pred);
            assert(s.last().packet_id@ == id@);
            assert(unique_circuits(s)) by {
                assert forall|a: int, b: int|
                    0 <= a < b < s.len() implies s[a].packet_id@ != (s[b]).packet_id@ by {
                    if b == s.len() - 1 {
                        assert(s[a] == f[a]);
                        assert(pred(f[a]));
                    }
                }
            }
            assert(forall|k: int|
                0 <= k < s.len() ==> wf_circuit_info((#[trigger] s[k]).info) && (
                s[k]).packet_id@.len() == 16) by {
                assert forall|k: int| 0 <= k < s.len() - 1 implies wf_circuit_info(
                    (#[trigger] s[k]).info,
                ) && (s[k]).packet_id@.len() == 16 by {
                    assert(s[k] == f[k]);
                    assert(orig.active_circuits@.contains(f[k]));
                    let w = choose|w: int|
                        0 <= w < orig.active_circuits@.len() && orig.active_circuits@[w] == f[k];
                    assert(wf_circuit_info(orig.active_circuits@[w].info));
                }
            }
            assert(circuits_have(s, id@)) by {
                assert(s[s.len() - 1].packet_id@ == id@);
            }
            assert(circuit_at(s, id@) == s.last()) by {
                let w = choose|k: int| 0 <= k < s.len() && s[k].packet_id@ == id@;
                if w < s.len() - 1 {
                    assert(s[w] == f[w]);
                    assert(pred(f[w]));
                }
            }
        }
    }

    /// Opens one layer of an onion packet addressed to this node.
    ///
    /// A replayed identifier is dropped with no state change. On success the
    /// identifier enters the replay cache, a circuit entry records the layer
    /// key and nonce for the response, and the returned bytes and next hop
    /// are exactly those of the layer that was sealed for this node's key.
    pub fn unwrap_layer(&mut self, packet: &OnionPacket, prev_hop: Option<Vec<u8>>, now: u64) -> (r:
        Result<(Vec<u8>, Option<NextHop>), OnionError>)
        requires
            old(self).wf(),
            packet@.packet_id.len() == 16,
            packet@.ephemeral_pubkey.len() == 32,
            packet@.nonce.len() == 12,
        ensures
            final(self).wf(),
            final(self).spec_privkey() == old(self).spec_privkey(),
            final(self).spec_pubkey() == old(self).spec_pubkey(),
            seen_has(old(self).spec_seen(), packet@.packet_id) ==> (r matches Err(e) && e
                == OnionError::ReplayDetected && *final(self) == *old(self)),
            (match r {
                Ok(p) => {
                    &&& !seen_has(old(self).spec_seen(), packet@.packet_id)
                    &&& exists|layer: OnionLayerView, pt: Seq<u8>|
                        {
                            &&& packet@.encrypted_payload == aes_gcm_seal(
                                peel_key(old(self).spec_privkey(), packet@),
                                packet@.nonce,
                                pt,
                            )
                            &&& #[trigger] layer_decodes(pt, layer)
                            &&& p.0@ == layer.inner_packet
                            &&& (match p.1 {
                                Some(h) => layer.next_hop == Some(h@),
                                None => layer.next_hop is None,
                            })
                        }
                    &&& final(self).spec_seen() == old(self).spec_seen().filter(
                        seen_fresh(now),
                    ).push(final(self).spec_seen().last())
                    &&& final(self).spec_seen().last().packet_id@ == packet@.packet_id
                    &&& final(self).spec_seen().last().first_seen == now
                    &&& seen_has(final(self).spec_seen(), packet@.packet_id)
                    &&& final(self).spec_circuits() == old(self).spec_circuits().filter(
                        circuit_keep(now, packet@.packet_id),
                    ).push(final(self).spec_circuits().last())
                    &&& circuits_have(final(self).spec_circuits(), packet@.packet_id)
                    &&& circuit_at(final(self).spec_circuits(), packet@.packet_id)
                        == final(self).spec_circuits().last()
                    &&& final(self).spec_circuits().last().packet_id@ == packet@.packet_id
                    &&& final(self).spec_circuits().last().info.created_at == now
                    &&& final(self).spec_circuits().last().info.return_key@ == peel_key(
                        old(self).spec_privkey(),
                        packet@,
                    )
                    &&& final(self).spec_circuits().last().info.return_nonce@ == packet@.nonce
                    &&& final(self).spec_circuits().last().info.prev_hop == prev_hop
                },
                Err(e) => {
                    &&& *final(self) == *old(self)
                    &&& (e == OnionError::ReplayDetected || e == OnionError::DecryptFailed || e
                        == OnionError::MalformedLayer)
                    &&& (e == OnionError::ReplayDetected <==> seen_has(
                        old(self).spec_seen(),
                        packet@.packet_id,
                    ))
                },
            }),
            forall|esk: Seq<u8>, layer: OnionLayerView|
                {
                    (#[trigger] layer_sealed_for(esk, old(self).spec_privkey(), packet@, layer)
                        && !seen_has(old(self).spec_seen(), packet@.packet_id)) ==> {
                        &&& r is Ok
                        &&& r->Ok_0.0@ == layer.inner_packet
                        &&& (match r->Ok_0.1 {
                            Some(h) => layer.next_hop == Some(h@),
                            None => layer.next_hop is None,
                        })
                        &&& peel_key(old(self).spec_privkey(), packet@) == spec_kdf(
                            x25519_shared(esk, x25519_pub_of(old(self).spec_privkey())),
                        )
                    }
                },
    {
        if self.seen_contains(&packet.packet_id) {
            return Err(OnionError::ReplayDetected);
        }
        let shared = x25519_derive_shared(&self.x25519_privkey, &packet.ephemeral_pubkey);
        let key = derive_aes_key(&shared);
        let pt = match aes_decrypt(&key, &packet.nonce, &packet.encrypted_payload) {
            Ok(p) => p,
            Err(_) => {
                proof {
                    assert forall|esk: Seq<u8>, hl: OnionLayerView|
                        !(#[trigger] layer_sealed_for(
                            esk,
                            old(self).spec_privkey(),
                            packet@,
                            hl,
                        )) by {
                        if layer_sealed_for(esk, old(self).spec_privkey(), packet@, hl) {
                            lemma_senc_onion_layer_len(hl);
                        }
                    }
                }
                return Err(OnionError::DecryptFailed);
            },
        };
        let layer = match decode_layer(&pt) {
            Some(l) => l,
            None => {
                proof {
                    assert forall|esk: Seq<u8>, hl: OnionLayerView|
                        !(#[trigger] layer_sealed_for(
                            esk,
                            old(self).spec_privkey(),
                            packet@,
                            hl,
                        )) by {
                        if layer_sealed_for(esk, old(self).spec_privkey(), packet@, hl) {
                            lemma_senc_onion_layer_len(hl);
                            crate::codec::lemma_layer_round_trip(hl);
                        }
                    }
                }
                return Err(OnionError::MalformedLayer);
            },
        };
        self.note_seen(&packet.packet_id, now);
        self.note_circuit(&packet.packet_id, now, key, &packet.nonce, prev_hop);
        proof {
            assert(packet@.encrypted_payload == aes_gcm_seal(
                peel_key(old(self).spec_privkey(), packet@),
                packet@.nonce,
                pt@,
            ));
            assert(layer_decodes(pt@, layer@));
            assert forall|esk: Seq<u8>, hl: OnionLayerView|
                #[trigger] layer_sealed_for(
                    esk,
                    old(self).spec_privkey(),
                    packet@,
                    hl,
                ) implies (hl == layer@ && peel_key(old(self).spec_privkey(), packet@) == spec_kdf(
                x25519_shared(esk, x25519_pub_of(old(self).spec_privkey())),
            )) by {
                lemma_senc_onion_layer_len(hl);
                crate::codec::lemma_layer_round_trip(hl);
            }
        }
        Ok((layer.inner_packet, layer.next_hop))
    }
}

/// Whether `packet` carries exactly `layer`, sealed with the key that the
/// holder of `privkey` derives from the ephemeral key `esk`.
pub open spec fn layer_sealed_for(esk: Seq<u8>, privkey: Seq<u8>, packet: OnionPacketView,
    layer: OnionLayerView) -> bool {
    &&& esk.len() == 32
    &&& wf_onion_layer(layer)
    &&& packet.ephemeral_pubkey == x25519_pub_of(esk)
    &&& packet.encrypted_payload == aes_gcm_seal(
        spec_kdf(x25519_shared(esk, x25519_pub_of(privkey))),
        packet.nonce,
        senc_onion_layer(layer),
    )
}

/// A well-formed layer's encoding fits the cipher's size cap.
pub proof fn lemma_senc_onion_layer_len(layer: OnionLayerView)
    requires
        wf_onion_layer(layer),
    ensures
        senc_onion_layer(layer).len() <= 68719476736,
        senc_onion_layer(layer).len() == crate::codec::senc_opt_next_hop(layer.next_hop).len() + 4
            + layer.inner_packet.len(),
{
}


/// The next-hop descriptor that a layer carries for a peer: its native
/// transport port when it has one, else its client port.
pub open spec fn spec_hop_descriptor(h: KnownPeer) -> NextHopView {
    NextHopView {
        address: h.node.address@,
        port: if h.node.arson_port > 0 {
            h.node.arson_port
        } else {
            h.node.http_port
        },
        pubkey: h.node.pubkey@,
    }
}

/// A hop record fit for a circuit: an agreement key of the right size and
/// short address and fingerprint fields.
pub open spec fn good_hop(h: KnownPeer) -> bool {
    &&& h.x25519_pubkey matches Some(k) && k@.len() == 32
    &&& h.node.address@.len() <= 255
    &&& h.node.pubkey@.len() <= 255
}

/// Inputs on which packet construction is owed to succeed.
pub open spec fn modest_circuit(hops: Seq<KnownPeer>, payload: Seq<u8>) -> bool {
    &&& 1 <= hops.len() <= 8
    &&& payload.len() <= 8192
    &&& forall|i: int| 0 <= i < hops.len() ==> good_hop(#[trigger] hops[i])
}

/// The onion layer that hop `off + j` of the circuit sees: the exit layer
/// carries the payload and no next hop; every other layer points at the
/// following hop and carries the encoding of the following packet.
pub open spec fn spec_layer_at(
    hops: Seq<KnownPeer>,
    payload: Seq<u8>,
    pkts: Seq<OnionPacketView>,
    off: int,
    j: int,
) -> OnionLayerView {
    if off + j == hops.len() - 1 {
        OnionLayerView { next_hop: None, inner_packet: payload }
    } else {
        OnionLayerView {
            next_hop: Some(spec_hop_descriptor(hops[off + j + 1])),
            inner_packet: senc_node_packet(NodePacketView::Onion(pkts[j + 1])),
        }
    }
}

/// The packet for hop `off + j` seals exactly its layer, under the key
/// derived from the ephemeral secret `esks[j]` and the hop's agreement key,
/// and `secrets[j]` retains that key with the packet's nonce.
pub open spec fn spec_layer_link(
    hops: Seq<KnownPeer>,
    payload: Seq<u8>,
    pkts: Seq<OnionPacketView>,
    secrets: Seq<HopSecret>,
    esks: Seq<Seq<u8>>,
    off: int,
    j: int,
) -> bool {
    &&& wf_onion_packet(pkts[j])
    &&& esks[j].len() == 32
    &&& pkts[j].ephemeral_pubkey == x25519_pub_of(esks[j])
    &&& wf_onion_layer(spec_layer_at(hops, payload, pkts, off, j))
    &&& (hops[off + j].x25519_pubkey matches Some(hk) && {
        &&& secrets[j].key@ == spec_kdf(x25519_shared(esks[j], hk@))
        &&& secrets[j].nonce@ == pkts[j].nonce
        &&& pkts[j].encrypted_payload == aes_gcm_seal(
            spec_kdf(x25519_shared(esks[j], hk@)),
            pkts[j].nonce,
            senc_onion_layer(spec_layer_at(hops, payload, pkts, off, j)),
        )
    })
}

/// The layered-packet relation for the tail of the hop list from `off` on:
/// element `j` of `pkts`, `secrets` and `esks` belongs to hop `off + j`.
pub open spec fn spec_onion_chain(
    hops: Seq<KnownPeer>,
    payload: Seq<u8>,
    pkts: Seq<OnionPacketView>,
    secrets: Seq<HopSecret>,
    esks: Seq<Seq<u8>>,
    off: int,
) -> bool {
    &&& 0 <= off < hops.len()
    &&& pkts.len() == hops.len() - off
    &&& secrets.len() == hops.len() - off
    &&& esks.len() == hops.len() - off
    &&& forall|j: int|
        0 <= j < pkts.len() ==> #[trigger] spec_layer_link(
            hops,
            payload,
            pkts,
            secrets,
            esks,
            off,
            j,
        )
}

/// Key and nonce material all of the right sizes.
pub open spec fn wf_secrets(s: Seq<HopSecret>) -> bool {
    forall|k: int|
        0 <= k < s.len() ==> (#[trigger] s[k]).key@.len() == 32 && s[k].nonce@.len() == 12
}

/// Response bytes sealed once per hop, outermost hop first.
pub open spec fn spec_seal_chain(secrets: Seq<HopSecret>, body: Seq<u8>) -> Seq<u8>
    decreases secrets.len(),
{
    if secrets.len() == 0 {
        body
    } else {
        aes_gcm_seal(secrets[0].key@, secrets[0].nonce@, spec_seal_chain(secrets.skip(1), body))
    }
}

/// Every ciphertext along a seal chain fits the cipher's size cap; this is
/// what lets each layer of the response peel.
pub open spec fn chain_lengths_ok(secrets: Seq<HopSecret>, body: Seq<u8>) -> bool
    decreases secrets.len(),
{
    if secrets.len() == 0 {
        true
    } else {
        spec_seal_chain(secrets.skip(1), body).len() <= 68719476736 && chain_lengths_ok(
            secrets.skip(1),
            body,
        )
    }
}

/// Along a chain with lengths in bounds, every suffix chain is in bounds.
proof fn lemma_chain_lengths_suffix(secrets: Seq<HopSecret>, body: Seq<u8>, i: int)
    requires
        chain_lengths_ok(secrets, body),
        0 <= i < secrets.len(),
    ensures
        spec_seal_chain(secrets.skip(i + 1), body).len() <= 68719476736,
        chain_lengths_ok(secrets.skip(i), body),
    decreases i,
{
    if i == 0 {
        assert(secrets.skip(0) =~= secrets);
        assert(chain_lengths_ok(secrets, body));
        assert(spec_seal_chain(secrets.skip(1), body).len() <= 68719476736);
        assert(secrets.skip(0int + 1) =~= secrets.skip(1));
    } else {
        lemma_chain_lengths_suffix(secrets, body, i - 1);
        assert(secrets.skip(i - 1).skip(1) =~= secrets.skip(i));
        assert(chain_lengths_ok(secrets.skip(i), body));
        assert(secrets.skip(i).len() == secrets.len() - i);
        assert(spec_seal_chain(secrets.skip(i).skip(1), body).len() <= 68719476736);
        assert(secrets.skip(i).skip(1) =~= secrets.skip(i + 1));
    }
}

pub proof fn lemma_seal_chain_snoc(secrets: Seq<HopSecret>, e: HopSecret, body: Seq<u8>)
    ensures
        spec_seal_chain(secrets.push(e), body) == spec_seal_chain(
            secrets,
            aes_gcm_seal(e.key@, e.nonce@, body),
        ),
    decreases secrets.len(),
{
    if secrets.len() == 0 {
        let w = secrets.push(e);
        assert(w[0] == e);
        assert(w.skip(1) =~= Seq::<HopSecret>::empty());
        assert(spec_seal_chain(w.skip(1), body) == body);
    } else {
        let w = secrets.push(e);
        assert(w[0] == secrets[0]);
        assert(w.skip(1) =~= secrets.skip(1).push(e));
        lemma_seal_chain_snoc(secrets.skip(1), e, body);
    }
}

/// Builds the next-hop descriptor a layer carries for a peer.
fn make_next_hop(h: &KnownPeer) -> (r: NextHop)
    ensures
        r@ == spec_hop_descriptor(*h),
{
    NextHop {
        address: bytes_clone(&h.node.address),
        port: if h.node.arson_port > 0 {
            h.node.arson_port
        } else {
            h.node.http_port
        },
        pubkey: bytes_clone(&h.node.pubkey),
    }
}

/// Seals one layer for a hop with a fresh ephemeral key, nonce and packet
/// identifier. The ghost result is the ephemeral secret that was used.
fn wrap_one(hop_key: &Vec<u8>, layer: &OnionLayer) -> (r: Result<
    (OnionPacket, HopSecret, Ghost<Seq<u8>>),
    OnionError,
>)
    requires
        hop_key@.len() == 32,
        wf_onion_layer(layer@),
    ensures
        (match r {
            Ok(out) => {
                &&& out.2@.len() == 32
                &&& wf_onion_packet(out.0@)
                &&& out.0@.ephemeral_pubkey == x25519_pub_of(out.2@)
                &&& out.1.key@ == spec_kdf(x25519_shared(out.2@, hop_key@))
                &&& out.1.nonce@ == out.0@.nonce
                &&& out.0@.encrypted_payload == aes_gcm_seal(
                    out.1.key@,
                    out.0@.nonce,
                    senc_onion_layer(layer@),
                )
                &&& out.0@.encrypted_payload.len() == senc_onion_layer(layer@).len() + 16
                &&& out.1.key@.len() == 32
                &&& out.1.nonce@.len() == 12
            },
            Err(e) => e == OnionError::PacketTooLarge && senc_onion_layer(layer@).len() + 16
                >= 4294967296,
        }),
{
    proof {
        lemma_senc_onion_layer_len(layer@);
    }
    let layer_bytes = match encode_layer(layer) {
        Some(b) => b,
        None => {
            proof {
                assert(false);
            }
            return Err(OnionError::PacketTooLarge);
        },
    };
    let (esk, epk) = x25519_ephemeral();
    let ghost eskv = esk@;
    let shared = x25519_ephemeral_derive(esk, hop_key);
    let key = derive_aes_key(&shared);
    let nonce = generate_nonce();
    let pid = generate_packet_id();
    let ct = aes_encrypt(&key, &nonce, &layer_bytes);
    if (ct.len() as u64) >= 4294967296u64 {
        return Err(OnionError::PacketTooLarge);
    }
    let packet_nonce = bytes_clone(&nonce);
    Ok(
        (
            OnionPacket {
                packet_id: pid,
                ephemeral_pubkey: epk,
                encrypted_payload: ct,
                nonce: packet_nonce,
            },
            HopSecret { key, nonce },
            Ghost(eskv),
        ),
    )
}

impl OnionRouter {
    /// Builds the layered packet for an ordered hop list, innermost layer
    /// last, and returns it with the per-hop key and nonce the initiator
    /// retains to decrypt the eventual response.
    #[verifier::rlimit(100)]
    pub fn create_onion_packet(&self, hops: &Vec<KnownPeer>, final_payload: &Vec<u8>) -> (r: Result<
        (OnionPacket, Vec<HopSecret>),
        OnionError,
    >)
        ensures
            (match r {
                Ok(out) => {
                    &&& out.1@.len() == hops@.len()
                    &&& wf_secrets(out.1@)
                    &&& exists|pkts: Seq<OnionPacketView>, esks: Seq<Seq<u8>>|
                        #[trigger] spec_onion_chain(hops@, final_payload@, pkts, out.1@, esks, 0)
                            && pkts[0] == out.0@
                },
                Err(e) => {
                    &&& (e == OnionError::NoHops <==> hops@.len() == 0)
                    &&& (e matches OnionError::NoAgreementKey(i) ==> i < hops@.len() && !(
                    hops@[i as int].x25519_pubkey matches Some(k) && k@.len() == 32))
                    &&& (e is NoHops || e is NoAgreementKey || e is PacketTooLarge)
                },
            }),
            modest_circuit(hops@, final_payload@) ==> r is Ok,
    {
        let n = hops.len();
        if n == 0 {
            return Err(OnionError::NoHops);
        }
        let mut v: usize = 0;
        while v < n
            invariant
                v <= n,
                n == hops@.len(),
                forall|k: int|
                    0 <= k < v ==> ((#[trigger] hops@[k]).x25519_pubkey matches Some(kk)
                        && kk@.len() == 32),
            decreases n - v,
        {
            match &hops[v].x25519_pubkey {
                Some(k) => {
                    if k.len() != 32 {
                        return Err(OnionError::NoAgreementKey(v));
                    }
                },
                None => {
                    return Err(OnionError::NoAgreementKey(v));
                },
            }
            v = v + 1;
        }
        if final_payload.len() > 10485760 {
            return Err(OnionError::PacketTooLarge);
        }
        let last_key = match &hops[n - 1].x25519_pubkey {
            Some(k) => k,
            None => {
                proof {
                    assert(false);
                }
                return Err(OnionError::NoAgreementKey(n - 1));
            },
        };
        let layer0 = OnionLayer { next_hop: None, inner_packet: bytes_clone(final_payload) };
        let (pkt0, s0, g0) = match wrap_one(last_key, &layer0) {
            Ok(out) => out,
            Err(e) => {
                return Err(e);
            },
        };
        let mut pkt = pkt0;
        let mut secrets: Vec<HopSecret> = Vec::new();
        secrets.push(s0);
        let ghost mut esks: Seq<Seq<u8>> = seq![g0@];
        let ghost mut pkts: Seq<OnionPacketView> = seq![pkt0@];
        let mut idx: usize = n - 1;
        proof {
            assert(spec_layer_at(hops@, final_payload@, pkts, idx as int, 0) =~= (OnionLayerView {
                next_hop: None,
                inner_packet: final_payload@,
            }));
            assert(spec_layer_link(hops@, final_payload@, pkts, secrets@, esks, idx as int, 0));
            assert(spec_onion_chain(hops@, final_payload@, pkts, secrets@, esks, idx as int));
        }
        while idx > 0
            invariant
                idx <= n - 1,
                n == hops@.len(),
                n >= 1,
                forall|k: int|
                    0 <= k < n ==> ((#[trigger] hops@[k]).x25519_pubkey matches Some(kk)
                        && kk@.len() == 32),
                spec_onion_chain(hops@, final_payload@, pkts, secrets@, esks, idx as int),
                pkts[0] == pkt@,
                wf_onion_packet(pkt@),
                secrets@.len() == n - idx,
                wf_secrets(secrets@),
                esks.len() == n - idx,
                pkts.len() == n - idx,
                modest_circuit(hops@, final_payload@) ==> pkt@.encrypted_payload.len() <= 8208 + (
                n - idx) * 700,
            decreases idx,
        {
            let ghost prev_pkts = pkts;
            let ghost prev_secrets = secrets@;
            let ghost prev_esks = esks;
            let ghost prev = pkt@;
            let nh = make_next_hop(&hops[idx]);
            let np = NodePacket::Onion(pkt);
            let inner_bytes = match encode_packet(&np) {
                Some(b) => b,
                None => {
                    proof {
                        assert(false);
                    }
                    return Err(OnionError::PacketTooLarge);
                },
            };
            if inner_bytes.len() > 10485760 {
                proof {
                    if modest_circuit(hops@, final_payload@) {
                        assert(inner_bytes@.len() <= 65 + 8208 + 8 * 700);
                    }
                }
                return Err(OnionError::PacketTooLarge);
            }
            if !crate::codec::fits_u32(&nh.address) || !crate::codec::fits_u32(&nh.pubkey) {
                proof {
                    if modest_circuit(hops@, final_payload@) {
                        assert(good_hop(hops@[idx as int]));
                        assert(false);
                    }
                }
                return Err(OnionError::PacketTooLarge);
            }
            let layer = OnionLayer { next_hop: Some(nh), inner_packet: inner_bytes };
            idx = idx - 1;
            let hop_key = match &hops[idx].x25519_pubkey {
                Some(k) => k,
                None => {
                    proof {
                        assert(false);
                    }
                    return Err(OnionError::NoAgreementKey(idx));
                },
            };
            let (p2, s2, g2) = match wrap_one(hop_key, &layer) {
                Ok(out) => out,
                Err(e) => {
                    proof {
                        if modest_circuit(hops@, final_payload@) {
                            assert(good_hop(hops@[idx as int]));
                            assert(good_hop(hops@[idx as int + 1]));
                            assert(senc_onion_layer(layer@).len() + 16 < 4294967296);
                        }
                    }
                    return Err(e);
                },
            };
            pkt = p2;
            secrets.insert(0, s2);
            proof {
                esks = seq![g2@] + prev_esks;
                pkts = seq![pkt@] + prev_pkts;
                assert(secrets@ =~= seq![s2] + prev_secrets);
                assert forall|j: int| 0 <= j < pkts.len() implies #[trigger] spec_layer_link(
                    hops@,
                    final_payload@,
                    pkts,
                    secrets@,
                    esks,
                    idx as int,
                    j,
                ) by {
                    if j == 0 {
                        assert(layer@ =~= spec_layer_at(hops@, final_payload@, pkts, idx as int, 0));
                        assert(secrets@[0] == s2);
                        assert(pkts[0] == pkt@);
                        assert(esks[0] == g2@);
                    } else {
                        assert(spec_layer_link(
                            hops@,
                            final_payload@,
                            prev_pkts,
                            prev_secrets,
                            prev_esks,
                            idx as int + 1,
                            j - 1,
                        ));
                        assert(pkts[j] == prev_pkts[j - 1]);
                        assert(secrets@[j] == prev_secrets[j - 1]);
                        assert(esks[j] == prev_esks[j - 1]);
                        if idx as int + j < n - 1 {
                            assert(pkts[j + 1] == prev_pkts[j]);
                            assert(spec_layer_at(hops@, final_payload@, pkts, idx as int, j)
                                =~= spec_layer_at(
                                hops@,
                                final_payload@,
                                prev_pkts,
                                idx as int + 1,
                                j - 1,
                            ));
                        } else {
                            assert(spec_layer_at(hops@, final_payload@, pkts, idx as int, j)
                                =~= spec_layer_at(
                                hops@,
                                final_payload@,
                                prev_pkts,
                                idx as int + 1,
                                j - 1,
                            ));
                        }
                    }
                }
                assert(spec_onion_chain(hops@, final_payload@, pkts, secrets@, esks, idx as int));
            }
        }
        proof {
            assert(spec_onion_chain(hops@, final_payload@, pkts, secrets@, esks, 0) && pkts[0]
                == pkt@);
        }
        Ok((pkt, secrets))
    }

    /// Seals a response at the exit, under the key and nonce of the circuit
    /// entry that the forward packet created.
    pub fn create_response(&self, packet_id: &Vec<u8>, response_data: &Vec<u8>) -> (r: Result<
        OnionResponse,
        OnionError,
    >)
        requires
            self.wf(),
        ensures
            (match r {
                Ok(resp) => {
                    &&& circuits_have(self.spec_circuits(), packet_id@)
                    &&& response_data@.len() <= 65536
                    &&& resp@.packet_id == packet_id@
                    &&& resp@.nonce == circuit_at(self.spec_circuits(), packet_id@).info.return_nonce@
                    &&& resp@.encrypted_response == aes_gcm_seal(
                        circuit_at(self.spec_circuits(), packet_id@).info.return_key@,
                        circuit_at(self.spec_circuits(), packet_id@).info.return_nonce@,
                        response_data@,
                    )
                    &&& resp@.encrypted_response.len() == response_data@.len() + 16
                },
                Err(e) => {
                    &&& (e == OnionError::CircuitExpired <==> !circuits_have(
                        self.spec_circuits(),
                        packet_id@,
                    ))
                    &&& (e is CircuitExpired || e is PacketTooLarge)
                    &&& (e is PacketTooLarge ==> response_data@.len() > 65536)
                },
            }),
    {
        let k = match self.find_circuit(packet_id) {
            Some(k) => k,
            None => {
                return Err(OnionError::CircuitExpired);
            },
        };
        if response_data.len() > 65536 {
            return Err(OnionError::PacketTooLarge);
        }
        let ct = {
            let entry = &self.active_circuits[k];
            aes_encrypt(&entry.info.return_key, &entry.info.return_nonce, response_data)
        };
        let nonce = {
            let entry = &self.active_circuits[k];
            bytes_clone(&entry.info.return_nonce)
        };
        Ok(OnionResponse { packet_id: bytes_clone(packet_id), encrypted_response: ct, nonce })
    }

    /// Re-seals a response arriving from the next hop under this node's own
    /// circuit key and nonce, for forwarding toward the previous hop.
    pub fn relay_response(&self, inbound_id: &Vec<u8>, downstream: &OnionResponse) -> (r: Result<
        OnionResponse,
        OnionError,
    >)
        requires
            self.wf(),
        ensures
            (match r {
                Ok(resp) => {
                    &&& circuits_have(self.spec_circuits(), inbound_id@)
                    &&& downstream@.encrypted_response.len() <= 10485760
                    &&& resp@.packet_id == inbound_id@
                    &&& resp@.nonce == circuit_at(self.spec_circuits(), inbound_id@).info.return_nonce@
                    &&& resp@.encrypted_response == aes_gcm_seal(
                        circuit_at(self.spec_circuits(), inbound_id@).info.return_key@,
                        circuit_at(self.spec_circuits(), inbound_id@).info.return_nonce@,
                        downstream@.encrypted_response,
                    )
                    &&& resp@.encrypted_response.len() == downstream@.encrypted_response.len() + 16
                },
                Err(e) => {
                    &&& (e == OnionError::CircuitExpired <==> !circuits_have(
                        self.spec_circuits(),
                        inbound_id@,
                    ))
                    &&& (e is CircuitExpired || e is PacketTooLarge)
                    &&& (e is PacketTooLarge ==> downstream@.encrypted_response.len() > 10485760)
                },
            }),
    {
        let k = match self.find_circuit(inbound_id) {
            Some(k) => k,
            None => {
                return Err(OnionError::CircuitExpired);
            },
        };
        if downstream.encrypted_response.len() > 10485760 {
            return Err(OnionError::PacketTooLarge);
        }
        let ct = {
            let entry = &self.active_circuits[k];
            aes_encrypt(&entry.info.return_key, &entry.info.return_nonce, &downstream.encrypted_response)
        };
        let nonce = {
            let entry = &self.active_circuits[k];
            bytes_clone(&entry.info.return_nonce)
        };
        Ok(OnionResponse { packet_id: bytes_clone(inbound_id), encrypted_response: ct, nonce })
    }

    /// Peels a response at the initiator with the retained per-hop keys and
    /// nonces, outermost hop first. A successful result is exactly the body
    /// that was sealed along the circuit, and a response that is the seal
    /// chain of a body within the cipher's size caps always peels back to
    /// that body.
    pub fn decrypt_response(&self, secrets: &Vec<HopSecret>, response: &OnionResponse) -> (r:
        Result<Vec<u8>, OnionError>)
        requires
            wf_secrets(secrets@),
        ensures
            (match r {
                Ok(d) => response@.encrypted_response == spec_seal_chain(secrets@, d@),
                Err(e) => e == OnionError::DecryptFailed,
            }),
            forall|body: Seq<u8>|
                (response@.encrypted_response == spec_seal_chain(secrets@, body) && body.len()
                    <= 68719476736 && #[trigger] chain_lengths_ok(secrets@, body)) ==> (r is Ok
                    && r->Ok_0@ == body),
    {
        let mut data = bytes_clone(&response.encrypted_response);
        let n = secrets.len();
        let mut i: usize = 0;
        proof {
            assert(secrets@.skip(0) =~= secrets@);
        }
        while i < n
            invariant
                i <= n,
                n == secrets@.len(),
                wf_secrets(secrets@),
                response@.encrypted_response == spec_seal_chain(secrets@.take(i as int), data@),
                forall|body: Seq<u8>|
                    (response@.encrypted_response == spec_seal_chain(secrets@, body) && body.len()
                        <= 68719476736 && #[trigger] chain_lengths_ok(secrets@, body)) ==> data@
                        == spec_seal_chain(secrets@.skip(i as int), body),
            decreases n - i,
        {
            let ghost pre = data@;
            let d2 = match aes_decrypt(&secrets[i].key, &secrets[i].nonce, &data) {
                Ok(p) => p,
                Err(_) => {
                    proof {
                        assert forall|body: Seq<u8>|
                            !(response@.encrypted_response == spec_seal_chain(secrets@, body)
                                && body.len() <= 68719476736 && #[trigger] chain_lengths_ok(
                                secrets@,
                                body,
                            )) by {
                            if response@.encrypted_response == spec_seal_chain(secrets@, body)
                                && body.len() <= 68719476736 && chain_lengths_ok(secrets@, body) {
                                lemma_chain_lengths_suffix(secrets@, body, i as int);
                                assert(secrets@.skip(i as int)[0] == secrets@[i as int]);
                                assert(secrets@.skip(i as int).skip(1) =~= secrets@.skip(
                                    i as int + 1,
                                ));
                                assert(pre == aes_gcm_seal(
                                    secrets@[i as int].key@,
                                    secrets@[i as int].nonce@,
                                    spec_seal_chain(secrets@.skip(i as int + 1), body),
                                ));
                            }
                        }
                    }
                    return Err(OnionError::DecryptFailed);
                },
            };
            proof {
                lemma_seal_chain_snoc(secrets@.take(i as int), secrets@[i as int], d2@);
                assert(secrets@.take(i + 1) =~= secrets@.take(i as int).push(secrets@[i as int]));
                assert forall|body: Seq<u8>|
                    (response@.encrypted_response == spec_seal_chain(secrets@, body) && body.len()
                        <= 68719476736 && #[trigger] chain_lengths_ok(secrets@, body)) implies d2@
                    == spec_seal_chain(secrets@.skip(i as int + 1), body) by {
                    lemma_chain_lengths_suffix(secrets@, body, i as int);
                    assert(secrets@.skip(i as int)[0] == secrets@[i as int]);
                    assert(secrets@.skip(i as int).skip(1) =~= secrets@.skip(i as int + 1));
                    assert(pre == aes_gcm_seal(
                        secrets@[i as int].key@,
                        secrets@[i as int].nonce@,
                        spec_seal_chain(secrets@.skip(i as int + 1), body),
                    ));
                }
            }
            data = d2;
            i = i + 1;
        }
        proof {
            assert(secrets@.take(n as int) =~= secrets@);
            assert forall|body: Seq<u8>|
                (response@.encrypted_response == spec_seal_chain(secrets@, body) && body.len()
                    <= 68719476736 && #[trigger] chain_lengths_ok(secrets@, body)) implies data@
                == body by {
                assert(secrets@.skip(n as int) =~= Seq::<HopSecret>::empty());
                assert(spec_seal_chain(Seq::<HopSecret>::empty(), body) == body);
            }
        }
        Ok(data)
    }
}


/// Builds an onion over freshly drawn hop keys, opens it at every hop in
/// order, and walks a response back along the circuit. The contract states
/// onion correctness: the exit recovers the payload, and the initiator
/// recovers the response, always.
#[verifier::rlimit(100)]
pub fn check_onion_round_trip(hop_count: usize, payload: &Vec<u8>, response: &Vec<u8>) -> (r: bool)
    requires
        1 <= hop_count <= 8,
        payload@.len() <= 8192,
        response@.len() <= 65536,
    ensures
        r,
{
    let n = hop_count;
    let mut sks: Vec<Vec<u8>> = Vec::new();
    let mut hops: Vec<KnownPeer> = Vec::new();
    let mut i: usize = 0;
    while i < n
        invariant
            i <= n,
            sks@.len() == i,
            hops@.len() == i,
            forall|k: int| 0 <= k < i ==> (#[trigger] sks@[k])@.len() == 32,
            forall|k: int| 0 <= k < i ==> good_hop(#[trigger] hops@[k]),
            forall|k: int|
                0 <= k < i ==> ((#[trigger] hops@[k]).x25519_pubkey matches Some(pk) && pk@
                    == x25519_pub_of(sks@[k]@)),
        decreases n - i,
    {
        let (sk, pk) = generate_x25519_keypair();
        sks.push(sk);
        let mut addr: Vec<u8> = Vec::new();
        addr.push(104);
        let mut fp: Vec<u8> = Vec::new();
        fp.push(102);
        hops.push(
            KnownPeer {
                node: crate::types::PeerNode {
                    name: None,
                    pubkey: fp,
                    address: addr,
                    http_port: 0,
                    arson_port: 9,
                    secure: false,
                    protocols: Vec::new(),
                    version: None,
                    last_seen: None,
                    is_connected: false,
                },
                x25519_pubkey: Some(pk),
                last_ping: 0,
                latency_ms: None,
                trust_score: 50,
                failed_attempts: 0,
            },
        );
        i = i + 1;
    }
    let (isk, ipk) = generate_x25519_keypair();
    let initiator = OnionRouter::new(isk, ipk);
    proof {
        assert(modest_circuit(hops@, payload@));
    }
    let (pkt0, secrets) = match initiator.create_onion_packet(&hops, payload) {
        Ok(out) => out,
        Err(_) => {
            proof {
                assert(false);
            }
            return false;
        },
    };
    let ghost (pkts, esks) = choose|pkts: Seq<OnionPacketView>, esks: Seq<Seq<u8>>|
        spec_onion_chain(hops@, payload@, pkts, secrets@, esks, 0) && pkts[0] == pkt0@;

    // Forward path: each hop opens its layer.
    let mut routers: Vec<OnionRouter> = Vec::new();
    let mut pids: Vec<Vec<u8>> = Vec::new();
    let mut cur = pkt0;
    let mut i: usize = 0;
    let mut payload_ok = false;
    while i < n
        invariant
            i <= n,
            n == hops@.len(),
            n == sks@.len(),
            1 <= n <= 8,
            payload@.len() <= 8192,
            response@.len() <= 65536,
            routers@.len() == i,
            pids@.len() == i,
            secrets@.len() == n,
            wf_secrets(secrets@),
            spec_onion_chain(hops@, payload@, pkts, secrets@, esks, 0),
            forall|k: int| 0 <= k < n ==> (#[trigger] sks@[k])@.len() == 32,
            forall|k: int| 0 <= k < n ==> good_hop(#[trigger] hops@[k]),
            forall|k: int|
                0 <= k < n ==> ((#[trigger] hops@[k]).x25519_pubkey matches Some(pk) && pk@
                    == x25519_pub_of(sks@[k]@)),
            i < n ==> cur@ == pkts[i as int],
            forall|k: int|
                0 <= k < i ==> {
                    &&& (#[trigger] routers@[k]).wf()
                    &&& circuits_have(routers@[k].spec_circuits(), pids@[k]@)
                    &&& circuit_at(routers@[k].spec_circuits(), pids@[k]@).info.return_key@
                        == secrets@[k].key@
                    &&& circuit_at(routers@[k].spec_circuits(), pids@[k]@).info.return_nonce@
                        == secrets@[k].nonce@
                },
            i == n ==> payload_ok,
        decreases n - i,
    {
        proof {
            assert(spec_layer_link(hops@, payload@, pkts, secrets@, esks, 0, i as int));
        }
        let ghost layer_i = spec_layer_at(hops@, payload@, pkts, 0, i as int);
        let sk_i = bytes_clone(&sks[i]);
        let pk_i = match &hops[i].x25519_pubkey {
            Some(k) => bytes_clone(k),
            None => {
                proof {
                    assert(false);
                }
                return false;
            },
        };
        let mut router = OnionRouter::new(sk_i, pk_i);
        let pid = bytes_clone(&cur.packet_id);
        proof {
            assert(layer_sealed_for(esks[i as int], router.spec_privkey(), cur@, layer_i));
        }
        let (inner, nh) = match router.unwrap_layer(&cur, None, 1000) {
            Ok(out) => out,
            Err(_) => {
                proof {
                    assert(false);
                }
                return false;
            },
        };
        proof {
            assert(inner@ == layer_i.inner_packet);
        }
        routers.push(router);
        pids.push(pid);
        if i < n - 1 {
            match nh {
                Some(_) => {},
                None => {
                    proof {
                        assert(false);
                    }
                    return false;
                },
            }
            proof {
                assert(spec_layer_link(hops@, payload@, pkts, secrets@, esks, 0, i + 1));
                assert(wf_onion_packet(pkts[i + 1]));
                crate::codec::lemma_packet_round_trip(NodePacketView::Onion(pkts[i + 1]));
            }
            let next_pkt = match decode_packet(&inner) {
                Some(NodePacket::Onion(p)) => p,
                _ => {
                    proof {
                        assert(false);
                    }
                    return false;
                },
            };
            proof {
                assert(next_pkt@ == pkts[i + 1]);
            }
            cur = next_pkt;
        } else {
            match nh {
                Some(_) => {
                    proof {
                        assert(false);
                    }
                    return false;
                },
                None => {},
            }
            if !crate::bytes::bytes_eq(&inner, payload) {
                proof {
                    assert(false);
                }
                return false;
            }
            payload_ok = true;
        }
        i = i + 1;
    }
    if !payload_ok {
        return false;
    }

    // Response path: the exit seals, each relay re-seals toward the
    // initiator, and the initiator peels with the retained secrets.
    let exit = n - 1;
    let mut resp = match routers[exit].create_response(&pids[exit], response) {
        Ok(r0) => r0,
        Err(_) => {
            proof {
                assert(false);
            }
            return false;
        },
    };
    proof {
        assert(secrets@.skip(exit as int).len() == 1);
        assert(secrets@.skip(exit as int)[0] == secrets@[exit as int]);
        assert(secrets@.skip(exit as int).skip(1) =~= Seq::<HopSecret>::empty());
        assert(spec_seal_chain(secrets@.skip(n as int), response@) == response@);
        assert(spec_seal_chain(Seq::<HopSecret>::empty(), response@) == response@);
        assert(resp@.encrypted_response == spec_seal_chain(secrets@.skip(exit as int), response@));
    }
    let mut k: usize = exit;
    while k > 0
        invariant
            k <= exit,
            exit == n - 1,
            n == hops@.len(),
            1 <= n <= 8,
            response@.len() <= 65536,
            routers@.len() == n,
            pids@.len() == n,
            secrets@.len() == n,
            wf_secrets(secrets@),
            forall|k2: int|
                0 <= k2 < n ==> {
                    &&& (#[trigger] routers@[k2]).wf()
                    &&& circuits_have(routers@[k2].spec_circuits(), pids@[k2]@)
                    &&& circuit_at(routers@[k2].spec_circuits(), pids@[k2]@).info.return_key@
                        == secrets@[k2].key@
                    &&& circuit_at(routers@[k2].spec_circuits(), pids@[k2]@).info.return_nonce@
                        == secrets@[k2].nonce@
                },
            resp@.encrypted_response == spec_seal_chain(secrets@.skip(k as int), response@),
            resp@.encrypted_response.len() == response@.len() + 16 * (n - k),
            forall|k2: int|
                k <= k2 <= n ==> #[trigger] spec_seal_chain(
                    secrets@.skip(k2),
                    response@,
                ).len() == response@.len() + 16 * (n - k2),
        decreases k,
    {
        k = k - 1;
        let next = match routers[k].relay_response(&pids[k], &resp) {
            Ok(r2) => r2,
            Err(_) => {
                proof {
                    assert(false);
                }
                return false;
            },
        };
        proof {
            assert(secrets@.skip(k as int)[0] == secrets@[k as int]);
            assert(secrets@.skip(k as int).skip(1) =~= secrets@.skip(k as int + 1));
            assert(next@.encrypted_response == spec_seal_chain(
                secrets@.skip(k as int),
                response@,
            ));
        }
        resp = next;
    }
    // Initiator peel.
    let mut data = bytes_clone(&resp.encrypted_response);
    let mut i2: usize = 0;
    while i2 < n
        invariant
            i2 <= n,
            n == secrets@.len(),
            1 <= n <= 8,
            response@.len() <= 65536,
            wf_secrets(secrets@),
            data@ == spec_seal_chain(secrets@.skip(i2 as int), response@),
            forall|k2: int|
                0 <= k2 <= n ==> #[trigger] spec_seal_chain(
                    secrets@.skip(k2),
                    response@,
                ).len() == response@.len() + 16 * (n - k2),
        decreases n - i2,
    {
        proof {
            assert(secrets@.skip(i2 as int)[0] == secrets@[i2 as int]);
            assert(secrets@.skip(i2 as int).skip(1) =~= secrets@.skip(i2 as int + 1));
            assert(data@ == aes_gcm_seal(
                secrets@[i2 as int].key@,
                secrets@[i2 as int].nonce@,
                spec_seal_chain(secrets@.skip(i2 as int + 1), response@),
            ));
            assert(spec_seal_chain(secrets@.skip(i2 as int + 1), response@).len() <= 68719476736);
        }
        let d2 = match aes_decrypt(&secrets[i2].key, &secrets[i2].nonce, &data) {
            Ok(p) => p,
            Err(_) => {
                proof {
                    assert(false);
                }
                return false;
            },
        };
        proof {
            assert(d2@ == spec_seal_chain(secrets@.skip(i2 as int + 1), response@));
        }
        data = d2;
        i2 = i2 + 1;
    }
    proof {
        assert(secrets@.skip(n as int) =~= Seq::<HopSecret>::empty());
        assert(data@ == response@);
    }
    bytes_eq(&data, response)
}

} // verus!
