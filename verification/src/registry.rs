//! The peer registry: scoring, pruning and selection policies over the
//! known-peer records, keyed by fingerprint.

use vstd::prelude::*;
use vstd::seq_lib::*;

use crate::bytes::{bytes_clone, bytes_eq};
use crate::types::{KnownPeer, KnownPeerView, PeerConfig, PeerNode};

verus! {

pub open spec fn has_peer(s: Seq<KnownPeer>, fp: Seq<u8>) -> bool {
    exists|k: int| 0 <= k < s.len() && s[k].node.pubkey@ == fp
}

pub open spec fn unique_fps(s: Seq<KnownPeer>) -> bool {
    forall|j: int, k: int| 0 <= j < k < s.len() ==> s[j].node.pubkey@ != s[k].node.pubkey@
}

/// The record carrying `fp`; meaningful when present and fingerprints are
/// unique.
pub open spec fn peer_at(s: Seq<KnownPeer>, fp: Seq<u8>) -> KnownPeer {
    s[choose|k: int| 0 <= k < s.len() && s[k].node.pubkey@ == fp]
}

/// Record that bootstrap gives a configured seed.
pub open spec fn spec_bootstrap_record(c: PeerConfig) -> KnownPeerView {
    KnownPeerView {
        node: crate::types::spec_peer_from_config(c@),
        x25519_pubkey: None,
        last_ping: 0,
        latency_ms: None,
        trust_score: 50,
        failed_attempts: 0,
    }
}

/// Eligibility for peer exchange.
pub open spec fn exchange_ok(p: KnownPeer) -> bool {
    p.trust_score > 20 && p.failed_attempts < 3
}

/// Lexicographic order on fingerprints, for deterministic tie-breaking.
pub open spec fn lex_le(a: Seq<u8>, b: Seq<u8>) -> bool
    decreases a.len(),
{
    if a.len() == 0 {
        true
    } else if b.len() == 0 {
        false
    } else if a[0] < b[0] {
        true
    } else if a[0] > b[0] {
        false
    } else {
        lex_le(a.subrange(1, a.len() as int), b.subrange(1, b.len() as int))
    }
}

pub proof fn lemma_lex_le_total(a: Seq<u8>, b: Seq<u8>)
    ensures
        lex_le(a, b) || lex_le(b, a),
    decreases a.len(),
{
    if a.len() == 0 || b.len() == 0 {
    } else if a[0] == b[0] {
        lemma_lex_le_total(a.subrange(1, a.len() as int), b.subrange(1, b.len() as int));
    }
}

pub proof fn lemma_lex_le_trans(a: Seq<u8>, b: Seq<u8>, c: Seq<u8>)
    requires
        lex_le(a, b),
        lex_le(b, c),
    ensures
        lex_le(a, c),
    decreases a.len(),
{
    if a.len() == 0 {
    } else if b.len() == 0 {
    } else if c.len() == 0 {
    } else if a[0] == b[0] && b[0] == c[0] {
        lemma_lex_le_trans(
            a.subrange(1, a.len() as int),
            b.subrange(1, b.len() as int),
            c.subrange(1, c.len() as int),
        );
    }
}

/// Composite selection score: trust less a latency penalty, with a missing
/// latency treated as a second.
pub open spec fn hop_score(p: KnownPeer) -> int {
    p.trust_score as int - (match p.latency_ms {
        Some(l) => l as int,
        None => 1000,
    }) / 10
}

/// Selection order on circuit hop candidates: higher composite score first,
/// fingerprint order on ties.
pub open spec fn hop_before_eq(a: KnownPeer, b: KnownPeer) -> bool {
    hop_score(a) > hop_score(b) || (hop_score(a) == hop_score(b) && lex_le(
        a.node.pubkey@,
        b.node.pubkey@,
    ))
}

pub open spec fn sorted_by_trust(s: Seq<KnownPeer>) -> bool {
    forall|i: int, j: int| 0 <= i < j < s.len() ==> s[i].trust_score >= s[j].trust_score
}

pub open spec fn sorted_by_hop_order(s: Seq<KnownPeer>) -> bool {
    forall|i: int, j: int| 0 <= i < j < s.len() ==> hop_before_eq(s[i], s[j])
}

/// Eligibility as a circuit hop.
pub open spec fn hop_ok(p: KnownPeer, exclude: Seq<Vec<u8>>) -> bool {
    &&& p.trust_score > 30
    &&& p.x25519_pubkey is Some
    &&& p.failed_attempts < 3
    &&& !(exists|e: int| 0 <= e < exclude.len() && exclude[e]@ == p.node.pubkey@)
}

/// In-memory map of known peers, keyed by fingerprint.
pub struct PeerRegistry {
    peers: Vec<KnownPeer>,
}

impl PeerRegistry {
    pub closed spec fn spec_peers(self) -> Seq<KnownPeer> {
        self.peers@
    }

    pub closed spec fn wf(self) -> bool {
        unique_fps(self.peers@)
    }

    /// An empty registry.
    pub fn new() -> (r: PeerRegistry)
        ensures
            r.wf(),
            r.spec_peers().len() == 0,
    {
        PeerRegistry { peers: Vec::new() }
    }

    /// How many peers are known.
    pub fn len(&self) -> (r: usize)
        ensures
            r == self.spec_peers().len(),
    {
        self.peers.len()
    }

    /// Index of the record carrying `fp`, if any.
    fn find(&self, fp: &Vec<u8>) -> (r: Option<usize>)
        requires
            self.wf(),
        ensures
            (match r {
                Some(k) => k < self.spec_peers().len() && self.spec_peers()[k as int].node.pubkey@
                    == fp@ && has_peer(self.spec_peers(), fp@) && peer_at(self.spec_peers(), fp@)
                    == self.spec_peers()[k as int],
                None => !has_peer(self.spec_peers(), fp@),
            }),
    {
        let n = self.peers.len();
        let mut i: usize = 0;
        while i < n
            invariant
                self.wf(),
                i <= n,
                n == self.peers@.len(),
                forall|k: int| 0 <= k < i ==> self.peers@[k].node.pubkey@ != fp@,
            decreases n - i,
        {
            if bytes_eq(&self.peers[i].node.pubkey, fp) {
                proof {
                    let s = self.peers@;
                    assert(unique_fps(s));
                    assert(s[i as int].node.pubkey@ == fp@);
                    assert(has_peer(s, fp@));
                    let w = choose|k: int| 0 <= k < s.len() && s[k].node.pubkey@ == fp@;
                    assert(s[w].node.pubkey@ == fp@);
                    assert(w == i as int) by {
                        if w < i as int {
                            assert(s[w].node.pubkey@ != fp@);
                        }
                        if w > i as int {
                            assert(s[i as int].node.pubkey@ != s[w].node.pubkey@);
                        }
                    }
                }
                return Some(i);
            }
            i = i + 1;
        }
        None
    }

    /// Whether a fingerprint is known.
    pub fn contains(&self, fp: &Vec<u8>) -> (r: bool)
        requires
            self.wf(),
        ensures
            r == has_peer(self.spec_peers(), fp@),
    {
        self.find(fp).is_some()
    }

    /// A copy of the record carrying `fp`, if any.
    pub fn get(&self, fp: &Vec<u8>) -> (r: Option<KnownPeer>)
        requires
            self.wf(),
        ensures
            (match r {
                Some(p) => has_peer(self.spec_peers(), fp@) && p@ == peer_at(
                    self.spec_peers(),
                    fp@,
                )@,
                None => !has_peer(self.spec_peers(), fp@),
            }),
    {
        match self.find(fp) {
            Some(k) => Some(self.peers[k].duplicate()),
            None => None,
        }
    }

    /// Inserts a record, or refreshes the one already keyed by its
    /// fingerprint while preserving that record's trust score and failure
    /// count.
    pub fn upsert(&mut self, record: KnownPeer)
        requires
            old(self).wf(),
        ensures
            final(self).wf(),
            has_peer(final(self).spec_peers(), record.node.pubkey@),
            peer_at(final(self).spec_peers(), record.node.pubkey@)@ == (KnownPeerView {
                trust_score: if has_peer(old(self).spec_peers(), record.node.pubkey@) {
                    peer_at(old(self).spec_peers(), record.node.pubkey@).trust_score
                } else {
                    record.trust_score
                },
                failed_attempts: if has_peer(old(self).spec_peers(), record.node.pubkey@) {
                    peer_at(old(self).spec_peers(), record.node.pubkey@).failed_attempts
                } else {
                    record.failed_attempts
                },
                ..record@
            }),
            forall|fp: Seq<u8>|
                fp != record.node.pubkey@ ==> ((has_peer(final(self).spec_peers(), fp) <==> has_peer(
                    old(self).spec_peers(),
                    fp,
                )) && (has_peer(old(self).spec_peers(), fp) ==> peer_at(
                    final(self).spec_peers(),
                    fp,
                ) == peer_at(old(self).spec_peers(), fp))),
    {
        let ghost orig = self.peers@;
        match self.find(&record.node.pubkey) {
            Some(k) => {
                let merged = KnownPeer {
                    trust_score: self.peers[k].trust_score,
                    failed_attempts: self.peers[k].failed_attempts,
                    ..record
                };
                let ghost mv = merged@;
                self.peers.set(k, merged);
                proof {
                    let s = self.peers@;
                    assert(s =~= orig.update(k as int, peer_at(s, s[k as int].node.pubkey@)));
                    assert(unique_fps(s)) by {
                        assert forall|a: int, b: int|
                            0 <= a < b < s.len() implies s[a].node.pubkey@ != (
                        s[b]).node.pubkey@ by {
                            assert(orig[a].node.pubkey@ != orig[b].node.pubkey@);
                        }
                    }
                    lemma_peer_at_update(orig, s, k as int, record.node.pubkey@);
                }
            },
            None => {
                self.peers.push(record);
                proof {
                    let s = self.peers@;
                    assert(unique_fps(s)) by {
                        assert forall|a: int, b: int|
                            0 <= a < b < s.len() implies s[a].node.pubkey@ != (
                        s[b]).node.pubkey@ by {
                            if b == s.len() - 1 {
                                assert(s[a] == orig[a]);
                                if s[a].node.pubkey@ == record.node.pubkey@ {
                                    assert(orig[a].node.pubkey@ == record.node.pubkey@);
                                    assert(has_peer(orig, record.node.pubkey@));
                                }
                            }
                        }
                    }
                    lemma_peer_at_push(orig, s, record.node.pubkey@);
                }
            },
        }
    }

    /// Inserts a record, replacing any record already keyed by its
    /// fingerprint outright, trust score and failure count included.
    pub fn put(&mut self, record: KnownPeer)
        requires
            old(self).wf(),
        ensures
            final(self).wf(),
            has_peer(final(self).spec_peers(), record.node.pubkey@),
            peer_at(final(self).spec_peers(), record.node.pubkey@)@ == record@,
            forall|fp: Seq<u8>|
                fp != record.node.pubkey@ ==> ((has_peer(final(self).spec_peers(), fp) <==> has_peer(
                    old(self).spec_peers(),
                    fp,
                )) && (has_peer(old(self).spec_peers(), fp) ==> peer_at(
                    final(self).spec_peers(),
                    fp,
                ) == peer_at(old(self).spec_peers(), fp))),
    {
        let ghost orig = self.peers@;
        match self.find(&record.node.pubkey) {
            Some(k) => {
                let ghost fp = record.node.pubkey@;
                self.peers.set(k, record);
                proof {
                    let s = self.peers@;
                    assert(unique_fps(s)) by {
                        assert forall|a: int, b: int|
                            0 <= a < b < s.len() implies s[a].node.pubkey@ != (
                        s[b]).node.pubkey@ by {
                            assert(orig[a].node.pubkey@ != orig[b].node.pubkey@);
                        }
                    }
                    lemma_peer_at_update(orig, s, k as int, fp);
                }
            },
            None => {
                let ghost fp = record.node.pubkey@;
                self.peers.push(record);
                proof {
                    let s = self.peers@;
                    assert(unique_fps(s)) by {
                        assert forall|a: int, b: int|
                            0 <= a < b < s.len() implies s[a].node.pubkey@ != (
                        s[b]).node.pubkey@ by {
                            if b == s.len() - 1 {
                                assert(s[a] == orig[a]);
                                if s[a].node.pubkey@ == fp {
                                    assert(orig[a].node.pubkey@ == fp);
                                    assert(has_peer(orig, fp));
                                }
                            }
                        }
                    }
                    lemma_peer_at_push(orig, s, fp);
                }
            },
        }
    }

    /// Inserts each configured seed with median trust and a clean slate,
    /// replacing any record already keyed by the seed's fingerprint.
    #[verifier::rlimit(100)]
    #[verifier::spinoff_prover]
    pub fn bootstrap(&mut self, seeds: &Vec<PeerConfig>)
        requires
            old(self).wf(),
        ensures
            final(self).wf(),
            forall|i: int|
                0 <= i < seeds@.len() ==> has_peer(
                    final(self).spec_peers(),
                    (#[trigger] seeds@[i])@.pubkey,
                ),
            (forall|a: int, b: int|
                0 <= a < b < seeds@.len() ==> (#[trigger] seeds@[a])@.pubkey != (
                #[trigger] seeds@[b])@.pubkey) ==> (forall|i: int|
                0 <= i < seeds@.len() ==> peer_at(
                    final(self).spec_peers(),
                    (#[trigger] seeds@[i])@.pubkey,
                )@ == spec_bootstrap_record(seeds@[i])),
            forall|fp: Seq<u8>|
                (forall|i: int| 0 <= i < seeds@.len() ==> (#[trigger] seeds@[i])@.pubkey != fp)
                    ==> ((has_peer(final(self).spec_peers(), fp) <==> has_peer(
                    old(self).spec_peers(),
                    fp,
                )) && (has_peer(old(self).spec_peers(), fp) ==> peer_at(
                    final(self).spec_peers(),
                    fp,
                ) == peer_at(old(self).spec_peers(), fp))),
    {
        let n = seeds.len();
        let mut i: usize = 0;
        while i < n
            invariant
                self.wf(),
                i <= n,
                n == seeds@.len(),
                forall|k: int|
                    0 <= k < i ==> has_peer(
                        self.spec_peers(),
                        (#[trigger] seeds@[k])@.pubkey,
                    ),
                (forall|a: int, b: int|
                    0 <= a < b < seeds@.len() ==> (#[trigger] seeds@[a])@.pubkey != (
                    #[trigger] seeds@[b])@.pubkey) ==> (forall|k: int|
                    0 <= k < i ==> peer_at(self.spec_peers(), (#[trigger] seeds@[k])@.pubkey)@
                        == spec_bootstrap_record(seeds@[k])),
                forall|fp: Seq<u8>|
                    (forall|k: int| 0 <= k < n ==> (#[trigger] seeds@[k])@.pubkey != fp) ==> ((
                    has_peer(self.spec_peers(), fp) <==> has_peer(old(self).spec_peers(), fp)) && (
                    has_peer(old(self).spec_peers(), fp) ==> peer_at(self.spec_peers(), fp)
                        == peer_at(old(self).spec_peers(), fp))),
            decreases n - i,
        {
            let node = PeerNode::from_config(&seeds[i]);
            let record = KnownPeer {
                node,
                x25519_pubkey: None,
                last_ping: 0,
                latency_ms: None,
                trust_score: 50,
                failed_attempts: 0,
            };
            let ghost before = self.spec_peers();
            proof {
                assert(record@ == spec_bootstrap_record(seeds@[i as int]));
            }
            self.put(record);
            proof {
                assert forall|k: int| 0 <= k < i + 1 implies has_peer(
                    self.spec_peers(),
                    (#[trigger] seeds@[k])@.pubkey,
                ) by {
                    if k < i as int {
                        if seeds@[k]@.pubkey != seeds@[i as int]@.pubkey {
                            assert(has_peer(before, seeds@[k]@.pubkey));
                        }
                    }
                }
                if forall|a: int, b: int|
                    0 <= a < b < seeds@.len() ==> (#[trigger] seeds@[a])@.pubkey != (
                    #[trigger] seeds@[b])@.pubkey {
                    assert forall|k: int| 0 <= k < i + 1 implies peer_at(
                        self.spec_peers(),
                        (#[trigger] seeds@[k])@.pubkey,
                    )@ == spec_bootstrap_record(seeds@[k]) by {
                        if k < i as int {
                            assert(seeds@[k]@.pubkey != seeds@[i as int]@.pubkey);
                            assert(peer_at(before, seeds@[k]@.pubkey)@ == spec_bootstrap_record(
                                seeds@[k],
                            ));
                        }
                    }
                }
            }
            i = i + 1;
        }
    }

    /// Marks a probe of `fp` as answered: stamps the clock and round trip,
    /// clears the failure count, and raises the trust score, saturating at
    /// its ceiling. A successful probe never lowers the trust score.
    pub fn mark_probe_ok(&mut self, fp: &Vec<u8>, rtt_ms: u32, now: u64)
        requires
            old(self).wf(),
        ensures
            final(self).wf(),
            has_peer(final(self).spec_peers(), fp@) <==> has_peer(old(self).spec_peers(), fp@),
            has_peer(old(self).spec_peers(), fp@) ==> peer_at(final(self).spec_peers(), fp@)@ == (
            KnownPeerView {
                last_ping: now,
                latency_ms: Some(rtt_ms),
                failed_attempts: 0,
                trust_score: if peer_at(old(self).spec_peers(), fp@).trust_score == 255 {
                    255u8
                } else {
                    (peer_at(old(self).spec_peers(), fp@).trust_score + 1) as u8
                },
                ..peer_at(old(self).spec_peers(), fp@)@
            }),
            has_peer(old(self).spec_peers(), fp@) ==> peer_at(
                final(self).spec_peers(),
                fp@,
            ).trust_score >= peer_at(old(self).spec_peers(), fp@).trust_score,
            forall|other: Seq<u8>|
                other != fp@ ==> ((has_peer(final(self).spec_peers(), other) <==> has_peer(
                    old(self).spec_peers(),
                    other,
                )) && (has_peer(old(self).spec_peers(), other) ==> peer_at(
                    final(self).spec_peers(),
                    other,
                ) == peer_at(old(self).spec_peers(), other))),
    {
        let ghost orig = self.peers@;
        match self.find(fp) {
            Some(k) => {
                let old_rec = &self.peers[k];
                let new_trust: u8 = if old_rec.trust_score == 255 {
                    255
                } else {
                    old_rec.trust_score + 1
                };
                let updated = KnownPeer {
                    node: old_rec.node.duplicate(),
                    x25519_pubkey: match &old_rec.x25519_pubkey {
                        Some(x) => Some(bytes_clone(x)),
                        None => None,
                    },
                    last_ping: now,
                    latency_ms: Some(rtt_ms),
                    trust_score: new_trust,
                    failed_attempts: 0,
                };
                self.peers.set(k, updated);
                proof {
                    let s = self.peers@;
                    assert(unique_fps(s)) by {
                        assert forall|a: int, b: int|
                            0 <= a < b < s.len() implies s[a].node.pubkey@ != (
                        s[b]).node.pubkey@ by {
                            assert(orig[a].node.pubkey@ != orig[b].node.pubkey@);
                        }
                    }
                    lemma_peer_at_update(orig, s, k as int, fp@);
                }
            },
            None => {},
        }
    }

    /// Marks a probe of `fp` as failed: lowers the trust score, saturating
    /// at its floor, and counts the failure; past ten failures the record is
    /// removed. A failed probe never raises the trust score.
    pub fn mark_probe_fail(&mut self, fp: &Vec<u8>)
        requires
            old(self).wf(),
        ensures
            final(self).wf(),
            has_peer(old(self).spec_peers(), fp@) && peer_at(
                old(self).spec_peers(),
                fp@,
            ).failed_attempts >= 10 ==> !has_peer(final(self).spec_peers(), fp@),
            has_peer(old(self).spec_peers(), fp@) && peer_at(
                old(self).spec_peers(),
                fp@,
            ).failed_attempts < 10 ==> (has_peer(final(self).spec_peers(), fp@) && peer_at(
                final(self).spec_peers(),
                fp@,
            )@ == (KnownPeerView {
                failed_attempts: (peer_at(old(self).spec_peers(), fp@).failed_attempts + 1) as u32,
                trust_score: if peer_at(old(self).spec_peers(), fp@).trust_score < 5 {
                    0u8
                } else {
                    (peer_at(old(self).spec_peers(), fp@).trust_score - 5) as u8
                },
                ..peer_at(old(self).spec_peers(), fp@)@
            })),
            has_peer(old(self).spec_peers(), fp@) && has_peer(final(self).spec_peers(), fp@)
                ==> peer_at(final(self).spec_peers(), fp@).trust_score <= peer_at(
                old(self).spec_peers(),
                fp@,
            ).trust_score,
            !has_peer(old(self).spec_peers(), fp@) ==> final(self).spec_peers() == old(
                self,
            ).spec_peers(),
            forall|other: Seq<u8>|
                other != fp@ ==> ((has_peer(final(self).spec_peers(), other) <==> has_peer(
                    old(self).spec_peers(),
                    other,
                )) && (has_peer(old(self).spec_peers(), other) ==> peer_at(
                    final(self).spec_peers(),
                    other,
                ) == peer_at(old(self).spec_peers(), other))),
    {
        let ghost orig = self.peers@;
        match self.find(fp) {
            Some(k) => {
                if self.peers[k].failed_attempts >= 10 {
                    self.peers.remove(k);
                    proof {
                        let s = self.peers@;
                        assert(s =~= orig.remove(k as int));
                        lemma_peer_remove(orig, s, k as int, fp@);
                    }
                } else {
                    let old_rec = &self.peers[k];
                    let new_trust: u8 = if old_rec.trust_score < 5 {
                        0
                    } else {
                        old_rec.trust_score - 5
                    };
                    let updated = KnownPeer {
                        node: old_rec.node.duplicate(),
                        x25519_pubkey: match &old_rec.x25519_pubkey {
                            Some(x) => Some(bytes_clone(x)),
                            None => None,
                        },
                        last_ping: old_rec.last_ping,
                        latency_ms: old_rec.latency_ms,
                        trust_score: new_trust,
                        failed_attempts: old_rec.failed_attempts + 1,
                    };
                    self.peers.set(k, updated);
                    proof {
                        let s = self.peers@;
                        assert(unique_fps(s)) by {
                            assert forall|a: int, b: int|
                                0 <= a < b < s.len() implies s[a].node.pubkey@ != (
                            s[b]).node.pubkey@ by {
                                assert(orig[a].node.pubkey@ != orig[b].node.pubkey@);
                            }
                        }
                        lemma_peer_at_update(orig, s, k as int, fp@);
                    }
                }
            },
            None => {},
        }
    }
}

/// After updating index `k`, lookups at its fingerprint see the new record
/// and lookups elsewhere are untouched.
proof fn lemma_peer_at_update(orig: Seq<KnownPeer>, s: Seq<KnownPeer>, k: int, fp: Seq<u8>)
    requires
        unique_fps(orig),
        unique_fps(s),
        0 <= k < orig.len(),
        s.len() == orig.len(),
        orig[k].node.pubkey@ == fp,
        s[k].node.pubkey@ == fp,
        forall|j: int| 0 <= j < s.len() && j != k ==> s[j] == orig[j],
    ensures
        has_peer(s, fp),
        peer_at(s, fp) == s[k],
        has_peer(orig, fp),
        peer_at(orig, fp) == orig[k],
        forall|other: Seq<u8>|
            other != fp ==> ((has_peer(s, other) <==> has_peer(orig, other)) && (has_peer(
                orig,
                other,
            ) ==> peer_at(s, other) == peer_at(orig, other))),
{
    assert(has_peer(s, fp)) by {
        assert(s[k].node.pubkey@ == fp);
    }
    assert(peer_at(s, fp) == s[k]) by {
        let w = choose|j: int| 0 <= j < s.len() && s[j].node.pubkey@ == fp;
        if w != k {
            assert(s[w].node.pubkey@ == s[k].node.pubkey@);
        }
    }
    assert(peer_at(orig, fp) == orig[k]) by {
        let w = choose|j: int| 0 <= j < orig.len() && orig[j].node.pubkey@ == fp;
        if w != k {
            assert(orig[w].node.pubkey@ == orig[k].node.pubkey@);
        }
    }
    assert forall|other: Seq<u8>| other != fp implies ((has_peer(s, other) <==> has_peer(
        orig,
        other,
    )) && (has_peer(orig, other) ==> peer_at(s, other) == peer_at(orig, other))) by {
        if has_peer(orig, other) {
            let w = choose|j: int| 0 <= j < orig.len() && orig[j].node.pubkey@ == other;
            assert(w != k);
            assert(s[w] == orig[w]);
            assert(has_peer(s, other));
            let w2 = choose|j: int| 0 <= j < s.len() && s[j].node.pubkey@ == other;
            if w2 != w {
                if w2 == k {
                    assert(s[k].node.pubkey@ == fp);
                } else {
                    assert(orig[w2].node.pubkey@ == other);
                    assert(orig[w2].node.pubkey@ != orig[w].node.pubkey@);
                }
            }
        }
        if has_peer(s, other) {
            let w = choose|j: int| 0 <= j < s.len() && s[j].node.pubkey@ == other;
            assert(w != k);
            assert(orig[w] == s[w]);
            assert(has_peer(orig, other));
        }
    }
}

/// After pushing a fresh fingerprint, lookups elsewhere are untouched.
proof fn lemma_peer_at_push(orig: Seq<KnownPeer>, s: Seq<KnownPeer>, fp: Seq<u8>)
    requires
        unique_fps(orig),
        unique_fps(s),
        s.len() == orig.len() + 1,
        s[s.len() - 1].node.pubkey@ == fp,
        !has_peer(orig, fp),
        forall|j: int| 0 <= j < orig.len() ==> s[j] == orig[j],
    ensures
        has_peer(s, fp),
        peer_at(s, fp) == s[s.len() - 1],
        forall|other: Seq<u8>|
            other != fp ==> ((has_peer(s, other) <==> has_peer(orig, other)) && (has_peer(
                orig,
                other,
            ) ==> peer_at(s, other) == peer_at(orig, other))),
{
    let last = s.len() - 1;
    assert(has_peer(s, fp)) by {
        assert(s[last].node.pubkey@ == fp);
    }
    assert(peer_at(s, fp) == s[last]) by {
        let w = choose|j: int| 0 <= j < s.len() && s[j].node.pubkey@ == fp;
        if w != last {
            assert(orig[w].node.pubkey@ == fp);
            assert(has_peer(orig, fp));
        }
    }
    assert forall|other: Seq<u8>| other != fp implies ((has_peer(s, other) <==> has_peer(
        orig,
        other,
    )) && (has_peer(orig, other) ==> peer_at(s, other) == peer_at(orig, other))) by {
        if has_peer(orig, other) {
            let w = choose|j: int| 0 <= j < orig.len() && orig[j].node.pubkey@ == other;
            assert(s[w] == orig[w]);
            assert(has_peer(s, other));
            let w2 = choose|j: int| 0 <= j < s.len() && s[j].node.pubkey@ == other;
            if w2 != w {
                if w2 == last {
                } else {
                    assert(orig[w2].node.pubkey@ != orig[w].node.pubkey@);
                }
            }
        }
        if has_peer(s, other) {
            let w = choose|j: int| 0 <= j < s.len() && s[j].node.pubkey@ == other;
            assert(w != last);
            assert(has_peer(orig, other));
        }
    }
}

/// After removing index `k`, its fingerprint is gone and lookups elsewhere
/// are untouched.
proof fn lemma_peer_remove(orig: Seq<KnownPeer>, s: Seq<KnownPeer>, k: int, fp: Seq<u8>)
    requires
        unique_fps(orig),
        0 <= k < orig.len(),
        orig[k].node.pubkey@ == fp,
        s == orig.remove(k),
    ensures
        unique_fps(s),
        !has_peer(s, fp),
        forall|other: Seq<u8>|
            other != fp ==> ((has_peer(s, other) <==> has_peer(orig, other)) && (has_peer(
                orig,
                other,
            ) ==> peer_at(s, other) == peer_at(orig, other))),
{
    assert forall|j: int| 0 <= j < s.len() implies (s[j] == if j < k {
        orig[j]
    } else {
        orig[j + 1]
    }) by {}
    assert(unique_fps(s)) by {
        assert forall|a: int, b: int| 0 <= a < b < s.len() implies s[a].node.pubkey@ != (
        s[b]).node.pubkey@ by {
            let a0 = if a < k {
                a
            } else {
                a + 1
            };
            let b0 = if b < k {
                b
            } else {
                b + 1
            };
            assert(orig[a0].node.pubkey@ != orig[b0].node.pubkey@);
        }
    }
    assert(!has_peer(s, fp)) by {
        if has_peer(s, fp) {
            let w = choose|j: int| 0 <= j < s.len() && s[j].node.pubkey@ == fp;
            let w0 = if w < k {
                w
            } else {
                w + 1
            };
            assert(orig[w0].node.pubkey@ == fp);
            assert(orig[w0].node.pubkey@ != orig[k].node.pubkey@ || w0 == k);
        }
    }
    assert forall|other: Seq<u8>| other != fp implies ((has_peer(s, other) <==> has_peer(
        orig,
        other,
    )) && (has_peer(orig, other) ==> peer_at(s, other) == peer_at(orig, other))) by {
        if has_peer(orig, other) {
            let w = choose|j: int| 0 <= j < orig.len() && orig[j].node.pubkey@ == other;
            assert(w != k);
            let w2 = if w < k {
                w
            } else {
                w - 1
            };
            assert(s[w2] == orig[w]);
            assert(has_peer(s, other));
            let w3 = choose|j: int| 0 <= j < s.len() && s[j].node.pubkey@ == other;
            let w30 = if w3 < k {
                w3
            } else {
                w3 + 1
            };
            assert(orig[w30].node.pubkey@ == other);
            if w30 != w {
                assert(orig[w30].node.pubkey@ != orig[w].node.pubkey@);
            }
            assert(peer_at(s, other) == s[w3]);
        }
        if has_peer(s, other) {
            let w = choose|j: int| 0 <= j < s.len() && s[j].node.pubkey@ == other;
            let w0 = if w < k {
                w
            } else {
                w + 1
            };
            assert(orig[w0].node.pubkey@ == other);
            assert(has_peer(orig, other));
        }
    }
}


/// Equal leading bytes leave the lexicographic comparison to the tails.
proof fn lemma_lex_skip(a: Seq<u8>, b: Seq<u8>, i: int)
    requires
        0 <= i <= a.len(),
        i <= b.len(),
        forall|k: int| 0 <= k < i ==> a[k] == b[k],
    ensures
        lex_le(a, b) == lex_le(a.skip(i), b.skip(i)),
    decreases i,
{
    if i > 0 {
        assert(a.len() > 0 && b.len() > 0);
        assert(a[0] == b[0]);
        let a1 = a.subrange(1, a.len() as int);
        let b1 = b.subrange(1, b.len() as int);
        lemma_lex_skip(a1, b1, i - 1);
        assert(a1.skip(i - 1) =~= a.skip(i));
        assert(b1.skip(i - 1) =~= b.skip(i));
    } else {
        assert(a.skip(0) =~= a);
        assert(b.skip(0) =~= b);
    }
}

/// Lexicographic comparison of fingerprints.
fn lex_le_exec(a: &Vec<u8>, b: &Vec<u8>) -> (r: bool)
    ensures
        r == lex_le(a@, b@),
{
    let na = a.len();
    let nb = b.len();
    let mut i: usize = 0;
    while i < na && i < nb
        invariant
            i <= na,
            i <= nb,
            na == a@.len(),
            nb == b@.len(),
            forall|k: int| 0 <= k < i ==> a@[k] == b@[k],
        decreases na - i,
    {
        if a[i] < b[i] {
            proof {
                lemma_lex_skip(a@, b@, i as int);
                assert(a@.skip(i as int)[0] == a@[i as int]);
                assert(b@.skip(i as int)[0] == b@[i as int]);
            }
            return true;
        }
        if a[i] > b[i] {
            proof {
                lemma_lex_skip(a@, b@, i as int);
                assert(a@.skip(i as int)[0] == a@[i as int]);
                assert(b@.skip(i as int)[0] == b@[i as int]);
            }
            return false;
        }
        i = i + 1;
    }
    proof {
        lemma_lex_skip(a@, b@, i as int);
    }
    na <= nb
}

/// The composite selection score, as run.
fn hop_score_exec(p: &KnownPeer) -> (r: i64)
    ensures
        r as int == hop_score(*p),
{
    let lat: i64 = match p.latency_ms {
        Some(l) => l as i64,
        None => 1000,
    };
    (p.trust_score as i64) - lat / 10
}

/// Whether `a` may stand before `b` in a hop selection.
fn hop_before_eq_exec(a: &KnownPeer, b: &KnownPeer) -> (r: bool)
    ensures
        r == hop_before_eq(*a, *b),
{
    let sa = hop_score_exec(a);
    let sb = hop_score_exec(b);
    if sa > sb {
        true
    } else if sa < sb {
        false
    } else {
        lex_le_exec(&a.node.pubkey, &b.node.pubkey)
    }
}

/// Inserts into a list sorted descending by trust score, keeping it sorted.
fn insert_by_trust(out: &mut Vec<KnownPeer>, item: KnownPeer)
    requires
        sorted_by_trust(old(out)@),
    ensures
        sorted_by_trust(final(out)@),
        final(out)@.len() == old(out)@.len() + 1,
        forall|i: int|
            0 <= i < final(out)@.len() ==> (final(out)@[i] == item || old(out)@.contains(
                #[trigger] final(out)@[i],
            )),
        forall|m: int| 0 <= m < old(out)@.len() ==> final(out)@.contains(#[trigger] old(out)@[m]),
        final(out)@.contains(item),
{
    let ghost orig = out@;
    let n = out.len();
    let mut pos: usize = 0;
    while pos < n && out[pos].trust_score >= item.trust_score
        invariant
            pos <= n,
            n == out@.len(),
            out@ == orig,
            sorted_by_trust(out@),
            forall|k: int| 0 <= k < pos ==> out@[k].trust_score >= item.trust_score,
        decreases n - pos,
    {
        pos = pos + 1;
    }
    out.insert(pos, item);
    proof {
        let s = out@;
        assert(s =~= orig.take(pos as int) + seq![item] + orig.skip(pos as int));
        assert forall|i: int, j: int| 0 <= i < j < s.len() implies s[i].trust_score >= (
        s[j]).trust_score by {
            if i < pos && j < pos {
            } else if j == pos {
                assert(s[i] == orig[i]);
            } else if i == pos {
                assert(s[j] == orig[j - 1]);
                assert(pos < n ==> orig[pos as int].trust_score < item.trust_score);
                assert(orig[pos as int].trust_score >= orig[j - 1].trust_score);
            } else if i < pos {
                assert(s[i] == orig[i]);
                assert(s[j] == orig[j - 1]);
            } else {
                assert(s[i] == orig[i - 1]);
                assert(s[j] == orig[j - 1]);
            }
        }
        assert forall|i: int| 0 <= i < s.len() implies (s[i] == item || orig.contains(
            #[trigger] s[i],
        )) by {
            if i < pos {
                assert(s[i] == orig[i]);
            } else if i > pos {
                assert(s[i] == orig[i - 1]);
            }
        }
        assert forall|m: int| 0 <= m < orig.len() implies s.contains(#[trigger] orig[m]) by {
            if m < pos {
                assert(s[m] == orig[m]);
            } else {
                assert(s[m + 1] == orig[m]);
            }
        }
        assert(s[pos as int] == item);
    }
}

/// Inserts into a list sorted by the hop selection order, keeping it sorted.
fn insert_by_hop_order(out: &mut Vec<KnownPeer>, item: KnownPeer)
    requires
        sorted_by_hop_order(old(out)@),
    ensures
        sorted_by_hop_order(final(out)@),
        final(out)@.len() == old(out)@.len() + 1,
        forall|i: int|
            0 <= i < final(out)@.len() ==> (final(out)@[i] == item || old(out)@.contains(
                #[trigger] final(out)@[i],
            )),
        forall|m: int| 0 <= m < old(out)@.len() ==> final(out)@.contains(#[trigger] old(out)@[m]),
        final(out)@.contains(item),
{
    let ghost orig = out@;
    let n = out.len();
    let mut pos: usize = 0;
    while pos < n && hop_before_eq_exec(&out[pos], &item)
        invariant
            pos <= n,
            n == out@.len(),
            out@ == orig,
            sorted_by_hop_order(out@),
            forall|k: int| 0 <= k < pos ==> hop_before_eq(out@[k], item),
        decreases n - pos,
    {
        pos = pos + 1;
    }
    proof {
        if (pos as int) < n {
            lemma_lex_le_total(orig[pos as int].node.pubkey@, item.node.pubkey@);
            assert(hop_before_eq(item, orig[pos as int]));
        }
    }
    out.insert(pos, item);
    proof {
        let s = out@;
        assert(s =~= orig.take(pos as int) + seq![item] + orig.skip(pos as int));
        assert forall|i: int, j: int| 0 <= i < j < s.len() implies hop_before_eq(
            s[i],
            s[j],
        ) by {
            if i < pos && j < pos {
            } else if j == pos {
                assert(s[i] == orig[i]);
            } else if i == pos {
                assert(s[j] == orig[j - 1]);
                assert(hop_before_eq(item, orig[pos as int]));
                if j - 1 > pos as int {
                    assert(hop_before_eq(orig[pos as int], orig[j - 1]));
                    if hop_score(item) == hop_score(orig[j - 1]) {
                        assert(hop_score(item) >= hop_score(orig[pos as int]));
                        assert(hop_score(orig[pos as int]) >= hop_score(orig[j - 1]));
                        assert(lex_le(item.node.pubkey@, orig[pos as int].node.pubkey@));
                        assert(lex_le(
                            orig[pos as int].node.pubkey@,
                            orig[j - 1].node.pubkey@,
                        ));
                        lemma_lex_le_trans(
                            item.node.pubkey@,
                            orig[pos as int].node.pubkey@,
                            orig[j - 1].node.pubkey@,
                        );
                    }
                }
            } else if i < pos {
                assert(s[i] == orig[i]);
                assert(s[j] == orig[j - 1]);
                if j - 1 == i {
                } else {
                    assert(hop_before_eq(orig[i], orig[j - 1]));
                }
            } else {
                assert(s[i] == orig[i - 1]);
                assert(s[j] == orig[j - 1]);
            }
        }
        assert forall|i: int| 0 <= i < s.len() implies (s[i] == item || orig.contains(
            #[trigger] s[i],
        )) by {
            if i < pos {
                assert(s[i] == orig[i]);
            } else if i > pos {
                assert(s[i] == orig[i - 1]);
            }
        }
        assert forall|m: int| 0 <= m < orig.len() implies s.contains(#[trigger] orig[m]) by {
            if m < pos {
                assert(s[m] == orig[m]);
            } else {
                assert(s[m + 1] == orig[m]);
            }
        }
        assert(s[pos as int] == item);
    }
}

impl PeerRegistry {
    /// The best-trusted eligible records, up to `max`, in descending trust
    /// order.
    pub fn select_for_peer_exchange(&self, max: usize) -> (r: Vec<KnownPeer>)
        requires
            self.wf(),
        ensures
            sorted_by_trust(r@),
            r@.len() == vstd::math::min(
                max as int,
                self.spec_peers().filter(|p: KnownPeer| exchange_ok(p)).len() as int,
            ),
            forall|i: int|
                0 <= i < r@.len() ==> exchange_ok(#[trigger] r@[i]) && (exists|k: int|
                    0 <= k < self.spec_peers().len() && (#[trigger] self.spec_peers()[k])@ == (r@[i])@),
            forall|i: int, k: int|
                (0 <= i < r@.len() && 0 <= k < self.spec_peers().len() && exchange_ok(
                    #[trigger] self.spec_peers()[k],
                ) && !(exists|j: int|
                    0 <= j < r@.len() && (#[trigger] r@[j])@ == self.spec_peers()[k]@)) ==> (
                #[trigger] r@[i]).trust_score >= self.spec_peers()[k].trust_score,
    {
        let ghost pred = |p: KnownPeer| exchange_ok(p);
        let n = self.peers.len();
        let mut out: Vec<KnownPeer> = Vec::new();
        let mut i: usize = 0;
        while i < n
            invariant
                self.wf(),
                i <= n,
                n == self.peers@.len(),
                pred == (|p: KnownPeer| exchange_ok(p)),
                sorted_by_trust(out@),
                out@.len() == self.peers@.take(i as int).filter(pred).len(),
                forall|k: int|
                    0 <= k < out@.len() ==> exchange_ok(#[trigger] out@[k]) && (exists|m: int|
                        0 <= m < self.peers@.len() && (#[trigger] self.peers@[m])@ == out@[k]@),
                forall|k2: int|
                    0 <= k2 < i && exchange_ok(#[trigger] self.peers@[k2]) ==> (exists|m: int|
                        0 <= m < out@.len() && (#[trigger] out@[m])@ == self.peers@[k2]@),
            decreases n - i,
        {
            let p = &self.peers[i];
            proof {
                self.peers@.take(i as int).lemma_filter_push(self.peers@[i as int], pred);
                assert(self.peers@.take(i + 1) =~= self.peers@.take(i as int).push(
                    self.peers@[i as int],
                ));
            }
            if p.trust_score > 20 && p.failed_attempts < 3 {
                let ghost before = out@;
                let copy = p.duplicate();
                proof {
                    assert(exchange_ok(copy)) by {
                        assert(copy@ == self.peers@[i as int]@);
                    }
                }
                let ghost copyv = copy;
                insert_by_trust(&mut out, copy);
                proof {
                    assert forall|k: int| 0 <= k < out@.len() implies exchange_ok(
                        #[trigger] out@[k],
                    ) && (exists|m: int|
                        0 <= m < self.peers@.len() && (#[trigger] self.peers@[m])@ == (out@[k])@) by {
                        if out@[k] == copyv {
                            assert(self.peers@[i as int]@ == out@[k]@);
                        } else {
                            assert(before.contains(out@[k]));
                            let m0 = choose|m0: int|
                                0 <= m0 < before.len() && before[m0] == out@[k];
                        }
                    }
                    assert forall|k2: int|
                        0 <= k2 < i + 1 && exchange_ok(#[trigger] self.peers@[k2]) implies (exists|
                        m: int,
                    |
                        0 <= m < out@.len() && (#[trigger] out@[m])@ == self.peers@[k2]@) by {
                        if k2 < i as int {
                            let m0 = choose|m0: int|
                                0 <= m0 < before.len() && (#[trigger] before[m0])@ == self.peers@[
                                    k2
                                ]@;
                            assert(out@.contains(before[m0]));
                            let m1 = choose|m1: int|
                                0 <= m1 < out@.len() && out@[m1] == before[m0];
                            assert(out@[m1]@ == self.peers@[k2]@);
                        } else {
                            assert(out@.contains(copyv));
                            let m1 = choose|m1: int|
                                0 <= m1 < out@.len() && out@[m1] == copyv;
                            assert(out@[m1]@ == self.peers@[k2]@);
                        }
                    }
                }
            }
            i = i + 1;
        }
        proof {
            assert(self.peers@.take(n as int) =~= self.peers@);
        }
        let ghost full = out@;
        if out.len() > max {
            out.truncate(max);
            proof {
                assert forall|k: int| 0 <= k < out@.len() implies exchange_ok(
                    #[trigger] out@[k],
                ) && (exists|m: int|
                    0 <= m < self.peers@.len() && (#[trigger] self.peers@[m])@ == out@[k]@) by {}
            }
        }
        proof {
            assert forall|i: int, k: int|
                (0 <= i < out@.len() && 0 <= k < self.peers@.len() && exchange_ok(
                    #[trigger] self.peers@[k],
                ) && !(exists|j: int|
                    0 <= j < out@.len() && (#[trigger] out@[j])@ == self.peers@[k]@)) implies (
            #[trigger] out@[i]).trust_score >= self.peers@[k].trust_score by {
                let m0 = choose|m0: int|
                    0 <= m0 < full.len() && (#[trigger] full[m0])@ == self.peers@[k]@;
                if m0 < out@.len() {
                    assert(out@[m0] == full[m0]);
                    assert(out@[m0]@ == self.peers@[k]@);
                } else {
                    assert(out@[i] == full[i]);
                    assert(full[i].trust_score >= full[m0].trust_score);
                    assert(full[m0]@.trust_score == self.peers@[k]@.trust_score);
                }
            }
        }
        out
    }

    /// Up to `count` eligible circuit hops, best composite score first,
    /// ties broken by fingerprint order. A returned record always carries an
    /// agreement key, a trust score above the floor, a failure count under
    /// the cap, and a fingerprint outside `exclude`.
    pub fn select_circuit_hops(&self, count: usize, exclude: &Vec<Vec<u8>>) -> (r: Vec<KnownPeer>)
        requires
            self.wf(),
        ensures
            sorted_by_hop_order(r@),
            r@.len() == vstd::math::min(
                count as int,
                self.spec_peers().filter(|p: KnownPeer| hop_ok(p, exclude@)).len() as int,
            ),
            forall|i: int|
                0 <= i < r@.len() ==> hop_ok(#[trigger] r@[i], exclude@) && (exists|k: int|
                    0 <= k < self.spec_peers().len() && (#[trigger] self.spec_peers()[k])@ == (r@[i])@),
            forall|i: int, k: int|
                (0 <= i < r@.len() && 0 <= k < self.spec_peers().len() && hop_ok(
                    #[trigger] self.spec_peers()[k],
                    exclude@,
                ) && !(exists|j: int|
                    0 <= j < r@.len() && (#[trigger] r@[j])@ == self.spec_peers()[k]@))
                    ==> hop_score(#[trigger] r@[i]) >= hop_score(self.spec_peers()[k]),
    {
        let ghost pred = |p: KnownPeer| hop_ok(p, exclude@);
        let n = self.peers.len();
        let mut out: Vec<KnownPeer> = Vec::new();
        let mut i: usize = 0;
        while i < n
            invariant
                self.wf(),
                i <= n,
                n == self.peers@.len(),
                pred == (|p: KnownPeer| hop_ok(p, exclude@)),
                sorted_by_hop_order(out@),
                out@.len() == self.peers@.take(i as int).filter(pred).len(),
                forall|k: int|
                    0 <= k < out@.len() ==> hop_ok(#[trigger] out@[k], exclude@) && (exists|m: int|
                        0 <= m < self.peers@.len() && (#[trigger] self.peers@[m])@ == out@[k]@),
                forall|k2: int|
                    0 <= k2 < i && hop_ok(#[trigger] self.peers@[k2], exclude@) ==> (exists|m: int|
                        0 <= m < out@.len() && (#[trigger] out@[m])@ == self.peers@[k2]@),
            decreases n - i,
        {
            let p = &self.peers[i];
            proof {
                self.peers@.take(i as int).lemma_filter_push(self.peers@[i as int], pred);
                assert(self.peers@.take(i + 1) =~= self.peers@.take(i as int).push(
                    self.peers@[i as int],
                ));
            }
            let eligible = p.trust_score > 30 && p.x25519_pubkey.is_some() && p.failed_attempts < 3
                && !in_list(exclude, &p.node.pubkey);
            if eligible {
                let ghost before = out@;
                let copy = p.duplicate();
                proof {
                    assert(hop_ok(copy, exclude@)) by {
                        assert(copy@ == self.peers@[i as int]@);
                    }
                }
                let ghost copyv = copy;
                insert_by_hop_order(&mut out, copy);
                proof {
                    assert forall|k: int| 0 <= k < out@.len() implies hop_ok(
                        #[trigger] out@[k],
                        exclude@,
                    ) && (exists|m: int|
                        0 <= m < self.peers@.len() && (#[trigger] self.peers@[m])@ == (out@[k])@) by {
                        if out@[k] == copyv {
                            assert(self.peers@[i as int]@ == out@[k]@);
                        } else {
                            assert(before.contains(out@[k]));
                            let m0 = choose|m0: int|
                                0 <= m0 < before.len() && before[m0] == out@[k];
                        }
                    }
                    assert forall|k2: int|
                        0 <= k2 < i + 1 && hop_ok(#[trigger] self.peers@[k2], exclude@) implies (
                    exists|m: int|
                        0 <= m < out@.len() && (#[trigger] out@[m])@ == self.peers@[k2]@) by {
                        if k2 < i as int {
                            let m0 = choose|m0: int|
                                0 <= m0 < before.len() && (#[trigger] before[m0])@ == self.peers@[
                                    k2
                                ]@;
                            assert(out@.contains(before[m0]));
                            let m1 = choose|m1: int|
                                0 <= m1 < out@.len() && out@[m1] == before[m0];
                            assert(out@[m1]@ == self.peers@[k2]@);
                        } else {
                            assert(out@.contains(copyv));
                            let m1 = choose|m1: int|
                                0 <= m1 < out@.len() && out@[m1] == copyv;
                            assert(out@[m1]@ == self.peers@[k2]@);
                        }
                    }
                }
            }
            i = i + 1;
        }
        proof {
            assert(self.peers@.take(n as int) =~= self.peers@);
        }
        let ghost full = out@;
        if out.len() > count {
            out.truncate(count);
            proof {
                assert forall|k: int| 0 <= k < out@.len() implies hop_ok(
                    #[trigger] out@[k],
                    exclude@,
                ) && (exists|m: int|
                    0 <= m < self.peers@.len() && (#[trigger] self.peers@[m])@ == out@[k]@) by {}
            }
        }
        proof {
            assert forall|i: int, k: int|
                (0 <= i < out@.len() && 0 <= k < self.peers@.len() && hop_ok(
                    #[trigger] self.peers@[k],
                    exclude@,
                ) && !(exists|j: int|
                    0 <= j < out@.len() && (#[trigger] out@[j])@ == self.peers@[k]@)) implies
                hop_score(#[trigger] out@[i]) >= hop_score(self.peers@[k]) by {
                let m0 = choose|m0: int|
                    0 <= m0 < full.len() && (#[trigger] full[m0])@ == self.peers@[k]@;
                if m0 < out@.len() {
                    assert(out@[m0] == full[m0]);
                    assert(out@[m0]@ == self.peers@[k]@);
                } else {
                    assert(out@[i] == full[i]);
                    assert(hop_before_eq(full[i], full[m0]));
                    assert(full[m0]@.trust_score == self.peers@[k]@.trust_score);
                    assert(full[m0]@.latency_ms == self.peers@[k]@.latency_ms);
                }
            }
        }
        out
    }

    /// Resolves an ordered list of requested hop fingerprints against the
    /// registry: every hop must be known and carry an agreement key, and
    /// the first offender's position is reported otherwise.
    pub fn hops_for(&self, pubkeys: &Vec<Vec<u8>>) -> (r: Result<
        Vec<KnownPeer>,
        crate::errors::OnionError,
    >)
        requires
            self.wf(),
        ensures
            (match r {
                Ok(hops) => {
                    &&& hops@.len() == pubkeys@.len()
                    &&& forall|i: int|
                        0 <= i < hops@.len() ==> {
                            &&& has_peer(self.spec_peers(), (#[trigger] pubkeys@[i])@)
                            &&& hops@[i]@ == peer_at(self.spec_peers(), pubkeys@[i]@)@
                            &&& hops@[i].x25519_pubkey is Some
                        }
                },
                Err(e) => (e matches crate::errors::OnionError::NoAgreementKey(i) && i
                    < pubkeys@.len() && !(has_peer(self.spec_peers(), (pubkeys@[i as int])@)
                    && peer_at(self.spec_peers(), (pubkeys@[i as int])@).x25519_pubkey is Some)),
            }),
    {
        let n = pubkeys.len();
        let mut hops: Vec<KnownPeer> = Vec::new();
        let mut i: usize = 0;
        while i < n
            invariant
                self.wf(),
                i <= n,
                n == pubkeys@.len(),
                hops@.len() == i,
                forall|k: int|
                    0 <= k < i ==> {
                        &&& has_peer(self.spec_peers(), (#[trigger] pubkeys@[k])@)
                        &&& hops@[k]@ == peer_at(self.spec_peers(), pubkeys@[k]@)@
                        &&& hops@[k].x25519_pubkey is Some
                    },
            decreases n - i,
        {
            match self.get(&pubkeys[i]) {
                Some(p) => {
                    if p.x25519_pubkey.is_none() {
                        return Err(crate::errors::OnionError::NoAgreementKey(i));
                    }
                    hops.push(p);
                },
                None => {
                    return Err(crate::errors::OnionError::NoAgreementKey(i));
                },
            }
            i = i + 1;
        }
        Ok(hops)
    }

    /// Copies of all known records.
    pub fn all_peers(&self) -> (r: Vec<KnownPeer>)
        ensures
            r@.len() == self.spec_peers().len(),
            forall|i: int| 0 <= i < r@.len() ==> r@[i]@ == (#[trigger] self.spec_peers()[i])@,
    {
        let n = self.peers.len();
        let mut out: Vec<KnownPeer> = Vec::new();
        let mut i: usize = 0;
        while i < n
            invariant
                i <= n,
                n == self.peers@.len(),
                out@.len() == i,
                forall|k: int| 0 <= k < i ==> out@[k]@ == (#[trigger] self.peers@[k])@,
            decreases n - i,
        {
            out.push(self.peers[i].duplicate());
            i = i + 1;
        }
        out
    }
}

/// Whether a fingerprint occurs in a list.
fn in_list(list: &Vec<Vec<u8>>, fp: &Vec<u8>) -> (r: bool)
    ensures
        r == exists|e: int| 0 <= e < list@.len() && (#[trigger] list@[e])@ == fp@,
{
    let n = list.len();
    let mut i: usize = 0;
    while i < n
        invariant
            i <= n,
            n == list@.len(),
            forall|e: int| 0 <= e < i ==> (#[trigger] list@[e])@ != fp@,
        decreases n - i,
    {
        if bytes_eq(&list[i], fp) {
            return true;
        }
        i = i + 1;
    }
    false
}

/// Starting from a clean record, eleven consecutive failed probes leave the
/// peer absent from the registry. Verus proves the result.
pub fn check_eviction_threshold(fp: &Vec<u8>) -> (r: bool)
    ensures
        r,
{
    let mut reg = PeerRegistry::new();
    let record = KnownPeer {
        node: PeerNode {
            name: None,
            pubkey: bytes_clone(fp),
            address: Vec::new(),
            http_port: 0,
            arson_port: 0,
            secure: false,
            protocols: Vec::new(),
            version: None,
            last_seen: None,
            is_connected: false,
        },
        x25519_pubkey: None,
        last_ping: 0,
        latency_ms: None,
        trust_score: 50,
        failed_attempts: 0,
    };
    reg.upsert(record);
    let mut i: usize = 0;
    while i < 11
        invariant
            reg.wf(),
            i <= 11,
            i < 11 ==> has_peer(reg.spec_peers(), fp@) && peer_at(
                reg.spec_peers(),
                fp@,
            ).failed_attempts == i,
            i == 11 ==> !has_peer(reg.spec_peers(), fp@),
        decreases 11 - i,
    {
        reg.mark_probe_fail(fp);
        i = i + 1;
    }
    !reg.contains(fp)
}

} // verus!

