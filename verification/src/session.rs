//! The client session fabric: the delivery table of authenticated client
//! sessions, presence broadcast targets, and the remote relay fallback.
//!
//! A session's outbound channel is owned by the surrounding program; the
//! table identifies it by an opaque handle, so delivery decisions are data
//! handed back to the caller.

use vstd::prelude::*;
use vstd::seq_lib::*;

use crate::bytes::{bytes_clone, bytes_eq, push_decimal, spec_decimal};
use crate::types::{PeerConfig, PeerNode};

verus! {

/// One registered client session.
pub struct ConnectionState {
    pub pubkey: Vec<u8>,
    pub handle: u64,
    pub connected_at: u64,
}

pub open spec fn session_for(s: Seq<ConnectionState>, fp: Seq<u8>) -> bool {
    exists|k: int| 0 <= k < s.len() && s[k].pubkey@ == fp
}

pub open spec fn unique_sessions(s: Seq<ConnectionState>) -> bool {
    forall|j: int, k: int| 0 <= j < k < s.len() ==> s[j].pubkey@ != s[k].pubkey@
}

/// The session carrying `fp`; meaningful when present and unique.
pub open spec fn session_at(s: Seq<ConnectionState>, fp: Seq<u8>) -> ConnectionState {
    s[choose|k: int| 0 <= k < s.len() && s[k].pubkey@ == fp]
}

/// Whether `h` is the handle of a session other than `except`'s.
pub open spec fn is_broadcast_target(s: Seq<ConnectionState>, h: u64, except: Seq<u8>) -> bool {
    exists|k: int| 0 <= k < s.len() && (#[trigger] s[k]).handle == h && s[k].pubkey@ != except
}

/// How many sessions belong to fingerprints other than `fp`.
pub open spec fn others_count(s: Seq<ConnectionState>, fp: Seq<u8>) -> int {
    s.filter(|c: ConnectionState| c.pubkey@ != fp).len() as int
}

/// The delivery table: at most one session per fingerprint.
pub struct SessionTable {
    sessions: Vec<ConnectionState>,
}

impl SessionTable {
    pub closed spec fn spec_sessions(self) -> Seq<ConnectionState> {
        self.sessions@
    }

    pub closed spec fn wf(self) -> bool {
        unique_sessions(self.sessions@)
    }

    /// An empty table.
    pub fn new() -> (r: SessionTable)
        ensures
            r.wf(),
            r.spec_sessions().len() == 0,
    {
        SessionTable { sessions: Vec::new() }
    }

    /// How many sessions are registered.
    pub fn len(&self) -> (r: usize)
        ensures
            r == self.spec_sessions().len(),
    {
        self.sessions.len()
    }

    fn find(&self, fp: &Vec<u8>) -> (r: Option<usize>)
        requires
            self.wf(),
        ensures
            (match r {
                Some(k) => k < self.spec_sessions().len()
                    && (self.spec_sessions()[k as int]).pubkey@ == fp@
                    && session_for(self.spec_sessions(), fp@) && session_at(
                    self.spec_sessions(),
                    fp@,
                ) == self.spec_sessions()[k as int],
                None => !session_for(self.spec_sessions(), fp@),
            }),
    {
        let n = self.sessions.len();
        let mut i: usize = 0;
        while i < n
            invariant
                self.wf(),
                i <= n,
                n == self.sessions@.len(),
                forall|k: int| 0 <= k < i ==> self.sessions@[k].pubkey@ != fp@,
            decreases n - i,
        {
            if bytes_eq(&self.sessions[i].pubkey, fp) {
                proof {
                    let s = self.sessions@;
                    assert(unique_sessions(s));
                    assert(s[i as int].pubkey@ == fp@);
                    assert(session_for(s, fp@));
                    let w = choose|k: int| 0 <= k < s.len() && s[k].pubkey@ == fp@;
                    assert(s[w].pubkey@ == fp@);
                    assert(w == i as int) by {
                        if w < i as int {
                            assert(s[w].pubkey@ != fp@);
                        }
                        if w > i as int {
                            assert(s[i as int].pubkey@ != s[w].pubkey@);
                        }
                    }
                }
                return Some(i);
            }
            i = i + 1;
        }
        None
    }

    /// Registers a session, replacing any session already held by the same
    /// fingerprint; the replaced session's handle comes back so its channel
    /// can be closed. At most one session per fingerprint ever exists.
    pub fn register_connection(&mut self, pubkey: Vec<u8>, handle: u64, now: u64) -> (r: Option<
        u64,
    >)
        requires
            old(self).wf(),
        ensures
            final(self).wf(),
            session_for(final(self).spec_sessions(), pubkey@),
            session_at(final(self).spec_sessions(), pubkey@).pubkey@ == pubkey@,
            session_at(final(self).spec_sessions(), pubkey@).handle == handle,
            session_at(final(self).spec_sessions(), pubkey@).connected_at == now,
            (match r {
                Some(h) => session_for(old(self).spec_sessions(), pubkey@) && h == session_at(
                    old(self).spec_sessions(),
                    pubkey@,
                ).handle,
                None => !session_for(old(self).spec_sessions(), pubkey@),
            }),
            forall|fp: Seq<u8>|
                fp != pubkey@ ==> ((session_for(final(self).spec_sessions(), fp) <==> session_for(
                    old(self).spec_sessions(),
                    fp,
                )) && (session_for(old(self).spec_sessions(), fp) ==> session_at(
                    final(self).spec_sessions(),
                    fp,
                ) == session_at(old(self).spec_sessions(), fp))),
    {
        let ghost orig = self.sessions@;
        let ghost fpv = pubkey@;
        match self.find(&pubkey) {
            Some(k) => {
                let replaced = self.sessions[k].handle;
                let fresh = ConnectionState { pubkey, handle, connected_at: now };
                self.sessions.set(k, fresh);
                proof {
                    let s = self.sessions@;
                    assert(unique_sessions(s)) by {
                        assert forall|a: int, b: int| 0 <= a < b < s.len() implies s[a].pubkey@ != (
                        s[b]).pubkey@ by {
                            assert(orig[a].pubkey@ != orig[b].pubkey@);
                        }
                    }
                    lemma_session_update(orig, s, k as int, fpv);
                }
                Some(replaced)
            },
            None => {
                let fresh = ConnectionState { pubkey, handle, connected_at: now };
                self.sessions.push(fresh);
                proof {
                    let s = self.sessions@;
                    assert(unique_sessions(s)) by {
                        assert forall|a: int, b: int| 0 <= a < b < s.len() implies s[a].pubkey@ != (
                        s[b]).pubkey@ by {
                            if b == s.len() - 1 {
                                assert(s[a] == orig[a]);
                                if s[a].pubkey@ == fpv {
                                    assert(session_for(orig, fpv));
                                }
                            }
                        }
                    }
                    lemma_session_push(orig, s, fpv);
                }
                None
            },
        }
    }

    /// Removes the session of a fingerprint, handing back its handle.
    pub fn unregister_connection(&mut self, pubkey: &Vec<u8>) -> (r: Option<u64>)
        requires
            old(self).wf(),
        ensures
            final(self).wf(),
            !session_for(final(self).spec_sessions(), pubkey@),
            (match r {
                Some(h) => session_for(old(self).spec_sessions(), pubkey@) && h == session_at(
                    old(self).spec_sessions(),
                    pubkey@,
                ).handle,
                None => !session_for(old(self).spec_sessions(), pubkey@)
                    && final(self).spec_sessions() == old(self).spec_sessions(),
            }),
            forall|fp: Seq<u8>|
                fp != pubkey@ ==> ((session_for(final(self).spec_sessions(), fp) <==> session_for(
                    old(self).spec_sessions(),
                    fp,
                )) && (session_for(old(self).spec_sessions(), fp) ==> session_at(
                    final(self).spec_sessions(),
                    fp,
                ) == session_at(old(self).spec_sessions(), fp))),
    {
        let ghost orig = self.sessions@;
        match self.find(pubkey) {
            Some(k) => {
                let removed = self.sessions.remove(k);
                proof {
                    lemma_session_remove(orig, self.sessions@, k as int, pubkey@);
                }
                Some(removed.handle)
            },
            None => None,
        }
    }

    /// The delivery handle of a fingerprint's session, if one is registered.
    pub fn send_to_peer(&self, to_pubkey: &Vec<u8>) -> (r: Option<u64>)
        requires
            self.wf(),
        ensures
            (match r {
                Some(h) => session_for(self.spec_sessions(), to_pubkey@) && h == session_at(
                    self.spec_sessions(),
                    to_pubkey@,
                ).handle,
                None => !session_for(self.spec_sessions(), to_pubkey@),
            }),
    {
        match self.find(to_pubkey) {
            Some(k) => Some(self.sessions[k].handle),
            None => None,
        }
    }

    /// The handles of every session except the named fingerprint's own:
    /// the targets of a presence broadcast.
    pub fn broadcast_targets(&self, except: &Vec<u8>) -> (r: Vec<u64>)
        requires
            self.wf(),
        ensures
            r@.len() == others_count(self.spec_sessions(), except@),
            forall|i: int|
                0 <= i < r@.len() ==> is_broadcast_target(
                    self.spec_sessions(),
                    #[trigger] r@[i],
                    except@,
                ),
            forall|k: int|
                0 <= k < self.spec_sessions().len() && (#[trigger] self.spec_sessions()[
                    k
                ]).pubkey@ != except@ ==> (exists|i: int|
                    0 <= i < r@.len() && r@[i] == self.spec_sessions()[k].handle),
    {
        let ghost pred = |c: ConnectionState| c.pubkey@ != except@;
        let n = self.sessions.len();
        let mut out: Vec<u64> = Vec::new();
        let mut i: usize = 0;
        while i < n
            invariant
                self.wf(),
                i <= n,
                n == self.sessions@.len(),
                pred == (|c: ConnectionState| c.pubkey@ != except@),
                out@.len() == self.sessions@.take(i as int).filter(pred).len(),
                forall|k: int|
                    0 <= k < out@.len() ==> is_broadcast_target(
                        self.sessions@,
                        #[trigger] out@[k],
                        except@,
                    ),
                forall|k: int|
                    0 <= k < i && (#[trigger] self.sessions@[k]).pubkey@ != except@ ==> (exists|
                        m: int,
                    |
                        0 <= m < out@.len() && out@[m] == self.sessions@[k].handle),
            decreases n - i,
        {
            let ghost pre = out@;
            proof {
                self.sessions@.take(i as int).lemma_filter_push(self.sessions@[i as int], pred);
                assert(self.sessions@.take(i + 1) =~= self.sessions@.take(i as int).push(
                    self.sessions@[i as int],
                ));
            }
            if !bytes_eq(&self.sessions[i].pubkey, except) {
                out.push(self.sessions[i].handle);
            }
            proof {
                assert forall|k: int|
                    0 <= k < i + 1 && (#[trigger] self.sessions@[k]).pubkey@ != except@ implies (
                exists|m: int| 0 <= m < out@.len() && out@[m] == self.sessions@[k].handle) by {
                    if k < i as int {
                        let m0 = choose|m0: int|
                            0 <= m0 < pre.len() && pre[m0] == self.sessions@[k].handle;
                        assert(out@[m0] == self.sessions@[k].handle);
                    } else {
                        assert(out@[out@.len() - 1] == self.sessions@[k].handle);
                    }
                }
            }
            i = i + 1;
        }
        proof {
            assert(self.sessions@.take(n as int) =~= self.sessions@);
        }
        out
    }

    /// The fingerprints of all registered sessions, in table order.
    pub fn online_fingerprints(&self) -> (r: Vec<Vec<u8>>)
        ensures
            r@.len() == self.spec_sessions().len(),
            forall|i: int|
                0 <= i < r@.len() ==> (#[trigger] r@[i])@ == self.spec_sessions()[i].pubkey@,
    {
        let n = self.sessions.len();
        let mut out: Vec<Vec<u8>> = Vec::new();
        let mut i: usize = 0;
        while i < n
            invariant
                i <= n,
                n == self.sessions@.len(),
                out@.len() == i,
                forall|k: int|
                    0 <= k < i ==> (#[trigger] out@[k])@ == self.sessions@[k].pubkey@,
            decreases n - i,
        {
            out.push(bytes_clone(&self.sessions[i].pubkey));
            i = i + 1;
        }
        out
    }
}

proof fn lemma_session_update(orig: Seq<ConnectionState>, s: Seq<ConnectionState>, k: int,
    fp: Seq<u8>)
    requires
        unique_sessions(orig),
        unique_sessions(s),
        0 <= k < orig.len(),
        s.len() == orig.len(),
        orig[k].pubkey@ == fp,
        s[k].pubkey@ == fp,
        forall|j: int| 0 <= j < s.len() && j != k ==> s[j] == orig[j],
    ensures
        session_for(s, fp),
        session_at(s, fp) == s[k],
        session_for(orig, fp),
        session_at(orig, fp) == orig[k],
        forall|other: Seq<u8>|
            other != fp ==> ((session_for(s, other) <==> session_for(orig, other)) && (session_for(
                orig,
                other,
            ) ==> session_at(s, other) == session_at(orig, other))),
{
    assert(session_for(s, fp)) by {
        assert(s[k].pubkey@ == fp);
    }
    assert(session_at(s, fp) == s[k]) by {
        let w = choose|j: int| 0 <= j < s.len() && s[j].pubkey@ == fp;
        if w != k {
            assert(s[w].pubkey@ == s[k].pubkey@);
        }
    }
    assert(session_at(orig, fp) == orig[k]) by {
        let w = choose|j: int| 0 <= j < orig.len() && orig[j].pubkey@ == fp;
        if w != k {
            assert(orig[w].pubkey@ == orig[k].pubkey@);
        }
    }
    assert forall|other: Seq<u8>| other != fp implies ((session_for(s, other) <==> session_for(
        orig,
        other,
    )) && (session_for(orig, other) ==> session_at(s, other) == session_at(orig, other))) by {
        if session_for(orig, other) {
            let w = choose|j: int| 0 <= j < orig.len() && orig[j].pubkey@ == other;
            assert(w != k);
            assert(s[w] == orig[w]);
            assert(session_for(s, other));
            let w2 = choose|j: int| 0 <= j < s.len() && s[j].pubkey@ == other;
            if w2 != w {
                if w2 == k {
                    assert(s[k].pubkey@ == fp);
                } else {
                    assert(orig[w2].pubkey@ != orig[w].pubkey@);
                }
            }
        }
        if session_for(s, other) {
            let w = choose|j: int| 0 <= j < s.len() && s[j].pubkey@ == other;
            assert(w != k);
            assert(orig[w] == s[w]);
            assert(session_for(orig, other));
        }
    }
}

proof fn lemma_session_push(orig: Seq<ConnectionState>, s: Seq<ConnectionState>, fp: Seq<u8>)
    requires
        unique_sessions(orig),
        unique_sessions(s),
        s.len() == orig.len() + 1,
        s[s.len() - 1].pubkey@ == fp,
        !session_for(orig, fp),
        forall|j: int| 0 <= j < orig.len() ==> s[j] == orig[j],
    ensures
        session_for(s, fp),
        session_at(s, fp) == s[s.len() - 1],
        forall|other: Seq<u8>|
            other != fp ==> ((session_for(s, other) <==> session_for(orig, other)) && (session_for(
                orig,
                other,
            ) ==> session_at(s, other) == session_at(orig, other))),
{
    let last = s.len() - 1;
    assert(session_for(s, fp)) by {
        assert(s[last].pubkey@ == fp);
    }
    assert(session_at(s, fp) == s[last]) by {
        let w = choose|j: int| 0 <= j < s.len() && s[j].pubkey@ == fp;
        if w != last {
            assert(orig[w].pubkey@ == fp);
            assert(session_for(orig, fp));
        }
    }
    assert forall|other: Seq<u8>| other != fp implies ((session_for(s, other) <==> session_for(
        orig,
        other,
    )) && (session_for(orig, other) ==> session_at(s, other) == session_at(orig, other))) by {
        if session_for(orig, other) {
            let w = choose|j: int| 0 <= j < orig.len() && orig[j].pubkey@ == other;
            assert(s[w] == orig[w]);
            assert(session_for(s, other));
            let w2 = choose|j: int| 0 <= j < s.len() && s[j].pubkey@ == other;
            if w2 != w && w2 != last {
                assert(orig[w2].pubkey@ != orig[w].pubkey@);
            }
        }
        if session_for(s, other) {
            let w = choose|j: int| 0 <= j < s.len() && s[j].pubkey@ == other;
            assert(w != last);
            assert(session_for(orig, other));
        }
    }
}

proof fn lemma_session_remove(orig: Seq<ConnectionState>, s: Seq<ConnectionState>, k: int,
    fp: Seq<u8>)
    requires
        unique_sessions(orig),
        0 <= k < orig.len(),
        orig[k].pubkey@ == fp,
        s == orig.remove(k),
    ensures
        unique_sessions(s),
        !session_for(s, fp),
        session_for(orig, fp),
        session_at(orig, fp) == orig[k],
        forall|other: Seq<u8>|
            other != fp ==> ((session_for(s, other) <==> session_for(orig, other)) && (session_for(
                orig,
                other,
            ) ==> session_at(s, other) == session_at(orig, other))),
{
    assert(session_at(orig, fp) == orig[k]) by {
        let w = choose|j: int| 0 <= j < orig.len() && orig[j].pubkey@ == fp;
        if w != k {
            assert(orig[w].pubkey@ == orig[k].pubkey@);
        }
    }
    assert(unique_sessions(s)) by {
        assert forall|a: int, b: int| 0 <= a < b < s.len() implies s[a].pubkey@ != (
        s[b]).pubkey@ by {
            let a0 = if a < k {
                a
            } else {
                a + 1
            };
            let b0 = if b < k {
                b
            } else {
                b + 1
            };
            assert(orig[a0].pubkey@ != orig[b0].pubkey@);
        }
    }
    assert(!session_for(s, fp)) by {
        if session_for(s, fp) {
            let w = choose|j: int| 0 <= j < s.len() && s[j].pubkey@ == fp;
            let w0 = if w < k {
                w
            } else {
                w + 1
            };
            assert(orig[w0].pubkey@ == fp);
            assert(orig[w0].pubkey@ != orig[k].pubkey@ || w0 == k);
        }
    }
    assert forall|other: Seq<u8>| other != fp implies ((session_for(s, other) <==> session_for(
        orig,
        other,
    )) && (session_for(orig, other) ==> session_at(s, other) == session_at(orig, other))) by {
        if session_for(orig, other) {
            let w = choose|j: int| 0 <= j < orig.len() && orig[j].pubkey@ == other;
            assert(w != k);
            let w2 = if w < k {
                w
            } else {
                w - 1
            };
            assert(s[w2] == orig[w]);
            assert(session_for(s, other));
            let w3 = choose|j: int| 0 <= j < s.len() && s[j].pubkey@ == other;
            let w30 = if w3 < k {
                w3
            } else {
                w3 + 1
            };
            assert(orig[w30].pubkey@ == other);
            if w30 != w {
                assert(orig[w30].pubkey@ != orig[w].pubkey@);
            }
            assert(session_at(s, other) == s[w3]);
        }
        if session_for(s, other) {
            let w = choose|j: int| 0 <= j < s.len() && s[j].pubkey@ == other;
            let w0 = if w < k {
                w
            } else {
                w + 1
            };
            assert(orig[w0].pubkey@ == other);
            assert(session_for(orig, other));
        }
    }
}

/// A configured remote node, with the result of the last connectivity
/// check.
pub struct RemotePeerConnection {
    pub peer: PeerNode,
    pub config: PeerConfig,
    pub last_check: u64,
    pub is_reachable: bool,
}

/// A relay target: where to POST a message for a client that is not local.
#[derive(Debug)]
pub struct RelayTarget {
    pub pubkey: Vec<u8>,
    pub address: Vec<u8>,
    pub http_port: u16,
    pub secure: bool,
}

/// The configured remote nodes worth trying for relay, in configuration
/// order.
pub open spec fn spec_relay_list(s: Seq<RemotePeerConnection>) -> Seq<RemotePeerConnection> {
    s.filter(|c: RemotePeerConnection| relay_candidate(c))
}

/// Whether `t` carries exactly the relay coordinates of `c`.
pub open spec fn target_matches(t: RelayTarget, c: RemotePeerConnection) -> bool {
    &&& t.pubkey@ == c.peer.pubkey@
    &&& t.address@ == c.peer.address@
    &&& t.http_port == c.peer.http_port
    &&& t.secure == c.peer.secure
}

/// Whether `ts` is the complete relay target list of `s`: one target per
/// reachable configured remote with a client port, in configuration order.
pub open spec fn relay_targets_of(s: Seq<RemotePeerConnection>, ts: Seq<RelayTarget>) -> bool {
    &&& ts.len() == spec_relay_list(s).len()
    &&& forall|i: int|
        0 <= i < ts.len() ==> target_matches(#[trigger] ts[i], spec_relay_list(s)[i])
}

/// Whether `t` names a reachable configured remote node with a client port.
pub open spec fn relay_target_of(s: Seq<RemotePeerConnection>, t: RelayTarget) -> bool {
    exists|k: int|
        0 <= k < s.len() && relay_candidate(#[trigger] s[k]) && t.pubkey@ == s[k].peer.pubkey@
            && t.address@ == s[k].peer.address@ && t.http_port == s[k].peer.http_port && t.secure
            == s[k].peer.secure
}

/// The table of configured remote nodes, in configuration order.
pub struct RemoteTable {
    remotes: Vec<RemotePeerConnection>,
}

pub open spec fn remote_for(s: Seq<RemotePeerConnection>, fp: Seq<u8>) -> bool {
    exists|k: int| 0 <= k < s.len() && s[k].peer.pubkey@ == fp
}

/// A remote node worth trying for relay: reachable at the last check and
/// exposing a client port.
pub open spec fn relay_candidate(c: RemotePeerConnection) -> bool {
    c.is_reachable && c.peer.http_port > 0
}

impl RemoteTable {
    pub closed spec fn spec_remotes(self) -> Seq<RemotePeerConnection> {
        self.remotes@
    }

    /// A table over the configured peer list.
    pub fn from_configs(configs: &Vec<PeerConfig>) -> (r: RemoteTable)
        ensures
            r.spec_remotes().len() == configs@.len(),
            forall|i: int|
                0 <= i < configs@.len() ==> {
                    &&& (#[trigger] r.spec_remotes()[i]).peer@ == crate::types::spec_peer_from_config(
                        configs@[i]@,
                    )
                    &&& r.spec_remotes()[i].is_reachable == false
                    &&& r.spec_remotes()[i].last_check == 0
                },
    {
        let n = configs.len();
        let mut remotes: Vec<RemotePeerConnection> = Vec::new();
        let mut i: usize = 0;
        while i < n
            invariant
                i <= n,
                n == configs@.len(),
                remotes@.len() == i,
                forall|k: int|
                    0 <= k < i ==> {
                        &&& (#[trigger] remotes@[k]).peer@
                            == crate::types::spec_peer_from_config(configs@[k]@)
                        &&& remotes@[k].is_reachable == false
                        &&& remotes@[k].last_check == 0
                    },
            decreases n - i,
        {
            let c = &configs[i];
            let peer = PeerNode::from_config(c);
            let config = PeerConfig {
                name: match &c.name {
                    Some(nm) => Some(bytes_clone(nm)),
                    None => None,
                },
                pubkey: bytes_clone(&c.pubkey),
                address: bytes_clone(&c.address),
                port: c.port,
                protocol: c.protocol,
            };
            remotes.push(
                RemotePeerConnection { peer, config, last_check: 0, is_reachable: false },
            );
            i = i + 1;
        }
        RemoteTable { remotes }
    }

    /// How many remote nodes are configured.
    pub fn remote_count(&self) -> (r: usize)
        ensures
            r == self.spec_remotes().len(),
    {
        self.remotes.len()
    }

    /// The configured remote node at a position.
    pub fn remote_at(&self, k: usize) -> (r: &RemotePeerConnection)
        requires
            k < self.spec_remotes().len(),
        ensures
            *r == self.spec_remotes()[k as int],
    {
        &self.remotes[k]
    }

    /// Records the outcome of a connectivity check against a remote node.
    pub fn record_connectivity(&mut self, fp: &Vec<u8>, reachable: bool, now: u64)
        ensures
            final(self).spec_remotes().len() == old(self).spec_remotes().len(),
            forall|k: int|
                0 <= k < old(self).spec_remotes().len() ==> {
                    &&& (#[trigger] final(self).spec_remotes()[k]).peer == old(
                        self,
                    ).spec_remotes()[k].peer
                    &&& final(self).spec_remotes()[k].config == old(self).spec_remotes()[k].config
                    &&& (old(self).spec_remotes()[k].peer.pubkey@ == fp@
                        ==> final(self).spec_remotes()[k].is_reachable == reachable
                        && final(self).spec_remotes()[k].last_check == now)
                    &&& (old(self).spec_remotes()[k].peer.pubkey@ != fp@
                        ==> final(self).spec_remotes()[k] == old(self).spec_remotes()[k])
                },
    {
        let ghost orig = self.remotes@;
        let n = self.remotes.len();
        let mut i: usize = 0;
        while i < n
            invariant
                i <= n,
                n == self.remotes@.len(),
                self.remotes@.len() == orig.len(),
                forall|k: int|
                    0 <= k < orig.len() ==> {
                        &&& (#[trigger] self.remotes@[k]).peer == orig[k].peer
                        &&& self.remotes@[k].config == orig[k].config
                        &&& (k < i && orig[k].peer.pubkey@ == fp@
                            ==> (self.remotes@[k]).is_reachable == reachable
                            && (self.remotes@[k]).last_check == now)
                        &&& (!(k < i && orig[k].peer.pubkey@ == fp@) ==> self.remotes@[k]
                            == orig[k])
                    },
            decreases n - i,
        {
            if bytes_eq(&self.remotes[i].peer.pubkey, fp) {
                let ghost pre = self.remotes@;
                let entry = self.remotes.remove(i);
                let updated = RemotePeerConnection {
                    peer: entry.peer,
                    config: entry.config,
                    last_check: now,
                    is_reachable: reachable,
                };
                self.remotes.insert(i, updated);
                proof {
                    assert forall|k: int| 0 <= k < orig.len() implies (
                    self.remotes@[k] == if k == i as int {
                        self.remotes@[i as int]
                    } else {
                        pre[k]
                    }) by {
                        if k < i as int {
                        } else if k > i as int {
                            assert(pre.remove(i as int)[k - 1] == pre[k]);
                        }
                    }
                }
            }
            i = i + 1;
        }
    }

    /// The relay targets to try for a remote delivery, in configuration
    /// order: every reachable remote node with a client port, and no other.
    pub fn relay_candidates(&self) -> (r: Vec<RelayTarget>)
        ensures
            relay_targets_of(self.spec_remotes(), r@),
            forall|i: int|
                0 <= i < r@.len() ==> relay_target_of(self.spec_remotes(), #[trigger] r@[i]),
    {
        let ghost pred = |c: RemotePeerConnection| relay_candidate(c);
        let n = self.remotes.len();
        let mut out: Vec<RelayTarget> = Vec::new();
        let mut i: usize = 0;
        while i < n
            invariant
                i <= n,
                n == self.remotes@.len(),
                pred == (|c: RemotePeerConnection| relay_candidate(c)),
                out@.len() == self.remotes@.take(i as int).filter(pred).len(),
                forall|k: int|
                    0 <= k < out@.len() ==> relay_target_of(self.remotes@, #[trigger] out@[k])
                        && target_matches(out@[k], self.remotes@.take(i as int).filter(pred)[k]),
            decreases n - i,
        {
            proof {
                self.remotes@.take(i as int).lemma_filter_push(self.remotes@[i as int], pred);
                assert(self.remotes@.take(i + 1) =~= self.remotes@.take(i as int).push(
                    self.remotes@[i as int],
                ));
            }
            let c = &self.remotes[i];
            if c.is_reachable && c.peer.http_port > 0 {
                let t = RelayTarget {
                    pubkey: bytes_clone(&c.peer.pubkey),
                    address: bytes_clone(&c.peer.address),
                    http_port: c.peer.http_port,
                    secure: c.peer.secure,
                };
                proof {
                    assert(relay_candidate(self.remotes@[i as int]));
                    assert(relay_target_of(self.remotes@, t));
                }
                out.push(t);
            }
            i = i + 1;
        }
        proof {
            assert(self.remotes@.take(n as int) =~= self.remotes@);
        }
        out
    }
}

/// Spec image of an optional peer descriptor.
pub open spec fn view_opt_peer(o: Option<PeerNode>) -> Option<crate::types::PeerNodeView> {
    match o {
        Some(p) => Some(p@),
        None => None,
    }
}

/// Whether `peers` is the duplicate-free union of the local sessions and
/// the configured remote descriptors: one connected stub per session, in
/// table order, then one descriptor per configured remote whose fingerprint
/// has no session here, carrying that remote's reachability.
pub open spec fn peers_union_ok(
    sessions: Seq<ConnectionState>,
    remotes: Seq<RemotePeerConnection>,
    peers: Seq<PeerNode>,
) -> bool {
    &&& peers.len() >= sessions.len()
    &&& forall|i: int|
        0 <= i < sessions.len() ==> (#[trigger] peers[i]).pubkey@ == sessions[i].pubkey@
            && peers[i].is_connected
    &&& forall|i: int|
        sessions.len() <= i < peers.len() ==> (exists|k: int|
            {
                &&& 0 <= k < remotes.len()
                &&& (#[trigger] peers[i])@ == (crate::types::PeerNodeView {
                    is_connected: (#[trigger] remotes[k]).is_reachable,
                    ..remotes[k].peer@
                })
                &&& !session_for(sessions, remotes[k].peer.pubkey@)
            })
    &&& forall|k: int|
        0 <= k < remotes.len() && !session_for(sessions, (#[trigger] remotes[k]).peer.pubkey@)
            ==> (exists|i: int|
            0 <= i < peers.len() && (#[trigger] peers[i]).pubkey@ == remotes[k].peer.pubkey@)
    &&& forall|i: int, j: int|
        0 <= i < j < peers.len() ==> (#[trigger] peers[i]).pubkey@ != (
        #[trigger] peers[j]).pubkey@
}

/// Whether a fingerprint already occurs in a descriptor list.
fn peers_contain_fp(list: &Vec<PeerNode>, fp: &Vec<u8>) -> (r: bool)
    ensures
        r == exists|i: int| 0 <= i < list@.len() && (#[trigger] list@[i]).pubkey@ == fp@,
{
    let n = list.len();
    let mut i: usize = 0;
    while i < n
        invariant
            i <= n,
            n == list@.len(),
            forall|k: int| 0 <= k < i ==> (#[trigger] list@[k]).pubkey@ != fp@,
        decreases n - i,
    {
        if bytes_eq(&list[i].pubkey, fp) {
            return true;
        }
        i = i + 1;
    }
    false
}

/// The peers a client sees as online: every local session as a connected
/// stub, plus every configured remote node not registered here, with its
/// last measured reachability; no fingerprint appears twice.
pub fn get_online_peers(sessions: &SessionTable, remotes: &RemoteTable) -> (r: Vec<PeerNode>)
    requires
        sessions.wf(),
    ensures
        peers_union_ok(sessions.spec_sessions(), remotes.spec_remotes(), r@),
{
    let fps = sessions.online_fingerprints();
    let mut peers: Vec<PeerNode> = Vec::new();
    let n1 = fps.len();
    let mut i: usize = 0;
    while i < n1
        invariant
            sessions.wf(),
            i <= n1,
            n1 == sessions.spec_sessions().len(),
            fps@.len() == n1,
            forall|k: int|
                0 <= k < n1 ==> (#[trigger] fps@[k])@ == sessions.spec_sessions()[k].pubkey@,
            peers@.len() == i,
            forall|k: int|
                0 <= k < i ==> (#[trigger] peers@[k]).pubkey@ == sessions.spec_sessions()[
                    k
                ].pubkey@ && peers@[k].is_connected,
        decreases n1 - i,
    {
        peers.push(online_stub(bytes_clone(&fps[i])));
        i = i + 1;
    }
    proof {
        assert forall|a: int, b: int|
            0 <= a < b < peers@.len() implies (#[trigger] peers@[a]).pubkey@ != (
        #[trigger] peers@[b]).pubkey@ by {
            assert(sessions.spec_sessions()[a].pubkey@ != sessions.spec_sessions()[b].pubkey@);
        }
    }
    let n2 = remotes.remote_count();
    let mut j: usize = 0;
    while j < n2
        invariant
            sessions.wf(),
            n1 == sessions.spec_sessions().len(),
            j <= n2,
            n2 == remotes.spec_remotes().len(),
            peers@.len() >= n1,
            forall|k: int|
                0 <= k < n1 ==> (#[trigger] peers@[k]).pubkey@ == sessions.spec_sessions()[
                    k
                ].pubkey@ && peers@[k].is_connected,
            forall|i2: int|
                n1 <= i2 < peers@.len() ==> (exists|k: int|
                    {
                        &&& 0 <= k < remotes.spec_remotes().len()
                        &&& (#[trigger] peers@[i2])@ == (crate::types::PeerNodeView {
                            is_connected: (#[trigger] remotes.spec_remotes()[k]).is_reachable,
                            ..remotes.spec_remotes()[k].peer@
                        })
                        &&& !session_for(
                            sessions.spec_sessions(),
                            remotes.spec_remotes()[k].peer.pubkey@,
                        )
                    }),
            forall|k: int|
                0 <= k < j && !session_for(
                    sessions.spec_sessions(),
                    (#[trigger] remotes.spec_remotes()[k]).peer.pubkey@,
                ) ==> (exists|i2: int|
                    0 <= i2 < peers@.len() && (#[trigger] peers@[i2]).pubkey@
                        == remotes.spec_remotes()[k].peer.pubkey@),
            forall|a: int, b: int|
                0 <= a < b < peers@.len() ==> (#[trigger] peers@[a]).pubkey@ != (
            #[trigger] peers@[b]).pubkey@,
        decreases n2 - j,
    {
        let ghost pre = peers@;
        let remote = remotes.remote_at(j);
        let already = peers_contain_fp(&peers, &remote.peer.pubkey);
        if !already {
            proof {
                if session_for(sessions.spec_sessions(), remote.peer.pubkey@) {
                    let w = choose|w: int|
                        0 <= w < sessions.spec_sessions().len() && sessions.spec_sessions()[
                            w
                        ].pubkey@ == remote.peer.pubkey@;
                    assert(peers@[w].pubkey@ == remote.peer.pubkey@);
                }
            }
            let mut entry = remote.peer.duplicate();
            entry.is_connected = remote.is_reachable;
            proof {
                assert(entry@ =~= (crate::types::PeerNodeView {
                    is_connected: remotes.spec_remotes()[j as int].is_reachable,
                    ..remotes.spec_remotes()[j as int].peer@
                }));
            }
            peers.push(entry);
        }
        proof {
            assert forall|k: int|
                0 <= k < j + 1 && !session_for(
                    sessions.spec_sessions(),
                    (#[trigger] remotes.spec_remotes()[k]).peer.pubkey@,
                ) implies (exists|i2: int|
                0 <= i2 < peers@.len() && (#[trigger] peers@[i2]).pubkey@
                    == remotes.spec_remotes()[k].peer.pubkey@) by {
                if k < j as int {
                    let m0 = choose|m0: int|
                        0 <= m0 < pre.len() && pre[m0].pubkey@ == remotes.spec_remotes()[
                            k
                        ].peer.pubkey@;
                    assert(peers@[m0].pubkey@ == remotes.spec_remotes()[k].peer.pubkey@);
                } else {
                    if already {
                        let m0 = choose|m0: int|
                            0 <= m0 < pre.len() && pre[m0].pubkey@ == remotes.spec_remotes()[
                                k
                            ].peer.pubkey@;
                        assert(peers@[m0].pubkey@ == remotes.spec_remotes()[k].peer.pubkey@);
                    } else {
                        assert(peers@[peers@.len() - 1].pubkey@ == remotes.spec_remotes()[
                            k
                        ].peer.pubkey@);
                    }
                }
            }
        }
        j = j + 1;
    }
    peers
}

/// The canonical challenge a client signs to register: the text
/// `register:` followed by the minute count of the clock.
pub fn register_challenge_bytes(now: u64) -> (r: Vec<u8>)
    ensures
        r@ == seq![114u8, 101u8, 103u8, 105u8, 115u8, 116u8, 101u8, 114u8, 58u8] + spec_decimal(
            (now / 60) as nat,
        ),
{
    let mut out: Vec<u8> = Vec::new();
    out.push(114);
    out.push(101);
    out.push(103);
    out.push(105);
    out.push(115);
    out.push(116);
    out.push(101);
    out.push(114);
    out.push(58);
    assert(out@ =~= seq![114u8, 101u8, 103u8, 105u8, 115u8, 116u8, 101u8, 114u8, 58u8]);
    push_decimal(&mut out, now / 60);
    out
}

/// The development-mode sentinel accepted in place of a signature.
pub open spec fn spec_dev_sentinel() -> Seq<u8> {
    seq![100u8, 101u8, 118u8, 95u8, 109u8, 111u8, 100u8, 101u8]
}

/// Whether a registration may proceed: the challenge signature verified, or
/// development mode is on and the sentinel was sent.
pub fn registration_valid(sig_ok: bool, signature: &Vec<u8>, dev_mode: bool) -> (r: bool)
    ensures
        r == (sig_ok || (dev_mode && signature@ == spec_dev_sentinel())),
{
    if sig_ok {
        return true;
    }
    if !dev_mode {
        return false;
    }
    let mut sentinel: Vec<u8> = Vec::new();
    sentinel.push(100);
    sentinel.push(101);
    sentinel.push(118);
    sentinel.push(95);
    sentinel.push(109);
    sentinel.push(111);
    sentinel.push(100);
    sentinel.push(101);
    assert(sentinel@ =~= spec_dev_sentinel());
    bytes_eq(signature, &sentinel)
}


/// A message a client sends on its channel.
#[derive(Debug, PartialEq, Eq)]
pub enum WsClientMessage {
    /// Authenticate with a fingerprint and a signature over the canonical
    /// challenge.
    Register { pubkey: Vec<u8>, signature: Vec<u8> },
    /// Deliver an end-to-end encrypted payload to a fingerprint.
    SendMessage { to_pubkey: Vec<u8>, encrypted_payload: Vec<u8> },
    /// Ask for the currently online fingerprints.
    ListPeers,
    /// Keep the channel alive.
    Ping,
}

/// A message the node sends on a client channel.
#[derive(Debug, PartialEq, Eq)]
pub enum WsServerMessage {
    Registered { success: bool, node_info: Option<PeerNode> },
    IncomingMessage { from_pubkey: Vec<u8>, encrypted_payload: Vec<u8>, timestamp: u64 },
    PeerList { peers: Vec<PeerNode> },
    PeerStatus { pubkey: Vec<u8>, online: bool },
    Pong,
    Error { message: Vec<u8> },
}

/// The body POSTed to another node's relay endpoint.
#[derive(Debug, PartialEq, Eq)]
pub struct RelayMessage {
    pub to_pubkey: Vec<u8>,
    pub message: WsServerMessage,
}

/// One delivery or reply the surrounding program must perform for a client
/// message.
#[derive(Debug)]
pub enum ClientAction {
    /// Send to the requesting client's own channel.
    Reply(WsServerMessage),
    /// Send to the session owning this handle.
    Deliver { handle: u64, message: WsServerMessage },
    /// Close the channel of a session that was replaced.
    CloseChannel { handle: u64 },
    /// POST the relay body to each target in order until one accepts; on
    /// total failure, send `on_failure` to the requesting client.
    TryRelay { targets: Vec<RelayTarget>, relay: RelayMessage, on_failure: WsServerMessage },
}

/// A descriptor stub for a locally registered fingerprint, as a peer list
/// reports it.
fn online_stub(fp: Vec<u8>) -> (r: PeerNode)
    ensures
        r.pubkey@ == fp@,
        r.is_connected,
{
    PeerNode {
        name: None,
        pubkey: fp,
        address: Vec::new(),
        http_port: 0,
        arson_port: 0,
        secure: false,
        protocols: Vec::new(),
        version: None,
        last_seen: None,
        is_connected: true,
    }
}

/// Decides what one inbound client message does: the session table is the
/// only state that changes, and the returned actions are everything the
/// channel owner must send or close.
///
/// A registration that fails to validate leaves no session and earns
/// exactly one refusal; a valid one closes any replaced channel, announces
/// presence to every other session and to no one else, and replies with the
/// node's own descriptor. A send is delivered locally when the addressee
/// has a session here, and otherwise becomes one relay attempt over all the
/// reachable remote nodes in configuration order, with exactly one error on
/// total failure.
#[verifier::rlimit(100)]
pub fn handle_client_message(
    sessions: &mut SessionTable,
    remotes: &RemoteTable,
    registered: &Option<Vec<u8>>,
    handle: u64,
    msg: WsClientMessage,
    sig_ok: bool,
    dev_mode: bool,
    node_info: Option<PeerNode>,
    now: u64,
) -> (r: Vec<ClientAction>)
    requires
        old(sessions).wf(),
    ensures
        final(sessions).wf(),
        (match msg {
            WsClientMessage::Ping => final(sessions).spec_sessions() == old(
                sessions,
            ).spec_sessions() && r@.len() == 1 && (r@[0] matches ClientAction::Reply(m) && m
                is Pong),
            WsClientMessage::ListPeers => final(sessions).spec_sessions() == old(
                sessions,
            ).spec_sessions() && r@.len() == 1 && (r@[0] matches ClientAction::Reply(m) && (
            m matches WsServerMessage::PeerList { peers } && peers_union_ok(
                old(sessions).spec_sessions(),
                remotes.spec_remotes(),
                peers@,
            ))),
            WsClientMessage::Register { pubkey, signature } => {
                if sig_ok || (dev_mode && signature@ == spec_dev_sentinel()) {
                    &&& session_for(final(sessions).spec_sessions(), pubkey@)
                    &&& session_at(final(sessions).spec_sessions(), pubkey@).handle == handle
                    &&& session_at(final(sessions).spec_sessions(), pubkey@).connected_at == now
                    &&& r@.len() == (if session_for(old(sessions).spec_sessions(), pubkey@) {
                        1int
                    } else {
                        0int
                    }) + others_count(final(sessions).spec_sessions(), pubkey@) + 1
                    &&& (session_for(old(sessions).spec_sessions(), pubkey@) ==> (
                    r@[0] matches ClientAction::CloseChannel { handle: h } && h == session_at(
                        old(sessions).spec_sessions(),
                        pubkey@,
                    ).handle))
                    &&& forall|j: int|
                        (if session_for(old(sessions).spec_sessions(), pubkey@) {
                            1int
                        } else {
                            0int
                        }) <= j < r@.len() - 1 ==> (#[trigger] r@[j] matches ClientAction::Deliver {
                            handle: h,
                            message,
                        } && is_broadcast_target(final(sessions).spec_sessions(), h, pubkey@) && (
                        message matches WsServerMessage::PeerStatus { pubkey: p, online } && p@
                            == pubkey@ && online))
                    &&& forall|k: int|
                        0 <= k < final(sessions).spec_sessions().len()
                            && (#[trigger] final(sessions).spec_sessions()[k]).pubkey@ != pubkey@
                            ==> (exists|j: int|
                            0 <= j < r@.len() - 1 && (#[trigger] r@[j] matches ClientAction::Deliver {
                                handle: h,
                                ..
                            } && h == final(sessions).spec_sessions()[k].handle))
                    &&& (r@[r@.len() - 1] matches ClientAction::Reply(m) && (
                    m matches WsServerMessage::Registered { success, node_info: ni } && success
                        && view_opt_peer(ni) == view_opt_peer(node_info)))
                } else {
                    &&& final(sessions).spec_sessions() == old(sessions).spec_sessions()
                    &&& r@.len() == 1
                    &&& (r@[0] matches ClientAction::Reply(m) && (
                    m matches WsServerMessage::Registered { success, .. } && !success))
                }
            },
            WsClientMessage::SendMessage { to_pubkey, encrypted_payload } => {
                &&& final(sessions).spec_sessions() == old(sessions).spec_sessions()
                &&& (match registered {
                    Some(from) => {
                        if session_for(old(sessions).spec_sessions(), to_pubkey@) {
                            r@.len() == 1 && (r@[0] matches ClientAction::Deliver {
                                handle: h,
                                message,
                            } && h == session_at(
                                old(sessions).spec_sessions(),
                                to_pubkey@,
                            ).handle && (message matches WsServerMessage::IncomingMessage {
                                from_pubkey,
                                encrypted_payload: p,
                                timestamp,
                            } && from_pubkey@ == from@ && p@ == encrypted_payload@ && timestamp
                                == now))
                        } else {
                            r@.len() == 1 && (r@[0] matches ClientAction::TryRelay {
                                targets,
                                relay,
                                on_failure,
                            } && relay_targets_of(remotes.spec_remotes(), targets@)
                                && relay.to_pubkey@ == to_pubkey@ && (
                            relay.message matches WsServerMessage::IncomingMessage {
                                from_pubkey,
                                encrypted_payload: p,
                                timestamp,
                            } && from_pubkey@ == from@ && p@ == encrypted_payload@ && timestamp
                                == now) && on_failure is Error)
                        }
                    },
                    None => r@.len() == 0,
                })
            },
        }),
{
    let mut actions: Vec<ClientAction> = Vec::new();
    match msg {
        WsClientMessage::Ping => {
            actions.push(ClientAction::Reply(WsServerMessage::Pong));
        },
        WsClientMessage::ListPeers => {
            let peers = get_online_peers(sessions, remotes);
            actions.push(ClientAction::Reply(WsServerMessage::PeerList { peers }));
        },
        WsClientMessage::Register { pubkey, signature } => {
            let valid = registration_valid(sig_ok, &signature, dev_mode);
            if valid {
                let fp = bytes_clone(&pubkey);
                let replaced = sessions.register_connection(pubkey, handle, now);
                let ghost k0: int = if replaced is Some {
                    1
                } else {
                    0
                };
                if let Some(old_handle) = replaced {
                    actions.push(ClientAction::CloseChannel { handle: old_handle });
                }
                let targets = sessions.broadcast_targets(&fp);
                let m = targets.len();
                let mut i: usize = 0;
                while i < m
                    invariant
                        i <= m,
                        m == targets@.len(),
                        0 <= k0 <= 1,
                        actions@.len() == k0 + i,
                        k0 == 1 ==> (actions@[0] matches ClientAction::CloseChannel { handle: h }
                            && h == session_at(old(sessions).spec_sessions(), fp@).handle),
                        forall|j: int|
                            k0 <= j < actions@.len() ==> (
                            #[trigger] actions@[j] matches ClientAction::Deliver {
                                handle: h,
                                message,
                            } && h == targets@[j - k0] && (
                            message matches WsServerMessage::PeerStatus { pubkey: p, online } && p@
                                == fp@ && online)),
                    decreases m - i,
                {
                    let ghost pre = actions@;
                    let act = ClientAction::Deliver {
                        handle: targets[i],
                        message: WsServerMessage::PeerStatus {
                            pubkey: bytes_clone(&fp),
                            online: true,
                        },
                    };
                    let ghost actv = act;
                    actions.push(act);
                    proof {
                        assert(actions@ == pre.push(actv));
                        assert forall|j: int| k0 <= j < actions@.len() implies (
                        #[trigger] actions@[j] matches ClientAction::Deliver {
                            handle: h,
                            message,
                        } && h == targets@[j - k0] && (
                        message matches WsServerMessage::PeerStatus { pubkey: p, online } && p@
                            == fp@ && online)) by {
                            if j < pre.len() {
                                assert(pre.push(actv)[j] == pre[j]);
                                assert(actions@[j] == pre[j]);
                            } else {
                                assert(pre.push(actv)[pre.len() as int] == actv);
                                assert(actions@[j] == actv);
                            }
                        }
                        if k0 == 1 {
                            assert(pre.push(actv)[0] == pre[0]);
                        }
                    }
                    i = i + 1;
                }
                let ghost pre2 = actions@;
                let reply = ClientAction::Reply(
                    WsServerMessage::Registered { success: true, node_info },
                );
                let ghost replyv = reply;
                actions.push(reply);
                proof {
                    assert(actions@ == pre2.push(replyv));
                    assert forall|j: int| 0 <= j < pre2.len() implies actions@[j] == pre2[j] by {
                        assert(pre2.push(replyv)[j] == pre2[j]);
                    }
                    assert(actions@[actions@.len() - 1] == replyv);
                    assert(session_for(sessions.spec_sessions(), fp@));
                    assert(session_at(sessions.spec_sessions(), fp@).handle == handle);
                    assert(actions@.len() == k0 + others_count(sessions.spec_sessions(), fp@)
                        + 1);
                    assert(session_for(old(sessions).spec_sessions(), fp@) ==> (
                    actions@[0] matches ClientAction::CloseChannel { handle: h } && h
                        == session_at(old(sessions).spec_sessions(), fp@).handle));
                    assert(k0 == (if session_for(old(sessions).spec_sessions(), fp@) {
                        1int
                    } else {
                        0int
                    }));
                    assert forall|j: int|
                        k0 <= j < actions@.len() - 1 implies (
                    #[trigger] actions@[j] matches ClientAction::Deliver { handle: h, message }
                        && is_broadcast_target(sessions.spec_sessions(), h, fp@) && (
                    message matches WsServerMessage::PeerStatus { pubkey: p, online } && p@ == fp@
                        && online)) by {
                        assert(actions@[j] == pre2[j]);
                        assert(is_broadcast_target(sessions.spec_sessions(), targets@[j - k0], fp@));
                    }
                    assert(actions@[actions@.len() - 1] matches ClientAction::Reply(m) && (
                    m matches WsServerMessage::Registered { success, node_info: ni } && success));
                    assert forall|k: int|
                        0 <= k < sessions.spec_sessions().len() && (
                        #[trigger] sessions.spec_sessions()[k]).pubkey@ != fp@ implies (exists|
                        j: int,
                    |
                        0 <= j < actions@.len() - 1 && (
                        #[trigger] actions@[j] matches ClientAction::Deliver { handle: h, .. } && h
                            == sessions.spec_sessions()[k].handle)) by {
                        let t = choose|t: int|
                            0 <= t < targets@.len() && targets@[t] == sessions.spec_sessions()[
                                k
                            ].handle;
                        assert(actions@[k0 + t] matches ClientAction::Deliver { handle: h, .. }
                            && h == targets@[t]);
                    }
                }
            } else {
                actions.push(
                    ClientAction::Reply(
                        WsServerMessage::Registered { success: false, node_info: None },
                    ),
                );
            }
        },
        WsClientMessage::SendMessage { to_pubkey, encrypted_payload } => {
            match registered {
                Some(from) => {
                    let incoming = WsServerMessage::IncomingMessage {
                        from_pubkey: bytes_clone(from),
                        encrypted_payload: bytes_clone(&encrypted_payload),
                        timestamp: now,
                    };
                    match sessions.send_to_peer(&to_pubkey) {
                        Some(target) => {
                            actions.push(
                                ClientAction::Deliver { handle: target, message: incoming },
                            );
                        },
                        None => {
                            let targets = remotes.relay_candidates();
                            let mut unreachable_note: Vec<u8> = Vec::new();
                            crate::bytes::push_bytes(&mut unreachable_note, &to_pubkey);
                            actions.push(
                                ClientAction::TryRelay {
                                    targets,
                                    relay: RelayMessage { to_pubkey, message: incoming },
                                    on_failure: WsServerMessage::Error {
                                        message: unreachable_note,
                                    },
                                },
                            );
                        },
                    }
                },
                None => {},
            }
        },
    }
    actions
}

} // verus!
