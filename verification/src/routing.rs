//! The client-side mesh view: a node's snapshot of the peer graph and
//! route discovery over it.

use vstd::prelude::*;

use crate::bytes::{bytes_clone, bytes_eq};

verus! {

/// Route discovery failure.
#[derive(Clone, Copy, Debug, PartialEq, Eq, Structural)]
pub enum RouteError {
    /// No path to the destination was found.
    NoRoute,
}

/// A peer in the mesh snapshot, with the peers it reported in turn.
#[derive(Debug, PartialEq, Eq)]
pub struct PeerNode {
    pub name: Option<Vec<u8>>,
    pub pubkey: Vec<u8>,
    pub address: Vec<u8>,
    pub public_port: u16,
    pub secure: bool,
    pub version: Option<Vec<u8>>,
    pub last_seen: Option<u64>,
    pub is_connected: bool,
    pub peers: Option<Vec<PeerNode>>,
}

impl PeerNode {
    /// A bare descriptor with nothing yet learned about it.
    pub fn new(pubkey: Vec<u8>, address: Vec<u8>, port: u16, secure: bool) -> (r: PeerNode)
        ensures
            r.pubkey@ == pubkey@,
            r.address@ == address@,
            r.public_port == port,
            r.secure == secure,
            r.name is None,
            r.peers is None,
            r.is_connected == false,
    {
        PeerNode {
            name: None,
            pubkey,
            address,
            public_port: port,
            secure,
            version: None,
            last_seen: None,
            is_connected: false,
            peers: None,
        }
    }
}

/// A signed mesh descriptor.
#[derive(Debug, PartialEq, Eq)]
pub struct SignedNode {
    pub node: PeerNode,
    pub signature: Vec<u8>,
}

/// The local node's view of the mesh.
#[derive(Debug, PartialEq, Eq)]
pub struct Node {
    pub name: Vec<u8>,
    pub pubkey: Vec<u8>,
    pub privkey: Vec<u8>,
    pub address: Vec<u8>,
    pub listen_port: u16,
    pub public_port: u16,
    pub secure: bool,
    pub version: Option<Vec<u8>>,
    pub peers: Vec<PeerNode>,
    pub ping_interval: u64,
}

/// Whether `path` is a valid descent through the snapshot rooted at `p`:
/// it starts at `p`'s fingerprint, each later entry belongs to a peer the
/// previous one reported, and the last entry is the destination.
pub open spec fn route_ok(p: PeerNode, path: Seq<Vec<u8>>, dest: Seq<u8>) -> bool
    decreases path.len(),
{
    if path.len() <= 1 {
        path.len() == 1 && (path[0])@ == p.pubkey@ && p.pubkey@ == dest
    } else {
        (path[0])@ == p.pubkey@ && p.peers is Some && (exists|c: int|
            #![auto]
            0 <= c && c < p.peers->Some_0@.len() && route_ok(
                p.peers->Some_0@[c],
                path.skip(1),
                dest,
            ))
    }
}

/// A valid descent through a reported peer extends to its parent.
proof fn lemma_route_cons(p: PeerNode, path: Seq<Vec<u8>>, dest: Seq<u8>, c: int)
    requires
        path.len() >= 2,
        (path[0])@ == p.pubkey@,
        p.peers is Some,
        0 <= c < p.peers->Some_0@.len(),
        route_ok(p.peers->Some_0@[c], path.skip(1), dest),
    ensures
        route_ok(p, path, dest),
{
}

/// A search through one subtree: a found path is a valid descent from the
/// subtree's root to the destination.
fn search_peer(p: &PeerNode, destination: &Vec<u8>) -> (r: Option<Vec<Vec<u8>>>)
    ensures
        (match r {
            Some(path) => path@.len() >= 1 && (path@[0])@ == p.pubkey@ && (path@[path@.len()
                - 1])@ == destination@ && route_ok(*p, path@, destination@),
            None => p.pubkey@ != destination@,
        }),
    decreases *p,
{
    broadcast use vstd::std_specs::vec::axiom_vec_decreases_to_view;
    broadcast use vstd::seq::axiom_seq_index_decreases;

    if bytes_eq(&p.pubkey, destination) {
        let mut path: Vec<Vec<u8>> = Vec::new();
        path.push(bytes_clone(&p.pubkey));
        return Some(path);
    }
    match &p.peers {
        Some(children) => {
            let n = children.len();
            let mut i: usize = 0;
            while i < n
                invariant
                    i <= n,
                    n == children@.len(),
                    p.peers == Some(*children),
                    p.pubkey@ != destination@,
                decreases n - i,
            {
                proof {
                    assert(p.peers->Some_0 == *children);
                    assert(decreases_to!(*p => p.peers));
                    assert(decreases_to!(p.peers => p.peers->Some_0));
                    assert(decreases_to!(*children => children@));
                    assert(decreases_to!(children@ => children@[i as int]));
                }
                match search_peer(&children[i], destination) {
                    Some(rest) => {
                        let mut path: Vec<Vec<u8>> = Vec::new();
                        path.push(bytes_clone(&p.pubkey));
                        let ghost restv = rest@;
                        let mut tail = rest;
                        path.append(&mut tail);
                        proof {
                            assert(path@.len() == restv.len() + 1);
                            assert((path@[path@.len() - 1])@ == (restv[restv.len() - 1])@);
                            assert(path@.skip(1) =~= restv);
                            assert(p.peers->Some_0 == *children);
                            assert(route_ok((p.peers->Some_0)@[i as int], path@.skip(1),
                                destination@));
                            lemma_route_cons(*p, path@, destination@, i as int);
                        }
                        return Some(path);
                    },
                    None => {},
                }
                i = i + 1;
            }
            None
        },
        None => None,
    }
}

impl Node {
    /// Searches the mesh snapshot for a route to a destination, as a list
    /// of fingerprints ending at it. The empty route answers a search for
    /// this node itself, and a directly configured peer is always found.
    pub fn find_route(&self, destination: &Vec<u8>) -> (r: Result<Vec<Vec<u8>>, RouteError>)
        ensures
            (match r {
                Ok(path) => (path@.len() == 0 ==> self.pubkey@ == destination@) && (path@.len() > 0
                    ==> ((path@[path@.len() - 1])@ == destination@ && (exists|k: int|
                    0 <= k < self.peers@.len() && #[trigger] route_ok(
                        self.peers@[k],
                        path@,
                        destination@,
                    )))),
                Err(e) => e == RouteError::NoRoute && self.pubkey@ != destination@,
            }),
            self.pubkey@ == destination@ ==> (r matches Ok(path) && path@.len() == 0),
            (exists|k: int|
                0 <= k < self.peers@.len() && (#[trigger] self.peers@[k]).pubkey@ == destination@)
                ==> r is Ok,
    {
        if bytes_eq(&self.pubkey, destination) {
            return Ok(Vec::new());
        }
        let n = self.peers.len();
        let mut i: usize = 0;
        while i < n
            invariant
                i <= n,
                n == self.peers@.len(),
                self.pubkey@ != destination@,
                forall|k: int| 0 <= k < i ==> (#[trigger] self.peers@[k]).pubkey@ != destination@,
            decreases n - i,
        {
            match search_peer(&self.peers[i], destination) {
                Some(path) => {
                    proof {
                        assert(route_ok(self.peers@[i as int], path@, destination@));
                    }
                    return Ok(path);
                },
                None => {},
            }
            i = i + 1;
        }
        Err(RouteError::NoRoute)
    }
}

} // verus!
