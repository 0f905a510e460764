//! Deterministic binary codec for the packet union and the onion layer
//! types, together with proofs that decoding inverts encoding.
//!
//! Layout: integers are little-endian; byte strings carry a four-byte length
//! prefix; fixed-size fields (packet identifiers, keys, nonces) are raw;
//! enums carry a one-byte tag; options carry a one-byte presence flag.
//! The frame header on the wire is a big-endian `u32` length.

use vstd::prelude::*;

use crate::bytes::{
    push_bytes, push_u16_le, push_u32_be, push_u32_le, push_u64_le, spec_u16_le, spec_u32_be,
    spec_u32_le, spec_u64_le, spec_u16_of_le, spec_u32_of_be, spec_u32_of_le, spec_u64_of_le,
    lemma_u16_le_round_trip, lemma_u32_le_round_trip, lemma_u64_le_round_trip,
};
use crate::types::{
    view_opt_bytes, DiscoveryMessage, DiscoveryMessageView, KnownPeer, KnownPeerView, NextHop,
    NextHopView, NodePacket, NodePacketView, OnionLayer, OnionLayerView, OnionPacket,
    OnionPacketView, OnionResponse, OnionResponseView, PeerNode, PeerNodeView, PeerProtocol,
    RoutedMessage, RoutedMessageType, RoutedMessageView, SignedNode, SignedNodeView,
};
use crate::errors::CodecError;

verus! {

/// Byte strings on the wire carry a four-byte length.
pub open spec fn wf_bytes(b: Seq<u8>) -> bool {
    b.len() < 4294967296
}

pub open spec fn wf_next_hop(v: NextHopView) -> bool {
    wf_bytes(v.address) && wf_bytes(v.pubkey)
}

pub open spec fn wf_onion_packet(v: OnionPacketView) -> bool {
    v.packet_id.len() == 16 && v.ephemeral_pubkey.len() == 32 && v.nonce.len() == 12 && wf_bytes(
        v.encrypted_payload,
    )
}

pub open spec fn wf_onion_layer(v: OnionLayerView) -> bool {
    (match v.next_hop {
        Some(h) => wf_next_hop(h),
        None => true,
    }) && wf_bytes(v.inner_packet)
}

pub open spec fn wf_onion_response(v: OnionResponseView) -> bool {
    v.packet_id.len() == 16 && v.nonce.len() == 12 && wf_bytes(v.encrypted_response)
}

pub open spec fn wf_routed_message(v: RoutedMessageView) -> bool {
    wf_bytes(v.payload)
}

// ---------------------------------------------------------------------------
// Spec encoders
// ---------------------------------------------------------------------------

/// Length-prefixed byte string.
pub open spec fn senc_bytes(b: Seq<u8>) -> Seq<u8> {
    spec_u32_le(b.len() as u32) + b
}

pub open spec fn senc_bool(b: bool) -> Seq<u8> {
    if b {
        seq![1u8]
    } else {
        seq![0u8]
    }
}

pub open spec fn senc_opt_bytes(o: Option<Seq<u8>>) -> Seq<u8> {
    match o {
        Some(b) => seq![1u8] + senc_bytes(b),
        None => seq![0u8],
    }
}

pub open spec fn senc_opt_u64(o: Option<u64>) -> Seq<u8> {
    match o {
        Some(x) => seq![1u8] + spec_u64_le(x),
        None => seq![0u8],
    }
}

pub open spec fn senc_opt_u32(o: Option<u32>) -> Seq<u8> {
    match o {
        Some(x) => seq![1u8] + spec_u32_le(x),
        None => seq![0u8],
    }
}

pub open spec fn senc_next_hop(v: NextHopView) -> Seq<u8> {
    senc_bytes(v.address) + spec_u16_le(v.port) + senc_bytes(v.pubkey)
}

pub open spec fn senc_opt_next_hop(o: Option<NextHopView>) -> Seq<u8> {
    match o {
        Some(h) => seq![1u8] + senc_next_hop(h),
        None => seq![0u8],
    }
}

pub open spec fn senc_onion_packet(v: OnionPacketView) -> Seq<u8> {
    v.packet_id + v.ephemeral_pubkey + senc_bytes(v.encrypted_payload) + v.nonce
}

pub open spec fn senc_onion_layer(v: OnionLayerView) -> Seq<u8> {
    senc_opt_next_hop(v.next_hop) + senc_bytes(v.inner_packet)
}

pub open spec fn senc_onion_response(v: OnionResponseView) -> Seq<u8> {
    v.packet_id + senc_bytes(v.encrypted_response) + v.nonce
}

pub open spec fn routed_type_tag(t: RoutedMessageType) -> u8 {
    match t {
        RoutedMessageType::Chat => 0u8,
        RoutedMessageType::FileRequest => 1u8,
        RoutedMessageType::FileChunk => 2u8,
        RoutedMessageType::PeerDiscovery => 3u8,
        RoutedMessageType::KeepAlive => 4u8,
    }
}

pub open spec fn senc_routed_message(v: RoutedMessageView) -> Seq<u8> {
    seq![routed_type_tag(v.message_type)] + senc_bytes(v.payload) + spec_u64_le(v.timestamp)
}

// ---------------------------------------------------------------------------
// Spec decoders
// ---------------------------------------------------------------------------

pub open spec fn sdec_u16(s: Seq<u8>, i: int) -> Option<(u16, int)> {
    if 0 <= i && i + 2 <= s.len() {
        Some((spec_u16_of_le(s[i], s[i + 1]), i + 2))
    } else {
        None
    }
}

pub open spec fn sdec_u32(s: Seq<u8>, i: int) -> Option<(u32, int)> {
    if 0 <= i && i + 4 <= s.len() {
        Some((spec_u32_of_le(s[i], s[i + 1], s[i + 2], s[i + 3]), i + 4))
    } else {
        None
    }
}

pub open spec fn sdec_u64(s: Seq<u8>, i: int) -> Option<(u64, int)> {
    if 0 <= i && i + 8 <= s.len() {
        Some(
            (
                spec_u64_of_le(
                    s[i],
                    s[i + 1],
                    s[i + 2],
                    s[i + 3],
                    s[i + 4],
                    s[i + 5],
                    s[i + 6],
                    s[i + 7],
                ),
                i + 8,
            ),
        )
    } else {
        None
    }
}

pub open spec fn sdec_bool(s: Seq<u8>, i: int) -> Option<(bool, int)> {
    if 0 <= i && i + 1 <= s.len() {
        if s[i] == 0 {
            Some((false, i + 1))
        } else if s[i] == 1 {
            Some((true, i + 1))
        } else {
            None
        }
    } else {
        None
    }
}

pub open spec fn sdec_fixed(s: Seq<u8>, i: int, n: int) -> Option<(Seq<u8>, int)> {
    if 0 <= i && i + n <= s.len() {
        Some((s.subrange(i, i + n), i + n))
    } else {
        None
    }
}

pub open spec fn sdec_bytes(s: Seq<u8>, i: int) -> Option<(Seq<u8>, int)> {
    match sdec_u32(s, i) {
        Some((n, j)) => {
            if j + n <= s.len() {
                Some((s.subrange(j, j + n), j + n))
            } else {
                None
            }
        },
        None => None,
    }
}

pub open spec fn sdec_opt_bytes(s: Seq<u8>, i: int) -> Option<(Option<Seq<u8>>, int)> {
    match sdec_bool(s, i) {
        Some((present, j)) => {
            if present {
                match sdec_bytes(s, j) {
                    Some((b, k)) => Some((Some(b), k)),
                    None => None,
                }
            } else {
                Some((None, j))
            }
        },
        None => None,
    }
}

pub open spec fn sdec_opt_u64(s: Seq<u8>, i: int) -> Option<(Option<u64>, int)> {
    match sdec_bool(s, i) {
        Some((present, j)) => {
            if present {
                match sdec_u64(s, j) {
                    Some((x, k)) => Some((Some(x), k)),
                    None => None,
                }
            } else {
                Some((None, j))
            }
        },
        None => None,
    }
}

pub open spec fn sdec_opt_u32(s: Seq<u8>, i: int) -> Option<(Option<u32>, int)> {
    match sdec_bool(s, i) {
        Some((present, j)) => {
            if present {
                match sdec_u32(s, j) {
                    Some((x, k)) => Some((Some(x), k)),
                    None => None,
                }
            } else {
                Some((None, j))
            }
        },
        None => None,
    }
}

pub open spec fn sdec_next_hop(s: Seq<u8>, i: int) -> Option<(NextHopView, int)> {
    match sdec_bytes(s, i) {
        Some((address, j)) => match sdec_u16(s, j) {
            Some((port, k)) => match sdec_bytes(s, k) {
                Some((pubkey, m)) => Some((NextHopView { address, port, pubkey }, m)),
                None => None,
            },
            None => None,
        },
        None => None,
    }
}

pub open spec fn sdec_opt_next_hop(s: Seq<u8>, i: int) -> Option<(Option<NextHopView>, int)> {
    match sdec_bool(s, i) {
        Some((present, j)) => {
            if present {
                match sdec_next_hop(s, j) {
                    Some((h, k)) => Some((Some(h), k)),
                    None => None,
                }
            } else {
                Some((None, j))
            }
        },
        None => None,
    }
}

pub open spec fn sdec_onion_packet(s: Seq<u8>, i: int) -> Option<(OnionPacketView, int)> {
    match sdec_fixed(s, i, 16) {
        Some((packet_id, j)) => match sdec_fixed(s, j, 32) {
            Some((ephemeral_pubkey, k)) => match sdec_bytes(s, k) {
                Some((encrypted_payload, m)) => match sdec_fixed(s, m, 12) {
                    Some((nonce, n)) => Some(
                        (
                            OnionPacketView { packet_id, ephemeral_pubkey, encrypted_payload, nonce },
                            n,
                        ),
                    ),
                    None => None,
                },
                None => None,
            },
            None => None,
        },
        None => None,
    }
}

pub open spec fn sdec_onion_layer(s: Seq<u8>, i: int) -> Option<(OnionLayerView, int)> {
    match sdec_opt_next_hop(s, i) {
        Some((next_hop, j)) => match sdec_bytes(s, j) {
            Some((inner_packet, k)) => Some((OnionLayerView { next_hop, inner_packet }, k)),
            None => None,
        },
        None => None,
    }
}

pub open spec fn sdec_onion_response(s: Seq<u8>, i: int) -> Option<(OnionResponseView, int)> {
    match sdec_fixed(s, i, 16) {
        Some((packet_id, j)) => match sdec_bytes(s, j) {
            Some((encrypted_response, k)) => match sdec_fixed(s, k, 12) {
                Some((nonce, m)) => Some(
                    (OnionResponseView { packet_id, encrypted_response, nonce }, m),
                ),
                None => None,
            },
            None => None,
        },
        None => None,
    }
}

pub open spec fn sdec_routed_type(s: Seq<u8>, i: int) -> Option<(RoutedMessageType, int)> {
    if 0 <= i && i + 1 <= s.len() {
        if s[i] == 0 {
            Some((RoutedMessageType::Chat, i + 1))
        } else if s[i] == 1 {
            Some((RoutedMessageType::FileRequest, i + 1))
        } else if s[i] == 2 {
            Some((RoutedMessageType::FileChunk, i + 1))
        } else if s[i] == 3 {
            Some((RoutedMessageType::PeerDiscovery, i + 1))
        } else if s[i] == 4 {
            Some((RoutedMessageType::KeepAlive, i + 1))
        } else {
            None
        }
    } else {
        None
    }
}

pub open spec fn sdec_routed_message(s: Seq<u8>, i: int) -> Option<(RoutedMessageView, int)> {
    match sdec_routed_type(s, i) {
        Some((message_type, j)) => match sdec_bytes(s, j) {
            Some((payload, k)) => match sdec_u64(s, k) {
                Some((timestamp, m)) => Some(
                    (RoutedMessageView { message_type, payload, timestamp }, m),
                ),
                None => None,
            },
            None => None,
        },
        None => None,
    }
}

// ---------------------------------------------------------------------------
// Splitting and round-trip lemmas
// ---------------------------------------------------------------------------

/// If a window of `s` holds `a + b`, the two sub-windows hold `a` and `b`.
pub proof fn lemma_split_at(s: Seq<u8>, i: int, a: Seq<u8>, b: Seq<u8>)
    requires
        0 <= i,
        i + a.len() + b.len() <= s.len(),
        s.subrange(i, i + a.len() + b.len()) == a + b,
    ensures
        s.subrange(i, i + a.len()) == a,
        s.subrange(i + a.len(), i + a.len() + b.len()) == b,
{
    let w = s.subrange(i, i + a.len() + b.len());
    assert forall|k: int| 0 <= k < a.len() implies s.subrange(i, i + a.len())[k] == a[k] by {
        assert(w[k] == s[i + k]);
        assert((a + b)[k] == a[k]);
    }
    assert(s.subrange(i, i + a.len()) =~= a);
    assert forall|k: int| 0 <= k < b.len() implies s.subrange(
        i + a.len(),
        i + a.len() + b.len(),
    )[k] == b[k] by {
        assert(w[a.len() + k] == s[i + a.len() + k]);
        assert((a + b)[a.len() + k] == b[k]);
    }
    assert(s.subrange(i + a.len(), i + a.len() + b.len()) =~= b);
}

pub proof fn lemma_rt_u16(s: Seq<u8>, i: int, x: u16)
    requires
        0 <= i,
        i + 2 <= s.len(),
        s.subrange(i, i + 2) == spec_u16_le(x),
    ensures
        sdec_u16(s, i) == Some((x, i + 2)),
{
    assert(s[i] == spec_u16_le(x)[0]) by {
        assert(s.subrange(i, i + 2)[0] == s[i]);
    }
    assert(s[i + 1] == spec_u16_le(x)[1]) by {
        assert(s.subrange(i, i + 2)[1] == s[i + 1]);
    }
    lemma_u16_le_round_trip(x);
}

pub proof fn lemma_rt_u32(s: Seq<u8>, i: int, x: u32)
    requires
        0 <= i,
        i + 4 <= s.len(),
        s.subrange(i, i + 4) == spec_u32_le(x),
    ensures
        sdec_u32(s, i) == Some((x, i + 4)),
{
    assert forall|k: int| 0 <= k < 4 implies s[i + k] == spec_u32_le(x)[k] by {
        assert(s.subrange(i, i + 4)[k] == s[i + k]);
    }
    lemma_u32_le_round_trip(x);
}

pub proof fn lemma_rt_u64(s: Seq<u8>, i: int, x: u64)
    requires
        0 <= i,
        i + 8 <= s.len(),
        s.subrange(i, i + 8) == spec_u64_le(x),
    ensures
        sdec_u64(s, i) == Some((x, i + 8)),
{
    assert forall|k: int| 0 <= k < 8 implies s[i + k] == spec_u64_le(x)[k] by {
        assert(s.subrange(i, i + 8)[k] == s[i + k]);
    }
    lemma_u64_le_round_trip(x);
}

pub proof fn lemma_rt_bool(s: Seq<u8>, i: int, b: bool)
    requires
        0 <= i,
        i + 1 <= s.len(),
        s.subrange(i, i + 1) == senc_bool(b),
    ensures
        sdec_bool(s, i) == Some((b, i + 1)),
{
    assert(s[i] == senc_bool(b)[0]) by {
        assert(s.subrange(i, i + 1)[0] == s[i]);
    }
}

pub proof fn lemma_rt_fixed(s: Seq<u8>, i: int, b: Seq<u8>)
    requires
        0 <= i,
        i + b.len() <= s.len(),
        s.subrange(i, i + b.len()) == b,
    ensures
        sdec_fixed(s, i, b.len() as int) == Some((b, i + b.len())),
{
}

pub proof fn lemma_rt_bytes(s: Seq<u8>, i: int, b: Seq<u8>)
    requires
        0 <= i,
        wf_bytes(b),
        i + senc_bytes(b).len() <= s.len(),
        s.subrange(i, i + senc_bytes(b).len()) == senc_bytes(b),
    ensures
        sdec_bytes(s, i) == Some((b, i + senc_bytes(b).len())),
{
    let n = b.len() as u32;
    lemma_split_at(s, i, spec_u32_le(n), b);
    lemma_rt_u32(s, i, n);
}

pub proof fn lemma_rt_opt_bytes(s: Seq<u8>, i: int, o: Option<Seq<u8>>)
    requires
        0 <= i,
        (match o {
            Some(b) => wf_bytes(b),
            None => true,
        }),
        i + senc_opt_bytes(o).len() <= s.len(),
        s.subrange(i, i + senc_opt_bytes(o).len()) == senc_opt_bytes(o),
    ensures
        sdec_opt_bytes(s, i) == Some((o, i + senc_opt_bytes(o).len())),
{
    match o {
        Some(b) => {
            lemma_split_at(s, i, senc_bool(true), senc_bytes(b));
            lemma_rt_bool(s, i, true);
            lemma_rt_bytes(s, i + 1, b);
        },
        None => {
            lemma_rt_bool(s, i, false);
        },
    }
}

pub proof fn lemma_rt_opt_u64(s: Seq<u8>, i: int, o: Option<u64>)
    requires
        0 <= i,
        i + senc_opt_u64(o).len() <= s.len(),
        s.subrange(i, i + senc_opt_u64(o).len()) == senc_opt_u64(o),
    ensures
        sdec_opt_u64(s, i) == Some((o, i + senc_opt_u64(o).len())),
{
    match o {
        Some(x) => {
            lemma_split_at(s, i, senc_bool(true), spec_u64_le(x));
            lemma_rt_bool(s, i, true);
            lemma_rt_u64(s, i + 1, x);
        },
        None => {
            lemma_rt_bool(s, i, false);
        },
    }
}

pub proof fn lemma_rt_opt_u32(s: Seq<u8>, i: int, o: Option<u32>)
    requires
        0 <= i,
        i + senc_opt_u32(o).len() <= s.len(),
        s.subrange(i, i + senc_opt_u32(o).len()) == senc_opt_u32(o),
    ensures
        sdec_opt_u32(s, i) == Some((o, i + senc_opt_u32(o).len())),
{
    match o {
        Some(x) => {
            lemma_split_at(s, i, senc_bool(true), spec_u32_le(x));
            lemma_rt_bool(s, i, true);
            lemma_rt_u32(s, i + 1, x);
        },
        None => {
            lemma_rt_bool(s, i, false);
        },
    }
}

pub proof fn lemma_rt_next_hop(s: Seq<u8>, i: int, v: NextHopView)
    requires
        0 <= i,
        wf_next_hop(v),
        i + senc_next_hop(v).len() <= s.len(),
        s.subrange(i, i + senc_next_hop(v).len()) == senc_next_hop(v),
    ensures
        sdec_next_hop(s, i) == Some((v, i + senc_next_hop(v).len())),
{
    let e1 = senc_bytes(v.address);
    let e2 = spec_u16_le(v.port);
    let e3 = senc_bytes(v.pubkey);
    assert(senc_next_hop(v) =~= e1 + (e2 + e3));
    lemma_split_at(s, i, e1, e2 + e3);
    lemma_split_at(s, i + e1.len(), e2, e3);
    lemma_rt_bytes(s, i, v.address);
    lemma_rt_u16(s, i + e1.len(), v.port);
    lemma_rt_bytes(s, i + e1.len() + e2.len(), v.pubkey);
}

pub proof fn lemma_rt_opt_next_hop(s: Seq<u8>, i: int, o: Option<NextHopView>)
    requires
        0 <= i,
        (match o {
            Some(h) => wf_next_hop(h),
            None => true,
        }),
        i + senc_opt_next_hop(o).len() <= s.len(),
        s.subrange(i, i + senc_opt_next_hop(o).len()) == senc_opt_next_hop(o),
    ensures
        sdec_opt_next_hop(s, i) == Some((o, i + senc_opt_next_hop(o).len())),
{
    match o {
        Some(h) => {
            lemma_split_at(s, i, senc_bool(true), senc_next_hop(h));
            lemma_rt_bool(s, i, true);
            lemma_rt_next_hop(s, i + 1, h);
        },
        None => {
            lemma_rt_bool(s, i, false);
        },
    }
}

pub proof fn lemma_rt_onion_packet(s: Seq<u8>, i: int, v: OnionPacketView)
    requires
        0 <= i,
        wf_onion_packet(v),
        i + senc_onion_packet(v).len() <= s.len(),
        s.subrange(i, i + senc_onion_packet(v).len()) == senc_onion_packet(v),
    ensures
        sdec_onion_packet(s, i) == Some((v, i + senc_onion_packet(v).len())),
{
    let e1 = v.packet_id;
    let e2 = v.ephemeral_pubkey;
    let e3 = senc_bytes(v.encrypted_payload);
    let e4 = v.nonce;
    assert(senc_onion_packet(v) =~= e1 + (e2 + (e3 + e4)));
    lemma_split_at(s, i, e1, e2 + (e3 + e4));
    lemma_split_at(s, i + 16, e2, e3 + e4);
    lemma_split_at(s, i + 48, e3, e4);
    lemma_rt_fixed(s, i, e1);
    lemma_rt_fixed(s, i + 16, e2);
    lemma_rt_bytes(s, i + 48, v.encrypted_payload);
    lemma_rt_fixed(s, i + 48 + e3.len(), e4);
    assert(sdec_onion_packet(s, i) == Some((v, i + senc_onion_packet(v).len())));
}

pub proof fn lemma_rt_onion_layer(s: Seq<u8>, i: int, v: OnionLayerView)
    requires
        0 <= i,
        wf_onion_layer(v),
        i + senc_onion_layer(v).len() <= s.len(),
        s.subrange(i, i + senc_onion_layer(v).len()) == senc_onion_layer(v),
    ensures
        sdec_onion_layer(s, i) == Some((v, i + senc_onion_layer(v).len())),
{
    let e1 = senc_opt_next_hop(v.next_hop);
    let e2 = senc_bytes(v.inner_packet);
    lemma_split_at(s, i, e1, e2);
    lemma_rt_opt_next_hop(s, i, v.next_hop);
    lemma_rt_bytes(s, i + e1.len(), v.inner_packet);
}

pub proof fn lemma_rt_onion_response(s: Seq<u8>, i: int, v: OnionResponseView)
    requires
        0 <= i,
        wf_onion_response(v),
        i + senc_onion_response(v).len() <= s.len(),
        s.subrange(i, i + senc_onion_response(v).len()) == senc_onion_response(v),
    ensures
        sdec_onion_response(s, i) == Some((v, i + senc_onion_response(v).len())),
{
    let e1 = v.packet_id;
    let e2 = senc_bytes(v.encrypted_response);
    let e3 = v.nonce;
    assert(senc_onion_response(v) =~= e1 + (e2 + e3));
    lemma_split_at(s, i, e1, e2 + e3);
    lemma_split_at(s, i + 16, e2, e3);
    lemma_rt_fixed(s, i, e1);
    lemma_rt_bytes(s, i + 16, v.encrypted_response);
    lemma_rt_fixed(s, i + 16 + e2.len(), e3);
}

pub proof fn lemma_rt_routed_type(s: Seq<u8>, i: int, t: RoutedMessageType)
    requires
        0 <= i,
        i + 1 <= s.len(),
        s.subrange(i, i + 1) == seq![routed_type_tag(t)],
    ensures
        sdec_routed_type(s, i) == Some((t, i + 1)),
{
    assert(s[i] == routed_type_tag(t)) by {
        assert(s.subrange(i, i + 1)[0] == s[i]);
    }
}

pub proof fn lemma_rt_routed_message(s: Seq<u8>, i: int, v: RoutedMessageView)
    requires
        0 <= i,
        wf_routed_message(v),
        i + senc_routed_message(v).len() <= s.len(),
        s.subrange(i, i + senc_routed_message(v).len()) == senc_routed_message(v),
    ensures
        sdec_routed_message(s, i) == Some((v, i + senc_routed_message(v).len())),
{
    let e1: Seq<u8> = seq![routed_type_tag(v.message_type)];
    let e2 = senc_bytes(v.payload);
    let e3 = spec_u64_le(v.timestamp);
    assert(senc_routed_message(v) =~= e1 + (e2 + e3));
    lemma_split_at(s, i, e1, e2 + e3);
    lemma_split_at(s, i + 1, e2, e3);
    lemma_rt_routed_type(s, i, v.message_type);
    lemma_rt_bytes(s, i + 1, v.payload);
    lemma_rt_u64(s, i + 1 + e2.len(), v.timestamp);
}

// ---------------------------------------------------------------------------
// Exec encoders
// ---------------------------------------------------------------------------

/// Whether a byte vector fits the four-byte length prefix; always true on
/// 32-bit and a cheap check on larger machines.
pub fn fits_u32(b: &Vec<u8>) -> (r: bool)
    ensures
        r == wf_bytes(b@),
{
    (b.len() as u64) < 4294967296u64
}

pub fn enc_bytes(out: &mut Vec<u8>, b: &Vec<u8>)
    requires
        wf_bytes(b@),
    ensures
        final(out)@ == old(out)@ + senc_bytes(b@),
{
    push_u32_le(out, b.len() as u32);
    push_bytes(out, b);
    assert(out@ =~= old(out)@ + senc_bytes(b@));
}

pub fn enc_bool(out: &mut Vec<u8>, b: bool)
    ensures
        final(out)@ == old(out)@ + senc_bool(b),
{
    out.push(if b {
        1
    } else {
        0
    });
    assert(out@ =~= old(out)@ + senc_bool(b));
}

pub fn enc_opt_bytes(out: &mut Vec<u8>, o: &Option<Vec<u8>>)
    requires
        (match o {
            Some(b) => wf_bytes(b@),
            None => true,
        }),
    ensures
        final(out)@ == old(out)@ + senc_opt_bytes(crate::types::view_opt_bytes(*o)),
{
    match o {
        Some(b) => {
            enc_bool(out, true);
            enc_bytes(out, b);
        },
        None => {
            enc_bool(out, false);
        },
    }
    assert(out@ =~= old(out)@ + senc_opt_bytes(crate::types::view_opt_bytes(*o)));
}

pub fn enc_opt_u64(out: &mut Vec<u8>, o: &Option<u64>)
    ensures
        final(out)@ == old(out)@ + senc_opt_u64(*o),
{
    match o {
        Some(x) => {
            enc_bool(out, true);
            push_u64_le(out, *x);
        },
        None => {
            enc_bool(out, false);
        },
    }
    assert(out@ =~= old(out)@ + senc_opt_u64(*o));
}

pub fn enc_opt_u32(out: &mut Vec<u8>, o: &Option<u32>)
    ensures
        final(out)@ == old(out)@ + senc_opt_u32(*o),
{
    match o {
        Some(x) => {
            enc_bool(out, true);
            push_u32_le(out, *x);
        },
        None => {
            enc_bool(out, false);
        },
    }
    assert(out@ =~= old(out)@ + senc_opt_u32(*o));
}

pub fn enc_next_hop(out: &mut Vec<u8>, v: &NextHop)
    requires
        wf_next_hop(v@),
    ensures
        final(out)@ == old(out)@ + senc_next_hop(v@),
{
    enc_bytes(out, &v.address);
    push_u16_le(out, v.port);
    enc_bytes(out, &v.pubkey);
    assert(out@ =~= old(out)@ + senc_next_hop(v@));
}

pub fn enc_onion_packet(out: &mut Vec<u8>, v: &OnionPacket)
    requires
        wf_onion_packet(v@),
    ensures
        final(out)@ == old(out)@ + senc_onion_packet(v@),
{
    push_bytes(out, &v.packet_id);
    push_bytes(out, &v.ephemeral_pubkey);
    enc_bytes(out, &v.encrypted_payload);
    push_bytes(out, &v.nonce);
    assert(out@ =~= old(out)@ + senc_onion_packet(v@));
}

pub fn enc_onion_layer(out: &mut Vec<u8>, v: &OnionLayer)
    requires
        wf_onion_layer(v@),
    ensures
        final(out)@ == old(out)@ + senc_onion_layer(v@),
{
    match &v.next_hop {
        Some(h) => {
            enc_bool(out, true);
            enc_next_hop(out, h);
        },
        None => {
            enc_bool(out, false);
        },
    }
    assert(out@ =~= old(out)@ + senc_opt_next_hop(v@.next_hop));
    enc_bytes(out, &v.inner_packet);
    assert(out@ =~= old(out)@ + senc_onion_layer(v@));
}

pub fn enc_onion_response(out: &mut Vec<u8>, v: &OnionResponse)
    requires
        wf_onion_response(v@),
    ensures
        final(out)@ == old(out)@ + senc_onion_response(v@),
{
    push_bytes(out, &v.packet_id);
    enc_bytes(out, &v.encrypted_response);
    push_bytes(out, &v.nonce);
    assert(out@ =~= old(out)@ + senc_onion_response(v@));
}

pub fn enc_routed_message(out: &mut Vec<u8>, v: &RoutedMessage)
    requires
        wf_routed_message(v@),
    ensures
        final(out)@ == old(out)@ + senc_routed_message(v@),
{
    let tag: u8 = match v.message_type {
        RoutedMessageType::Chat => 0,
        RoutedMessageType::FileRequest => 1,
        RoutedMessageType::FileChunk => 2,
        RoutedMessageType::PeerDiscovery => 3,
        RoutedMessageType::KeepAlive => 4,
    };
    out.push(tag);
    enc_bytes(out, &v.payload);
    push_u64_le(out, v.timestamp);
    assert(out@ =~= old(out)@ + senc_routed_message(v@));
}

// ---------------------------------------------------------------------------
// Exec decoders
// ---------------------------------------------------------------------------

pub fn dec_u16(s: &Vec<u8>, i: usize) -> (r: Option<(u16, usize)>)
    ensures
        (match r {
            Some((x, j)) => sdec_u16(s@, i as int) == Some((x, j as int)),
            None => sdec_u16(s@, i as int) is None,
        }),
{
    if i < s.len() && s.len() - i >= 2 {
        let x: u16 = s[i] as u16 + (s[i + 1] as u16) * 256;
        Some((x, i + 2))
    } else {
        None
    }
}

pub fn dec_u32(s: &Vec<u8>, i: usize) -> (r: Option<(u32, usize)>)
    ensures
        (match r {
            Some((x, j)) => sdec_u32(s@, i as int) == Some((x, j as int)),
            None => sdec_u32(s@, i as int) is None,
        }),
{
    if i < s.len() && s.len() - i >= 4 {
        let x: u32 = s[i] as u32 + (s[i + 1] as u32) * 256 + (s[i + 2] as u32) * 65536 + (s[i + 3]
            as u32) * 16777216;
        Some((x, i + 4))
    } else {
        None
    }
}

pub fn dec_u64(s: &Vec<u8>, i: usize) -> (r: Option<(u64, usize)>)
    ensures
        (match r {
            Some((x, j)) => sdec_u64(s@, i as int) == Some((x, j as int)),
            None => sdec_u64(s@, i as int) is None,
        }),
{
    if i < s.len() && s.len() - i >= 8 {
        let x: u64 = s[i] as u64 + (s[i + 1] as u64) * 256 + (s[i + 2] as u64) * 65536 + (s[i + 3]
            as u64) * 16777216 + (s[i + 4] as u64) * 4294967296 + (s[i + 5] as u64) * 1099511627776
            + (s[i + 6] as u64) * 281474976710656 + (s[i + 7] as u64) * 72057594037927936;
        Some((x, i + 8))
    } else {
        None
    }
}

pub fn dec_bool(s: &Vec<u8>, i: usize) -> (r: Option<(bool, usize)>)
    ensures
        (match r {
            Some((x, j)) => sdec_bool(s@, i as int) == Some((x, j as int)),
            None => sdec_bool(s@, i as int) is None,
        }),
{
    if i < s.len() {
        if s[i] == 0 {
            Some((false, i + 1))
        } else if s[i] == 1 {
            Some((true, i + 1))
        } else {
            None
        }
    } else {
        None
    }
}

/// Copies `n` bytes of `s` starting at `i`.
pub fn read_exact(s: &Vec<u8>, i: usize, n: usize) -> (r: Option<(Vec<u8>, usize)>)
    ensures
        (match r {
            Some((v, j)) => sdec_fixed(s@, i as int, n as int) == Some((v@, j as int)),
            None => sdec_fixed(s@, i as int, n as int) is None,
        }),
{
    if i <= s.len() && s.len() - i >= n {
        let slen = s.len();
        let mut v: Vec<u8> = Vec::new();
        let mut k: usize = 0;
        while k < n
            invariant
                k <= n,
                i + n <= slen,
                slen == s@.len(),
                v@ == s@.subrange(i as int, i + k),
            decreases n - k,
        {
            v.push(s[i + k]);
            k = k + 1;
            assert(v@ =~= s@.subrange(i as int, i + k));
        }
        Some((v, i + n))
    } else {
        None
    }
}

pub fn dec_bytes(s: &Vec<u8>, i: usize) -> (r: Option<(Vec<u8>, usize)>)
    ensures
        (match r {
            Some((v, j)) => sdec_bytes(s@, i as int) == Some((v@, j as int)),
            None => sdec_bytes(s@, i as int) is None,
        }),
{
    match dec_u32(s, i) {
        Some((n, j)) => {
            if n as usize <= s.len() && j <= s.len() - (n as usize) {
                read_exact(s, j, n as usize)
            } else {
                None
            }
        },
        None => None,
    }
}

pub fn dec_opt_bytes(s: &Vec<u8>, i: usize) -> (r: Option<(Option<Vec<u8>>, usize)>)
    ensures
        (match r {
            Some((v, j)) => sdec_opt_bytes(s@, i as int) == Some(
                (crate::types::view_opt_bytes(v), j as int),
            ),
            None => sdec_opt_bytes(s@, i as int) is None,
        }),
{
    match dec_bool(s, i) {
        Some((present, j)) => {
            if present {
                match dec_bytes(s, j) {
                    Some((b, k)) => Some((Some(b), k)),
                    None => None,
                }
            } else {
                Some((None, j))
            }
        },
        None => None,
    }
}

pub fn dec_opt_u64(s: &Vec<u8>, i: usize) -> (r: Option<(Option<u64>, usize)>)
    ensures
        (match r {
            Some((v, j)) => sdec_opt_u64(s@, i as int) == Some((v, j as int)),
            None => sdec_opt_u64(s@, i as int) is None,
        }),
{
    match dec_bool(s, i) {
        Some((present, j)) => {
            if present {
                match dec_u64(s, j) {
                    Some((x, k)) => Some((Some(x), k)),
                    None => None,
                }
            } else {
                Some((None, j))
            }
        },
        None => None,
    }
}

pub fn dec_opt_u32(s: &Vec<u8>, i: usize) -> (r: Option<(Option<u32>, usize)>)
    ensures
        (match r {
            Some((v, j)) => sdec_opt_u32(s@, i as int) == Some((v, j as int)),
            None => sdec_opt_u32(s@, i as int) is None,
        }),
{
    match dec_bool(s, i) {
        Some((present, j)) => {
            if present {
                match dec_u32(s, j) {
                    Some((x, k)) => Some((Some(x), k)),
                    None => None,
                }
            } else {
                Some((None, j))
            }
        },
        None => None,
    }
}

pub fn dec_next_hop(s: &Vec<u8>, i: usize) -> (r: Option<(NextHop, usize)>)
    ensures
        (match r {
            Some((v, j)) => sdec_next_hop(s@, i as int) == Some((v@, j as int)),
            None => sdec_next_hop(s@, i as int) is None,
        }),
{
    match dec_bytes(s, i) {
        Some((address, j)) => match dec_u16(s, j) {
            Some((port, k)) => match dec_bytes(s, k) {
                Some((pubkey, m)) => Some((NextHop { address, port, pubkey }, m)),
                None => None,
            },
            None => None,
        },
        None => None,
    }
}

pub fn dec_opt_next_hop(s: &Vec<u8>, i: usize) -> (r: Option<(Option<NextHop>, usize)>)
    ensures
        (match r {
            Some((v, j)) => sdec_opt_next_hop(s@, i as int) == Some(
                (
                    match v {
                        Some(h) => Some(h@),
                        None => None,
                    },
                    j as int,
                ),
            ),
            None => sdec_opt_next_hop(s@, i as int) is None,
        }),
{
    match dec_bool(s, i) {
        Some((present, j)) => {
            if present {
                match dec_next_hop(s, j) {
                    Some((h, k)) => Some((Some(h), k)),
                    None => None,
                }
            } else {
                Some((None, j))
            }
        },
        None => None,
    }
}

pub fn dec_onion_packet(s: &Vec<u8>, i: usize) -> (r: Option<(OnionPacket, usize)>)
    ensures
        (match r {
            Some((v, j)) => sdec_onion_packet(s@, i as int) == Some((v@, j as int)),
            None => sdec_onion_packet(s@, i as int) is None,
        }),
{
    match read_exact(s, i, 16) {
        Some((packet_id, j)) => match read_exact(s, j, 32) {
            Some((ephemeral_pubkey, k)) => match dec_bytes(s, k) {
                Some((encrypted_payload, m)) => match read_exact(s, m, 12) {
                    Some((nonce, n)) => Some(
                        (OnionPacket { packet_id, ephemeral_pubkey, encrypted_payload, nonce }, n),
                    ),
                    None => None,
                },
                None => None,
            },
            None => None,
        },
        None => None,
    }
}

pub fn dec_onion_layer(s: &Vec<u8>, i: usize) -> (r: Option<(OnionLayer, usize)>)
    ensures
        (match r {
            Some((v, j)) => sdec_onion_layer(s@, i as int) == Some((v@, j as int)),
            None => sdec_onion_layer(s@, i as int) is None,
        }),
{
    match dec_opt_next_hop(s, i) {
        Some((next_hop, j)) => match dec_bytes(s, j) {
            Some((inner_packet, k)) => Some((OnionLayer { next_hop, inner_packet }, k)),
            None => None,
        },
        None => None,
    }
}

pub fn dec_onion_response(s: &Vec<u8>, i: usize) -> (r: Option<(OnionResponse, usize)>)
    ensures
        (match r {
            Some((v, j)) => sdec_onion_response(s@, i as int) == Some((v@, j as int)),
            None => sdec_onion_response(s@, i as int) is None,
        }),
{
    match read_exact(s, i, 16) {
        Some((packet_id, j)) => match dec_bytes(s, j) {
            Some((encrypted_response, k)) => match read_exact(s, k, 12) {
                Some((nonce, m)) => Some((OnionResponse { packet_id, encrypted_response, nonce }, m)),
                None => None,
            },
            None => None,
        },
        None => None,
    }
}

pub fn dec_routed_message(s: &Vec<u8>, i: usize) -> (r: Option<(RoutedMessage, usize)>)
    ensures
        (match r {
            Some((v, j)) => sdec_routed_message(s@, i as int) == Some((v@, j as int)),
            None => sdec_routed_message(s@, i as int) is None,
        }),
{
    let tag = if i < s.len() {
        Some(s[i])
    } else {
        None
    };
    let message_type: Option<RoutedMessageType> = match tag {
        Some(0u8) => Some(RoutedMessageType::Chat),
        Some(1u8) => Some(RoutedMessageType::FileRequest),
        Some(2u8) => Some(RoutedMessageType::FileChunk),
        Some(3u8) => Some(RoutedMessageType::PeerDiscovery),
        Some(4u8) => Some(RoutedMessageType::KeepAlive),
        _ => None,
    };
    match message_type {
        Some(message_type) => match dec_bytes(s, i + 1) {
            Some((payload, k)) => match dec_u64(s, k) {
                Some((timestamp, m)) => Some((RoutedMessage { message_type, payload, timestamp }, m)),
                None => None,
            },
            None => None,
        },
        None => None,
    }
}


// ---------------------------------------------------------------------------
// Peer descriptors, discovery messages and the packet union
// ---------------------------------------------------------------------------

pub open spec fn wf_opt_bytes_v(o: Option<Seq<u8>>) -> bool {
    match o {
        Some(b) => wf_bytes(b),
        None => true,
    }
}

pub open spec fn wf_peer_node(v: PeerNodeView) -> bool {
    wf_opt_bytes_v(v.name) && wf_bytes(v.pubkey) && wf_bytes(v.address) && v.protocols.len()
        < 4294967296 && wf_opt_bytes_v(v.version)
}

pub open spec fn wf_signed_node(v: SignedNodeView) -> bool {
    wf_peer_node(v.node) && wf_bytes(v.signature)
}

pub open spec fn wf_known_peer(v: KnownPeerView) -> bool {
    wf_peer_node(v.node) && (match v.x25519_pubkey {
        Some(k) => k.len() == 32,
        None => true,
    })
}

pub open spec fn wf_known_peer_list(ps: Seq<KnownPeerView>) -> bool {
    ps.len() < 4294967296 && (forall|k: int| 0 <= k < ps.len() ==> wf_known_peer(#[trigger] ps[k]))
}

pub open spec fn wf_discovery(m: DiscoveryMessageView) -> bool {
    match m {
        DiscoveryMessageView::Announce { node, x25519_pubkey } => wf_signed_node(node)
            && x25519_pubkey.len() == 32,
        DiscoveryMessageView::GetPeers { max_count } => true,
        DiscoveryMessageView::PeerList { peers } => wf_known_peer_list(peers),
        DiscoveryMessageView::Ping { timestamp, nonce } => nonce.len() == 8,
        DiscoveryMessageView::Pong { timestamp, nonce, original_timestamp } => nonce.len() == 8,
    }
}

pub open spec fn wf_node_packet(v: NodePacketView) -> bool {
    match v {
        NodePacketView::Onion(p) => wf_onion_packet(p),
        NodePacketView::OnionResponse(r) => wf_onion_response(r),
        NodePacketView::Discovery(m) => wf_discovery(m),
    }
}

pub open spec fn protocol_tag(p: PeerProtocol) -> u8 {
    match p {
        PeerProtocol::Ws => 0u8,
        PeerProtocol::Wss => 1u8,
        PeerProtocol::Arson => 2u8,
    }
}

pub open spec fn senc_protocol_list(ps: Seq<PeerProtocol>) -> Seq<u8>
    decreases ps.len(),
{
    if ps.len() == 0 {
        Seq::empty()
    } else {
        seq![protocol_tag(ps[0])] + senc_protocol_list(ps.subrange(1, ps.len() as int))
    }
}

pub open spec fn senc_protocols(ps: Seq<PeerProtocol>) -> Seq<u8> {
    spec_u32_le(ps.len() as u32) + senc_protocol_list(ps)
}

pub open spec fn senc_opt_key(o: Option<Seq<u8>>) -> Seq<u8> {
    match o {
        Some(k) => seq![1u8] + k,
        None => seq![0u8],
    }
}

pub open spec fn senc_peer_node(v: PeerNodeView) -> Seq<u8> {
    senc_opt_bytes(v.name) + senc_bytes(v.pubkey) + senc_bytes(v.address) + spec_u16_le(v.http_port)
        + spec_u16_le(v.arson_port) + senc_bool(v.secure) + senc_protocols(v.protocols)
        + senc_opt_bytes(v.version) + senc_opt_u64(v.last_seen) + senc_bool(v.is_connected)
}

pub open spec fn senc_signed_node(v: SignedNodeView) -> Seq<u8> {
    senc_peer_node(v.node) + senc_bytes(v.signature)
}

pub open spec fn senc_known_peer(v: KnownPeerView) -> Seq<u8> {
    senc_peer_node(v.node) + senc_opt_key(v.x25519_pubkey) + spec_u64_le(v.last_ping)
        + senc_opt_u32(v.latency_ms) + seq![v.trust_score] + spec_u32_le(v.failed_attempts)
}

pub open spec fn senc_known_peer_list(ps: Seq<KnownPeerView>) -> Seq<u8>
    decreases ps.len(),
{
    if ps.len() == 0 {
        Seq::empty()
    } else {
        senc_known_peer(ps[0]) + senc_known_peer_list(ps.subrange(1, ps.len() as int))
    }
}

pub open spec fn senc_discovery(m: DiscoveryMessageView) -> Seq<u8> {
    match m {
        DiscoveryMessageView::Announce { node, x25519_pubkey } => seq![0u8] + senc_signed_node(node)
            + x25519_pubkey,
        DiscoveryMessageView::GetPeers { max_count } => seq![1u8] + spec_u16_le(max_count),
        DiscoveryMessageView::PeerList { peers } => seq![2u8] + spec_u32_le(peers.len() as u32)
            + senc_known_peer_list(peers),
        DiscoveryMessageView::Ping { timestamp, nonce } => seq![3u8] + spec_u64_le(timestamp)
            + nonce,
        DiscoveryMessageView::Pong { timestamp, nonce, original_timestamp } => seq![4u8]
            + spec_u64_le(timestamp) + nonce + spec_u64_le(original_timestamp),
    }
}

pub open spec fn senc_node_packet(v: NodePacketView) -> Seq<u8> {
    match v {
        NodePacketView::Onion(p) => seq![0u8] + senc_onion_packet(p),
        NodePacketView::OnionResponse(r) => seq![1u8] + senc_onion_response(r),
        NodePacketView::Discovery(m) => seq![2u8] + senc_discovery(m),
    }
}

pub open spec fn sdec_u8(s: Seq<u8>, i: int) -> Option<(u8, int)> {
    if 0 <= i && i + 1 <= s.len() {
        Some((s[i], i + 1))
    } else {
        None
    }
}

pub open spec fn sdec_protocol(s: Seq<u8>, i: int) -> Option<(PeerProtocol, int)> {
    if 0 <= i && i + 1 <= s.len() {
        if s[i] == 0 {
            Some((PeerProtocol::Ws, i + 1))
        } else if s[i] == 1 {
            Some((PeerProtocol::Wss, i + 1))
        } else if s[i] == 2 {
            Some((PeerProtocol::Arson, i + 1))
        } else {
            None
        }
    } else {
        None
    }
}

pub open spec fn sdec_protocol_list(s: Seq<u8>, i: int, n: nat) -> Option<(Seq<PeerProtocol>, int)>
    decreases n,
{
    if n == 0 {
        Some((Seq::empty(), i))
    } else {
        match sdec_protocol(s, i) {
            Some((p, j)) => match sdec_protocol_list(s, j, (n - 1) as nat) {
                Some((rest, k)) => Some((seq![p] + rest, k)),
                None => None,
            },
            None => None,
        }
    }
}

pub open spec fn sdec_protocols(s: Seq<u8>, i: int) -> Option<(Seq<PeerProtocol>, int)> {
    match sdec_u32(s, i) {
        Some((n, j)) => sdec_protocol_list(s, j, n as nat),
        None => None,
    }
}

pub open spec fn sdec_opt_key(s: Seq<u8>, i: int) -> Option<(Option<Seq<u8>>, int)> {
    match sdec_bool(s, i) {
        Some((present, j)) => {
            if present {
                match sdec_fixed(s, j, 32) {
                    Some((k, m)) => Some((Some(k), m)),
                    None => None,
                }
            } else {
                Some((None, j))
            }
        },
        None => None,
    }
}

pub open spec fn sdec_peer_node(s: Seq<u8>, i: int) -> Option<(PeerNodeView, int)> {
    match sdec_opt_bytes(s, i) {
        Some((name, i1)) => match sdec_bytes(s, i1) {
            Some((pubkey, i2)) => match sdec_bytes(s, i2) {
                Some((address, i3)) => match sdec_u16(s, i3) {
                    Some((http_port, i4)) => match sdec_u16(s, i4) {
                        Some((arson_port, i5)) => match sdec_bool(s, i5) {
                            Some((secure, i6)) => match sdec_protocols(s, i6) {
                                Some((protocols, i7)) => match sdec_opt_bytes(s, i7) {
                                    Some((version, i8)) => match sdec_opt_u64(s, i8) {
                                        Some((last_seen, i9)) => match sdec_bool(s, i9) {
                                            Some((is_connected, i10)) => Some(
                                                (
                                                    PeerNodeView {
                                                        name,
                                                        pubkey,
                                                        address,
                                                        http_port,
                                                        arson_port,
                                                        secure,
                                                        protocols,
                                                        version,
                                                        last_seen,
                                                        is_connected,
                                                    },
                                                    i10,
                                                ),
                                            ),
                                            None => None,
                                        },
                                        None => None,
                                    },
                                    None => None,
                                },
                                None => None,
                            },
                            None => None,
                        },
                        None => None,
                    },
                    None => None,
                },
                None => None,
            },
            None => None,
        },
        None => None,
    }
}

pub open spec fn sdec_signed_node(s: Seq<u8>, i: int) -> Option<(SignedNodeView, int)> {
    match sdec_peer_node(s, i) {
        Some((node, j)) => match sdec_bytes(s, j) {
            Some((signature, k)) => Some((SignedNodeView { node, signature }, k)),
            None => None,
        },
        None => None,
    }
}

pub open spec fn sdec_known_peer(s: Seq<u8>, i: int) -> Option<(KnownPeerView, int)> {
    match sdec_peer_node(s, i) {
        Some((node, i1)) => match sdec_opt_key(s, i1) {
            Some((x25519_pubkey, i2)) => match sdec_u64(s, i2) {
                Some((last_ping, i3)) => match sdec_opt_u32(s, i3) {
                    Some((latency_ms, i4)) => match sdec_u8(s, i4) {
                        Some((trust_score, i5)) => match sdec_u32(s, i5) {
                            Some((failed_attempts, i6)) => Some(
                                (
                                    KnownPeerView {
                                        node,
                                        x25519_pubkey,
                                        last_ping,
                                        latency_ms,
                                        trust_score,
                                        failed_attempts,
                                    },
                                    i6,
                                ),
                            ),
                            None => None,
                        },
                        None => None,
                    },
                    None => None,
                },
                None => None,
            },
            None => None,
        },
        None => None,
    }
}

pub open spec fn sdec_known_peer_list(s: Seq<u8>, i: int, n: nat) -> Option<
    (Seq<KnownPeerView>, int),
>
    decreases n,
{
    if n == 0 {
        Some((Seq::empty(), i))
    } else {
        match sdec_known_peer(s, i) {
            Some((p, j)) => match sdec_known_peer_list(s, j, (n - 1) as nat) {
                Some((rest, k)) => Some((seq![p] + rest, k)),
                None => None,
            },
            None => None,
        }
    }
}

pub open spec fn sdec_discovery(s: Seq<u8>, i: int) -> Option<(DiscoveryMessageView, int)> {
    match sdec_u8(s, i) {
        Some((tag, j)) => {
            if tag == 0 {
                match sdec_signed_node(s, j) {
                    Some((node, k)) => match sdec_fixed(s, k, 32) {
                        Some((x25519_pubkey, m)) => Some(
                            (DiscoveryMessageView::Announce { node, x25519_pubkey }, m),
                        ),
                        None => None,
                    },
                    None => None,
                }
            } else if tag == 1 {
                match sdec_u16(s, j) {
                    Some((max_count, k)) => Some((DiscoveryMessageView::GetPeers { max_count }, k)),
                    None => None,
                }
            } else if tag == 2 {
                match sdec_u32(s, j) {
                    Some((n, k)) => match sdec_known_peer_list(s, k, n as nat) {
                        Some((peers, m)) => Some((DiscoveryMessageView::PeerList { peers }, m)),
                        None => None,
                    },
                    None => None,
                }
            } else if tag == 3 {
                match sdec_u64(s, j) {
                    Some((timestamp, k)) => match sdec_fixed(s, k, 8) {
                        Some((nonce, m)) => Some(
                            (DiscoveryMessageView::Ping { timestamp, nonce }, m),
                        ),
                        None => None,
                    },
                    None => None,
                }
            } else if tag == 4 {
                match sdec_u64(s, j) {
                    Some((timestamp, k)) => match sdec_fixed(s, k, 8) {
                        Some((nonce, m)) => match sdec_u64(s, m) {
                            Some((original_timestamp, p)) => Some(
                                (
                                    DiscoveryMessageView::Pong {
                                        timestamp,
                                        nonce,
                                        original_timestamp,
                                    },
                                    p,
                                ),
                            ),
                            None => None,
                        },
                        None => None,
                    },
                    None => None,
                }
            } else {
                None
            }
        },
        None => None,
    }
}

pub open spec fn sdec_node_packet(s: Seq<u8>, i: int) -> Option<(NodePacketView, int)> {
    match sdec_u8(s, i) {
        Some((tag, j)) => {
            if tag == 0 {
                match sdec_onion_packet(s, j) {
                    Some((p, k)) => Some((NodePacketView::Onion(p), k)),
                    None => None,
                }
            } else if tag == 1 {
                match sdec_onion_response(s, j) {
                    Some((r, k)) => Some((NodePacketView::OnionResponse(r), k)),
                    None => None,
                }
            } else if tag == 2 {
                match sdec_discovery(s, j) {
                    Some((m, k)) => Some((NodePacketView::Discovery(m), k)),
                    None => None,
                }
            } else {
                None
            }
        },
        None => None,
    }
}

// ---------------------------------------------------------------------------
// Round-trip lemmas for peer and discovery types
// ---------------------------------------------------------------------------

pub proof fn lemma_senc_protocol_list_len(ps: Seq<PeerProtocol>)
    ensures
        senc_protocol_list(ps).len() == ps.len(),
    decreases ps.len(),
{
    if ps.len() == 0 {
    } else {
        lemma_senc_protocol_list_len(ps.subrange(1, ps.len() as int));
    }
}

pub proof fn lemma_snoc_protocol_list(ps: Seq<PeerProtocol>, p: PeerProtocol)
    ensures
        senc_protocol_list(ps.push(p)) == senc_protocol_list(ps) + seq![protocol_tag(p)],
    decreases ps.len(),
{
    let whole = ps.push(p);
    if ps.len() == 0 {
        let e = whole.subrange(1, 1int);
        assert(e =~= Seq::<PeerProtocol>::empty());
        assert(senc_protocol_list(e) == Seq::<u8>::empty());
        assert(senc_protocol_list(whole) == seq![protocol_tag(p)] + senc_protocol_list(e));
        assert(senc_protocol_list(ps) == Seq::<u8>::empty());
        assert(seq![protocol_tag(p)] + Seq::<u8>::empty() =~= Seq::<u8>::empty() + seq![
            protocol_tag(p),
        ]);
    } else {
        let tail = ps.subrange(1, ps.len() as int);
        assert(whole[0] == ps[0]);
        assert(whole.subrange(1, whole.len() as int) =~= tail.push(p));
        lemma_snoc_protocol_list(tail, p);
        let a: Seq<u8> = seq![protocol_tag(ps[0])];
        let b = senc_protocol_list(tail);
        let c: Seq<u8> = seq![protocol_tag(p)];
        assert(senc_protocol_list(whole) == a + (b + c));
        assert(a + (b + c) =~= (a + b) + c);
        assert(senc_protocol_list(ps) == a + b);
    }
}

#[verifier::rlimit(80)]
pub proof fn lemma_snoc_known_peer_list(ps: Seq<KnownPeerView>, p: KnownPeerView)
    ensures
        senc_known_peer_list(ps.push(p)) == senc_known_peer_list(ps) + senc_known_peer(p),
    decreases ps.len(),
{
    let whole = ps.push(p);
    if ps.len() == 0 {
        let e = whole.subrange(1, 1int);
        assert(e =~= Seq::<KnownPeerView>::empty());
        assert(senc_known_peer_list(e) == Seq::<u8>::empty());
        assert(senc_known_peer_list(whole) == senc_known_peer(p) + senc_known_peer_list(e));
        assert(senc_known_peer_list(ps) == Seq::<u8>::empty());
        assert(senc_known_peer(p) + Seq::<u8>::empty() =~= Seq::<u8>::empty() + senc_known_peer(p));
    } else {
        let tail = ps.subrange(1, ps.len() as int);
        assert(whole[0] == ps[0]);
        assert(whole.subrange(1, whole.len() as int) =~= tail.push(p));
        lemma_snoc_known_peer_list(tail, p);
        let a = senc_known_peer(ps[0]);
        let b = senc_known_peer_list(tail);
        let c = senc_known_peer(p);
        assert(senc_known_peer_list(whole) == a + (b + c));
        assert(a + (b + c) =~= (a + b) + c);
        assert(senc_known_peer_list(ps) == a + b);
    }
}

pub proof fn lemma_rt_u8(s: Seq<u8>, i: int, x: u8)
    requires
        0 <= i,
        i + 1 <= s.len(),
        s.subrange(i, i + 1) == seq![x],
    ensures
        sdec_u8(s, i) == Some((x, i + 1)),
{
    assert(s[i] == x) by {
        assert(s.subrange(i, i + 1)[0] == s[i]);
    }
}

pub proof fn lemma_rt_protocol(s: Seq<u8>, i: int, p: PeerProtocol)
    requires
        0 <= i,
        i + 1 <= s.len(),
        s.subrange(i, i + 1) == seq![protocol_tag(p)],
    ensures
        sdec_protocol(s, i) == Some((p, i + 1)),
{
    assert(s[i] == protocol_tag(p)) by {
        assert(s.subrange(i, i + 1)[0] == s[i]);
    }
}

pub proof fn lemma_rt_protocol_list(s: Seq<u8>, i: int, ps: Seq<PeerProtocol>)
    requires
        0 <= i,
        i + senc_protocol_list(ps).len() <= s.len(),
        s.subrange(i, i + senc_protocol_list(ps).len()) == senc_protocol_list(ps),
    ensures
        sdec_protocol_list(s, i, ps.len()) == Some((ps, i + senc_protocol_list(ps).len())),
    decreases ps.len(),
{
    if ps.len() == 0 {
        assert(sdec_protocol_list(s, i, 0) == Some((Seq::<PeerProtocol>::empty(), i)));
        assert(ps =~= Seq::<PeerProtocol>::empty());
    } else {
        let tail = ps.subrange(1, ps.len() as int);
        let e1: Seq<u8> = seq![protocol_tag(ps[0])];
        let e2 = senc_protocol_list(tail);
        lemma_split_at(s, i, e1, e2);
        lemma_rt_protocol(s, i, ps[0]);
        lemma_rt_protocol_list(s, i + 1, tail);
        assert(seq![ps[0]] + tail =~= ps);
    }
}

pub proof fn lemma_rt_protocols(s: Seq<u8>, i: int, ps: Seq<PeerProtocol>)
    requires
        0 <= i,
        ps.len() < 4294967296,
        i + senc_protocols(ps).len() <= s.len(),
        s.subrange(i, i + senc_protocols(ps).len()) == senc_protocols(ps),
    ensures
        sdec_protocols(s, i) == Some((ps, i + senc_protocols(ps).len())),
{
    let n = ps.len() as u32;
    lemma_split_at(s, i, spec_u32_le(n), senc_protocol_list(ps));
    lemma_rt_u32(s, i, n);
    lemma_rt_protocol_list(s, i + 4, ps);
}

pub proof fn lemma_rt_opt_key(s: Seq<u8>, i: int, o: Option<Seq<u8>>)
    requires
        0 <= i,
        (match o {
            Some(k) => k.len() == 32,
            None => true,
        }),
        i + senc_opt_key(o).len() <= s.len(),
        s.subrange(i, i + senc_opt_key(o).len()) == senc_opt_key(o),
    ensures
        sdec_opt_key(s, i) == Some((o, i + senc_opt_key(o).len())),
{
    match o {
        Some(k) => {
            lemma_split_at(s, i, senc_bool(true), k);
            lemma_rt_bool(s, i, true);
            lemma_rt_fixed(s, i + 1, k);
        },
        None => {
            lemma_rt_bool(s, i, false);
        },
    }
}

pub proof fn lemma_rt_peer_node(s: Seq<u8>, i: int, v: PeerNodeView)
    requires
        0 <= i,
        wf_peer_node(v),
        i + senc_peer_node(v).len() <= s.len(),
        s.subrange(i, i + senc_peer_node(v).len()) == senc_peer_node(v),
    ensures
        sdec_peer_node(s, i) == Some((v, i + senc_peer_node(v).len())),
{
    let e1 = senc_opt_bytes(v.name);
    let e2 = senc_bytes(v.pubkey);
    let e3 = senc_bytes(v.address);
    let e4 = spec_u16_le(v.http_port);
    let e5 = spec_u16_le(v.arson_port);
    let e6 = senc_bool(v.secure);
    let e7 = senc_protocols(v.protocols);
    let e8 = senc_opt_bytes(v.version);
    let e9 = senc_opt_u64(v.last_seen);
    let e10 = senc_bool(v.is_connected);
    let i1 = i + e1.len();
    let i2 = i1 + e2.len();
    let i3 = i2 + e3.len();
    let i4 = i3 + e4.len();
    let i5 = i4 + e5.len();
    let i6 = i5 + e6.len();
    let i7 = i6 + e7.len();
    let i8 = i7 + e8.len();
    let i9 = i8 + e9.len();
    lemma_split_at(s, i, e1 + e2 + e3 + e4 + e5 + e6 + e7 + e8 + e9, e10);
    lemma_split_at(s, i, e1 + e2 + e3 + e4 + e5 + e6 + e7 + e8, e9);
    lemma_split_at(s, i, e1 + e2 + e3 + e4 + e5 + e6 + e7, e8);
    lemma_split_at(s, i, e1 + e2 + e3 + e4 + e5 + e6, e7);
    lemma_split_at(s, i, e1 + e2 + e3 + e4 + e5, e6);
    lemma_split_at(s, i, e1 + e2 + e3 + e4, e5);
    lemma_split_at(s, i, e1 + e2 + e3, e4);
    lemma_split_at(s, i, e1 + e2, e3);
    lemma_split_at(s, i, e1, e2);
    lemma_rt_opt_bytes(s, i, v.name);
    lemma_rt_bytes(s, i1, v.pubkey);
    lemma_rt_bytes(s, i2, v.address);
    lemma_rt_u16(s, i3, v.http_port);
    lemma_rt_u16(s, i4, v.arson_port);
    lemma_rt_bool(s, i5, v.secure);
    lemma_rt_protocols(s, i6, v.protocols);
    lemma_rt_opt_bytes(s, i7, v.version);
    lemma_rt_opt_u64(s, i8, v.last_seen);
    lemma_rt_bool(s, i9, v.is_connected);
}

pub proof fn lemma_rt_signed_node(s: Seq<u8>, i: int, v: SignedNodeView)
    requires
        0 <= i,
        wf_signed_node(v),
        i + senc_signed_node(v).len() <= s.len(),
        s.subrange(i, i + senc_signed_node(v).len()) == senc_signed_node(v),
    ensures
        sdec_signed_node(s, i) == Some((v, i + senc_signed_node(v).len())),
{
    let e1 = senc_peer_node(v.node);
    let e2 = senc_bytes(v.signature);
    lemma_split_at(s, i, e1, e2);
    lemma_rt_peer_node(s, i, v.node);
    lemma_rt_bytes(s, i + e1.len(), v.signature);
}

pub proof fn lemma_rt_known_peer(s: Seq<u8>, i: int, v: KnownPeerView)
    requires
        0 <= i,
        wf_known_peer(v),
        i + senc_known_peer(v).len() <= s.len(),
        s.subrange(i, i + senc_known_peer(v).len()) == senc_known_peer(v),
    ensures
        sdec_known_peer(s, i) == Some((v, i + senc_known_peer(v).len())),
{
    let e1 = senc_peer_node(v.node);
    let e2 = senc_opt_key(v.x25519_pubkey);
    let e3 = spec_u64_le(v.last_ping);
    let e4 = senc_opt_u32(v.latency_ms);
    let e5: Seq<u8> = seq![v.trust_score];
    let e6 = spec_u32_le(v.failed_attempts);
    let i1 = i + e1.len();
    let i2 = i1 + e2.len();
    let i3 = i2 + e3.len();
    let i4 = i3 + e4.len();
    let i5 = i4 + e5.len();
    lemma_split_at(s, i, e1 + e2 + e3 + e4 + e5, e6);
    lemma_split_at(s, i, e1 + e2 + e3 + e4, e5);
    lemma_split_at(s, i, e1 + e2 + e3, e4);
    lemma_split_at(s, i, e1 + e2, e3);
    lemma_split_at(s, i, e1, e2);
    lemma_rt_peer_node(s, i, v.node);
    lemma_rt_opt_key(s, i1, v.x25519_pubkey);
    lemma_rt_u64(s, i2, v.last_ping);
    lemma_rt_opt_u32(s, i3, v.latency_ms);
    lemma_rt_u8(s, i4, v.trust_score);
    lemma_rt_u32(s, i5, v.failed_attempts);
}

#[verifier::rlimit(100)]
#[verifier::spinoff_prover]
pub proof fn lemma_rt_known_peer_list(s: Seq<u8>, i: int, ps: Seq<KnownPeerView>)
    requires
        0 <= i,
        forall|k: int| 0 <= k < ps.len() ==> wf_known_peer(#[trigger] ps[k]),
        i + senc_known_peer_list(ps).len() <= s.len(),
        s.subrange(i, i + senc_known_peer_list(ps).len()) == senc_known_peer_list(ps),
    ensures
        sdec_known_peer_list(s, i, ps.len()) == Some((ps, i + senc_known_peer_list(ps).len())),
    decreases ps.len(),
{
    if ps.len() == 0 {
        assert(ps =~= Seq::<KnownPeerView>::empty());
    } else {
        let tail = ps.subrange(1, ps.len() as int);
        let e1 = senc_known_peer(ps[0]);
        let e2 = senc_known_peer_list(tail);
        lemma_split_at(s, i, e1, e2);
        lemma_rt_known_peer(s, i, ps[0]);
        assert(forall|k: int| 0 <= k < tail.len() ==> wf_known_peer(#[trigger] tail[k]));
        lemma_rt_known_peer_list(s, i + e1.len(), tail);
        assert(seq![ps[0]] + tail =~= ps);
    }
}

#[verifier::rlimit(80)]
pub proof fn lemma_rt_discovery(s: Seq<u8>, i: int, m: DiscoveryMessageView)
    requires
        0 <= i,
        wf_discovery(m),
        i + senc_discovery(m).len() <= s.len(),
        s.subrange(i, i + senc_discovery(m).len()) == senc_discovery(m),
    ensures
        sdec_discovery(s, i) == Some((m, i + senc_discovery(m).len())),
{
    match m {
        DiscoveryMessageView::Announce { node, x25519_pubkey } => {
            let e1: Seq<u8> = seq![0u8];
            let e2 = senc_signed_node(node);
            let e3 = x25519_pubkey;
            lemma_split_at(s, i, e1 + e2, e3);
            lemma_split_at(s, i, e1, e2);
            lemma_rt_u8(s, i, 0u8);
            lemma_rt_signed_node(s, i + 1, node);
            lemma_rt_fixed(s, i + 1 + e2.len(), e3);
        },
        DiscoveryMessageView::GetPeers { max_count } => {
            let e1: Seq<u8> = seq![1u8];
            let e2 = spec_u16_le(max_count);
            lemma_split_at(s, i, e1, e2);
            lemma_rt_u8(s, i, 1u8);
            lemma_rt_u16(s, i + 1, max_count);
        },
        DiscoveryMessageView::PeerList { peers } => {
            let e1: Seq<u8> = seq![2u8];
            let e2 = spec_u32_le(peers.len() as u32);
            let e3 = senc_known_peer_list(peers);
            lemma_split_at(s, i, e1 + e2, e3);
            lemma_split_at(s, i, e1, e2);
            lemma_rt_u8(s, i, 2u8);
            lemma_rt_u32(s, i + 1, peers.len() as u32);
            lemma_rt_known_peer_list(s, i + 5, peers);
        },
        DiscoveryMessageView::Ping { timestamp, nonce } => {
            let e1: Seq<u8> = seq![3u8];
            let e2 = spec_u64_le(timestamp);
            let e3 = nonce;
            lemma_split_at(s, i, e1 + e2, e3);
            lemma_split_at(s, i, e1, e2);
            lemma_rt_u8(s, i, 3u8);
            lemma_rt_u64(s, i + 1, timestamp);
            lemma_rt_fixed(s, i + 9, nonce);
        },
        DiscoveryMessageView::Pong { timestamp, nonce, original_timestamp } => {
            let e1: Seq<u8> = seq![4u8];
            let e2 = spec_u64_le(timestamp);
            let e3 = nonce;
            let e4 = spec_u64_le(original_timestamp);
            lemma_split_at(s, i, e1 + e2 + e3, e4);
            lemma_split_at(s, i, e1 + e2, e3);
            lemma_split_at(s, i, e1, e2);
            lemma_rt_u8(s, i, 4u8);
            lemma_rt_u64(s, i + 1, timestamp);
            lemma_rt_fixed(s, i + 9, nonce);
            lemma_rt_u64(s, i + 17, original_timestamp);
        },
    }
}

pub proof fn lemma_rt_node_packet(s: Seq<u8>, i: int, v: NodePacketView)
    requires
        0 <= i,
        wf_node_packet(v),
        i + senc_node_packet(v).len() <= s.len(),
        s.subrange(i, i + senc_node_packet(v).len()) == senc_node_packet(v),
    ensures
        sdec_node_packet(s, i) == Some((v, i + senc_node_packet(v).len())),
{
    match v {
        NodePacketView::Onion(p) => {
            let e1: Seq<u8> = seq![0u8];
            let e2 = senc_onion_packet(p);
            lemma_split_at(s, i, e1, e2);
            lemma_rt_u8(s, i, 0u8);
            lemma_rt_onion_packet(s, i + 1, p);
        },
        NodePacketView::OnionResponse(r) => {
            let e1: Seq<u8> = seq![1u8];
            let e2 = senc_onion_response(r);
            lemma_split_at(s, i, e1, e2);
            lemma_rt_u8(s, i, 1u8);
            lemma_rt_onion_response(s, i + 1, r);
        },
        NodePacketView::Discovery(m) => {
            let e1: Seq<u8> = seq![2u8];
            let e2 = senc_discovery(m);
            lemma_split_at(s, i, e1, e2);
            lemma_rt_u8(s, i, 2u8);
            lemma_rt_discovery(s, i + 1, m);
        },
    }
}

/// Decoding the encoding of any well-formed packet-union value yields the
/// value back and consumes the encoding exactly; re-encoding the decoded
/// value therefore reproduces the bytes unchanged.
pub proof fn lemma_packet_round_trip(v: NodePacketView)
    requires
        wf_node_packet(v),
    ensures
        sdec_node_packet(senc_node_packet(v), 0) == Some(
            (v, senc_node_packet(v).len() as int),
        ),
{
    let s = senc_node_packet(v);
    assert(s.subrange(0, s.len() as int) =~= s);
    lemma_rt_node_packet(s, 0, v);
}


// ---------------------------------------------------------------------------
// Exec encoders and decoders for peer and discovery types
// ---------------------------------------------------------------------------

/// Spec image of a vector of registry records.
pub open spec fn views_of_peers(ps: Seq<KnownPeer>) -> Seq<KnownPeerView> {
    ps.map_values(|p: KnownPeer| p@)
}

/// Prepends decoded elements to the result of decoding a remainder.
pub open spec fn dec_prepend<T>(prefix: Seq<T>, r: Option<(Seq<T>, int)>) -> Option<(Seq<T>, int)> {
    match r {
        Some((rest, k)) => Some((prefix + rest, k)),
        None => None,
    }
}

pub proof fn lemma_dec_prepend_assoc<T>(a: Seq<T>, b: Seq<T>, r: Option<(Seq<T>, int)>)
    ensures
        dec_prepend(a, dec_prepend(b, r)) == dec_prepend(a + b, r),
{
    match r {
        Some((rest, k)) => {
            assert(a + (b + rest) =~= (a + b) + rest);
        },
        None => {},
    }
}

pub fn enc_protocols(out: &mut Vec<u8>, ps: &Vec<PeerProtocol>)
    requires
        ps@.len() < 4294967296,
    ensures
        final(out)@ == old(out)@ + senc_protocols(ps@),
{
    push_u32_le(out, ps.len() as u32);
    let n = ps.len();
    let mut i: usize = 0;
    while i < n
        invariant
            i <= n,
            n == ps@.len(),
            n < 4294967296,
            out@ == old(out)@ + spec_u32_le(ps@.len() as u32) + senc_protocol_list(
                ps@.subrange(0, i as int),
            ),
        decreases n - i,
    {
        let tag: u8 = match ps[i] {
            PeerProtocol::Ws => 0,
            PeerProtocol::Wss => 1,
            PeerProtocol::Arson => 2,
        };
        out.push(tag);
        proof {
            lemma_snoc_protocol_list(ps@.subrange(0, i as int), ps@[i as int]);
            assert(ps@.subrange(0, i + 1) =~= ps@.subrange(0, i as int).push(ps@[i as int]));
        }
        i = i + 1;
        assert(out@ =~= old(out)@ + spec_u32_le(ps@.len() as u32) + senc_protocol_list(
            ps@.subrange(0, i as int),
        ));
    }
    assert(ps@.subrange(0, n as int) =~= ps@);
    assert(out@ =~= old(out)@ + senc_protocols(ps@));
}

pub fn enc_opt_key(out: &mut Vec<u8>, o: &Option<Vec<u8>>)
    requires
        (match o {
            Some(k) => k@.len() == 32,
            None => true,
        }),
    ensures
        final(out)@ == old(out)@ + senc_opt_key(view_opt_bytes(*o)),
{
    match o {
        Some(k) => {
            enc_bool(out, true);
            push_bytes(out, k);
        },
        None => {
            enc_bool(out, false);
        },
    }
    assert(out@ =~= old(out)@ + senc_opt_key(view_opt_bytes(*o)));
}

#[verifier::rlimit(80)]
pub fn enc_peer_node(out: &mut Vec<u8>, v: &PeerNode)
    requires
        wf_peer_node(v@),
    ensures
        final(out)@ == old(out)@ + senc_peer_node(v@),
{
    enc_opt_bytes(out, &v.name);
    enc_bytes(out, &v.pubkey);
    enc_bytes(out, &v.address);
    push_u16_le(out, v.http_port);
    push_u16_le(out, v.arson_port);
    enc_bool(out, v.secure);
    enc_protocols(out, &v.protocols);
    enc_opt_bytes(out, &v.version);
    enc_opt_u64(out, &v.last_seen);
    enc_bool(out, v.is_connected);
    assert(out@ =~= old(out)@ + senc_peer_node(v@));
}

pub fn enc_signed_node(out: &mut Vec<u8>, v: &SignedNode)
    requires
        wf_signed_node(v@),
    ensures
        final(out)@ == old(out)@ + senc_signed_node(v@),
{
    enc_peer_node(out, &v.node);
    enc_bytes(out, &v.signature);
    assert(out@ =~= old(out)@ + senc_signed_node(v@));
}

#[verifier::rlimit(80)]
pub fn enc_known_peer(out: &mut Vec<u8>, v: &KnownPeer)
    requires
        wf_known_peer(v@),
    ensures
        final(out)@ == old(out)@ + senc_known_peer(v@),
{
    enc_peer_node(out, &v.node);
    enc_opt_key(out, &v.x25519_pubkey);
    push_u64_le(out, v.last_ping);
    enc_opt_u32(out, &v.latency_ms);
    out.push(v.trust_score);
    push_u32_le(out, v.failed_attempts);
    assert(out@ =~= old(out)@ + senc_known_peer(v@));
}

pub fn enc_known_peer_list(out: &mut Vec<u8>, ps: &Vec<KnownPeer>)
    requires
        forall|k: int| 0 <= k < ps@.len() ==> wf_known_peer(#[trigger] ps@[k]@),
    ensures
        final(out)@ == old(out)@ + senc_known_peer_list(views_of_peers(ps@)),
{
    let n = ps.len();
    let mut i: usize = 0;
    while i < n
        invariant
            i <= n,
            n == ps@.len(),
            forall|k: int| 0 <= k < ps@.len() ==> wf_known_peer(#[trigger] ps@[k]@),
            out@ == old(out)@ + senc_known_peer_list(views_of_peers(ps@.subrange(0, i as int))),
        decreases n - i,
    {
        enc_known_peer(out, &ps[i]);
        proof {
            lemma_snoc_known_peer_list(views_of_peers(ps@.subrange(0, i as int)), ps@[i as int]@);
            assert(views_of_peers(ps@.subrange(0, i + 1)) =~= views_of_peers(
                ps@.subrange(0, i as int),
            ).push(ps@[i as int]@));
        }
        i = i + 1;
        assert(out@ =~= old(out)@ + senc_known_peer_list(
            views_of_peers(ps@.subrange(0, i as int)),
        ));
    }
    assert(ps@.subrange(0, n as int) =~= ps@);
}

pub fn enc_discovery(out: &mut Vec<u8>, m: &DiscoveryMessage)
    requires
        wf_discovery(m@),
    ensures
        final(out)@ == old(out)@ + senc_discovery(m@),
{
    match m {
        DiscoveryMessage::Announce { node, x25519_pubkey } => {
            out.push(0);
            enc_signed_node(out, node);
            push_bytes(out, x25519_pubkey);
        },
        DiscoveryMessage::GetPeers { max_count } => {
            out.push(1);
            push_u16_le(out, *max_count);
        },
        DiscoveryMessage::PeerList { peers } => {
            out.push(2);
            push_u32_le(out, peers.len() as u32);
            proof {
                assert forall|k: int| 0 <= k < peers@.len() implies wf_known_peer(
                    #[trigger] peers@[k]@,
                ) by {
                    assert(views_of_peers(peers@)[k] == peers@[k]@);
                }
            }
            enc_known_peer_list(out, peers);
        },
        DiscoveryMessage::Ping { timestamp, nonce } => {
            out.push(3);
            push_u64_le(out, *timestamp);
            push_bytes(out, nonce);
        },
        DiscoveryMessage::Pong { timestamp, nonce, original_timestamp } => {
            out.push(4);
            push_u64_le(out, *timestamp);
            push_bytes(out, nonce);
            push_u64_le(out, *original_timestamp);
        },
    }
    assert(out@ =~= old(out)@ + senc_discovery(m@));
}

pub fn enc_node_packet(out: &mut Vec<u8>, p: &NodePacket)
    requires
        wf_node_packet(p@),
    ensures
        final(out)@ == old(out)@ + senc_node_packet(p@),
{
    match p {
        NodePacket::Onion(q) => {
            out.push(0);
            enc_onion_packet(out, q);
        },
        NodePacket::OnionResponse(r) => {
            out.push(1);
            enc_onion_response(out, r);
        },
        NodePacket::Discovery(m) => {
            out.push(2);
            enc_discovery(out, m);
        },
    }
    assert(out@ =~= old(out)@ + senc_node_packet(p@));
}

// ---------------------------------------------------------------------------
// Exec well-formedness checks
// ---------------------------------------------------------------------------

pub fn check_wf_opt_bytes(o: &Option<Vec<u8>>) -> (r: bool)
    ensures
        r == wf_opt_bytes_v(view_opt_bytes(*o)),
{
    match o {
        Some(b) => fits_u32(b),
        None => true,
    }
}

pub fn check_wf_peer_node(v: &PeerNode) -> (r: bool)
    ensures
        r == wf_peer_node(v@),
{
    check_wf_opt_bytes(&v.name) && fits_u32(&v.pubkey) && fits_u32(&v.address) && (
    v.protocols.len() as u64) < 4294967296u64 && check_wf_opt_bytes(&v.version)
}

pub fn check_wf_signed_node(v: &SignedNode) -> (r: bool)
    ensures
        r == wf_signed_node(v@),
{
    check_wf_peer_node(&v.node) && fits_u32(&v.signature)
}

pub fn check_wf_known_peer(v: &KnownPeer) -> (r: bool)
    ensures
        r == wf_known_peer(v@),
{
    check_wf_peer_node(&v.node) && (match &v.x25519_pubkey {
        Some(k) => k.len() == 32,
        None => true,
    })
}

pub fn check_wf_known_peer_list(ps: &Vec<KnownPeer>) -> (r: bool)
    ensures
        r == wf_known_peer_list(views_of_peers(ps@)),
{
    if !((ps.len() as u64) < 4294967296u64) {
        return false;
    }
    let n = ps.len();
    let mut i: usize = 0;
    while i < n
        invariant
            i <= n,
            n == ps@.len(),
            forall|k: int| 0 <= k < i ==> wf_known_peer(#[trigger] views_of_peers(ps@)[k]),
        decreases n - i,
    {
        if !check_wf_known_peer(&ps[i]) {
            assert(!wf_known_peer(views_of_peers(ps@)[i as int]));
            return false;
        }
        assert(wf_known_peer(views_of_peers(ps@)[i as int]));
        i = i + 1;
    }
    true
}

pub fn check_wf_onion_packet(v: &OnionPacket) -> (r: bool)
    ensures
        r == wf_onion_packet(v@),
{
    v.packet_id.len() == 16 && v.ephemeral_pubkey.len() == 32 && v.nonce.len() == 12 && fits_u32(
        &v.encrypted_payload,
    )
}

pub fn check_wf_onion_response(v: &OnionResponse) -> (r: bool)
    ensures
        r == wf_onion_response(v@),
{
    v.packet_id.len() == 16 && v.nonce.len() == 12 && fits_u32(&v.encrypted_response)
}

pub fn check_wf_next_hop(v: &NextHop) -> (r: bool)
    ensures
        r == wf_next_hop(v@),
{
    fits_u32(&v.address) && fits_u32(&v.pubkey)
}

pub fn check_wf_onion_layer(v: &OnionLayer) -> (r: bool)
    ensures
        r == wf_onion_layer(v@),
{
    (match &v.next_hop {
        Some(h) => check_wf_next_hop(h),
        None => true,
    }) && fits_u32(&v.inner_packet)
}

pub fn check_wf_routed_message(v: &RoutedMessage) -> (r: bool)
    ensures
        r == wf_routed_message(v@),
{
    fits_u32(&v.payload)
}

pub fn check_wf_discovery(m: &DiscoveryMessage) -> (r: bool)
    ensures
        r == wf_discovery(m@),
{
    match m {
        DiscoveryMessage::Announce { node, x25519_pubkey } => check_wf_signed_node(node)
            && x25519_pubkey.len() == 32,
        DiscoveryMessage::GetPeers { .. } => true,
        DiscoveryMessage::PeerList { peers } => check_wf_known_peer_list(peers),
        DiscoveryMessage::Ping { nonce, .. } => nonce.len() == 8,
        DiscoveryMessage::Pong { nonce, .. } => nonce.len() == 8,
    }
}

pub fn check_wf_packet(p: &NodePacket) -> (r: bool)
    ensures
        r == wf_node_packet(p@),
{
    match p {
        NodePacket::Onion(q) => check_wf_onion_packet(q),
        NodePacket::OnionResponse(r2) => check_wf_onion_response(r2),
        NodePacket::Discovery(m) => check_wf_discovery(m),
    }
}

// ---------------------------------------------------------------------------
// Exec decoders for peer and discovery types
// ---------------------------------------------------------------------------

pub fn dec_u8(s: &Vec<u8>, i: usize) -> (r: Option<(u8, usize)>)
    ensures
        (match r {
            Some((x, j)) => sdec_u8(s@, i as int) == Some((x, j as int)),
            None => sdec_u8(s@, i as int) is None,
        }),
{
    if i < s.len() {
        Some((s[i], i + 1))
    } else {
        None
    }
}

pub fn dec_protocol(s: &Vec<u8>, i: usize) -> (r: Option<(PeerProtocol, usize)>)
    ensures
        (match r {
            Some((p, j)) => sdec_protocol(s@, i as int) == Some((p, j as int)),
            None => sdec_protocol(s@, i as int) is None,
        }),
{
    if i < s.len() {
        if s[i] == 0 {
            Some((PeerProtocol::Ws, i + 1))
        } else if s[i] == 1 {
            Some((PeerProtocol::Wss, i + 1))
        } else if s[i] == 2 {
            Some((PeerProtocol::Arson, i + 1))
        } else {
            None
        }
    } else {
        None
    }
}

pub fn dec_protocol_list(s: &Vec<u8>, i: usize, n: u32) -> (r: Option<(Vec<PeerProtocol>, usize)>)
    ensures
        (match r {
            Some((ps, j)) => sdec_protocol_list(s@, i as int, n as nat) == Some((ps@, j as int)),
            None => sdec_protocol_list(s@, i as int, n as nat) is None,
        }),
{
    let mut acc: Vec<PeerProtocol> = Vec::new();
    let mut pos: usize = i;
    let mut cnt: u32 = 0;
    while cnt < n
        invariant
            cnt <= n,
            sdec_protocol_list(s@, i as int, n as nat) == dec_prepend(
                acc@,
                sdec_protocol_list(s@, pos as int, (n - cnt) as nat),
            ),
        decreases n - cnt,
    {
        let ghost m = (n - cnt) as nat;
        match dec_protocol(s, pos) {
            Some((p, j)) => {
                proof {
                    assert(sdec_protocol_list(s@, pos as int, m) == dec_prepend(
                        seq![p],
                        sdec_protocol_list(s@, j as int, (m - 1) as nat),
                    ));
                    lemma_dec_prepend_assoc(
                        acc@,
                        seq![p],
                        sdec_protocol_list(s@, j as int, (m - 1) as nat),
                    );
                    assert(acc@ + seq![p] =~= acc@.push(p));
                }
                acc.push(p);
                pos = j;
                cnt = cnt + 1;
            },
            None => {
                return None;
            },
        }
    }
    assert(acc@ + Seq::<PeerProtocol>::empty() =~= acc@);
    Some((acc, pos))
}

pub fn dec_protocols(s: &Vec<u8>, i: usize) -> (r: Option<(Vec<PeerProtocol>, usize)>)
    ensures
        (match r {
            Some((ps, j)) => sdec_protocols(s@, i as int) == Some((ps@, j as int)),
            None => sdec_protocols(s@, i as int) is None,
        }),
{
    match dec_u32(s, i) {
        Some((n, j)) => dec_protocol_list(s, j, n),
        None => None,
    }
}

pub fn dec_opt_key(s: &Vec<u8>, i: usize) -> (r: Option<(Option<Vec<u8>>, usize)>)
    ensures
        (match r {
            Some((v, j)) => sdec_opt_key(s@, i as int) == Some((view_opt_bytes(v), j as int)),
            None => sdec_opt_key(s@, i as int) is None,
        }),
{
    match dec_bool(s, i) {
        Some((present, j)) => {
            if present {
                match read_exact(s, j, 32) {
                    Some((k, m)) => Some((Some(k), m)),
                    None => None,
                }
            } else {
                Some((None, j))
            }
        },
        None => None,
    }
}

pub fn dec_peer_node(s: &Vec<u8>, i: usize) -> (r: Option<(PeerNode, usize)>)
    ensures
        (match r {
            Some((v, j)) => sdec_peer_node(s@, i as int) == Some((v@, j as int)),
            None => sdec_peer_node(s@, i as int) is None,
        }),
{
    match dec_opt_bytes(s, i) {
        Some((name, i1)) => match dec_bytes(s, i1) {
            Some((pubkey, i2)) => match dec_bytes(s, i2) {
                Some((address, i3)) => match dec_u16(s, i3) {
                    Some((http_port, i4)) => match dec_u16(s, i4) {
                        Some((arson_port, i5)) => match dec_bool(s, i5) {
                            Some((secure, i6)) => match dec_protocols(s, i6) {
                                Some((protocols, i7)) => match dec_opt_bytes(s, i7) {
                                    Some((version, i8)) => match dec_opt_u64(s, i8) {
                                        Some((last_seen, i9)) => match dec_bool(s, i9) {
                                            Some((is_connected, i10)) => Some(
                                                (
                                                    PeerNode {
                                                        name,
                                                        pubkey,
                                                        address,
                                                        http_port,
                                                        arson_port,
                                                        secure,
                                                        protocols,
                                                        version,
                                                        last_seen,
                                                        is_connected,
                                                    },
                                                    i10,
                                                ),
                                            ),
                                            None => None,
                                        },
                                        None => None,
                                    },
                                    None => None,
                                },
                                None => None,
                            },
                            None => None,
                        },
                        None => None,
                    },
                    None => None,
                },
                None => None,
            },
            None => None,
        },
        None => None,
    }
}

pub fn dec_signed_node(s: &Vec<u8>, i: usize) -> (r: Option<(SignedNode, usize)>)
    ensures
        (match r {
            Some((v, j)) => sdec_signed_node(s@, i as int) == Some((v@, j as int)),
            None => sdec_signed_node(s@, i as int) is None,
        }),
{
    match dec_peer_node(s, i) {
        Some((node, j)) => match dec_bytes(s, j) {
            Some((signature, k)) => Some((SignedNode { node, signature }, k)),
            None => None,
        },
        None => None,
    }
}

pub fn dec_known_peer(s: &Vec<u8>, i: usize) -> (r: Option<(KnownPeer, usize)>)
    ensures
        (match r {
            Some((v, j)) => sdec_known_peer(s@, i as int) == Some((v@, j as int)),
            None => sdec_known_peer(s@, i as int) is None,
        }),
{
    match dec_peer_node(s, i) {
        Some((node, i1)) => match dec_opt_key(s, i1) {
            Some((x25519_pubkey, i2)) => match dec_u64(s, i2) {
                Some((last_ping, i3)) => match dec_opt_u32(s, i3) {
                    Some((latency_ms, i4)) => match dec_u8(s, i4) {
                        Some((trust_score, i5)) => match dec_u32(s, i5) {
                            Some((failed_attempts, i6)) => Some(
                                (
                                    KnownPeer {
                                        node,
                                        x25519_pubkey,
                                        last_ping,
                                        latency_ms,
                                        trust_score,
                                        failed_attempts,
                                    },
                                    i6,
                                ),
                            ),
                            None => None,
                        },
                        None => None,
                    },
                    None => None,
                },
                None => None,
            },
            None => None,
        },
        None => None,
    }
}

pub fn dec_known_peer_list(s: &Vec<u8>, i: usize, n: u32) -> (r: Option<(Vec<KnownPeer>, usize)>)
    ensures
        (match r {
            Some((ps, j)) => sdec_known_peer_list(s@, i as int, n as nat) == Some(
                (views_of_peers(ps@), j as int),
            ),
            None => sdec_known_peer_list(s@, i as int, n as nat) is None,
        }),
{
    let mut acc: Vec<KnownPeer> = Vec::new();
    let mut pos: usize = i;
    let mut cnt: u32 = 0;
    while cnt < n
        invariant
            cnt <= n,
            sdec_known_peer_list(s@, i as int, n as nat) == dec_prepend(
                views_of_peers(acc@),
                sdec_known_peer_list(s@, pos as int, (n - cnt) as nat),
            ),
        decreases n - cnt,
    {
        let ghost m = (n - cnt) as nat;
        match dec_known_peer(s, pos) {
            Some((v, j)) => {
                proof {
                    assert(sdec_known_peer_list(s@, pos as int, m) == dec_prepend(
                        seq![v@],
                        sdec_known_peer_list(s@, j as int, (m - 1) as nat),
                    ));
                    lemma_dec_prepend_assoc(
                        views_of_peers(acc@),
                        seq![v@],
                        sdec_known_peer_list(s@, j as int, (m - 1) as nat),
                    );
                    assert(views_of_peers(acc@) + seq![v@] =~= views_of_peers(acc@.push(v)));
                }
                acc.push(v);
                pos = j;
                cnt = cnt + 1;
            },
            None => {
                return None;
            },
        }
    }
    assert(views_of_peers(acc@) + Seq::<KnownPeerView>::empty() =~= views_of_peers(acc@));
    Some((acc, pos))
}

pub fn dec_discovery(s: &Vec<u8>, i: usize) -> (r: Option<(DiscoveryMessage, usize)>)
    ensures
        (match r {
            Some((m, j)) => sdec_discovery(s@, i as int) == Some((m@, j as int)),
            None => sdec_discovery(s@, i as int) is None,
        }),
{
    match dec_u8(s, i) {
        Some((tag, j)) => {
            if tag == 0 {
                match dec_signed_node(s, j) {
                    Some((node, k)) => match read_exact(s, k, 32) {
                        Some((x25519_pubkey, m)) => Some(
                            (DiscoveryMessage::Announce { node, x25519_pubkey }, m),
                        ),
                        None => None,
                    },
                    None => None,
                }
            } else if tag == 1 {
                match dec_u16(s, j) {
                    Some((max_count, k)) => Some((DiscoveryMessage::GetPeers { max_count }, k)),
                    None => None,
                }
            } else if tag == 2 {
                match dec_u32(s, j) {
                    Some((n, k)) => match dec_known_peer_list(s, k, n) {
                        Some((peers, m)) => Some((DiscoveryMessage::PeerList { peers }, m)),
                        None => None,
                    },
                    None => None,
                }
            } else if tag == 3 {
                match dec_u64(s, j) {
                    Some((timestamp, k)) => match read_exact(s, k, 8) {
                        Some((nonce, m)) => Some((DiscoveryMessage::Ping { timestamp, nonce }, m)),
                        None => None,
                    },
                    None => None,
                }
            } else if tag == 4 {
                match dec_u64(s, j) {
                    Some((timestamp, k)) => match read_exact(s, k, 8) {
                        Some((nonce, m)) => match dec_u64(s, m) {
                            Some((original_timestamp, p)) => Some(
                                (
                                    DiscoveryMessage::Pong {
                                        timestamp,
                                        nonce,
                                        original_timestamp,
                                    },
                                    p,
                                ),
                            ),
                            None => None,
                        },
                        None => None,
                    },
                    None => None,
                }
            } else {
                None
            }
        },
        None => None,
    }
}

pub fn dec_node_packet(s: &Vec<u8>, i: usize) -> (r: Option<(NodePacket, usize)>)
    ensures
        (match r {
            Some((p, j)) => sdec_node_packet(s@, i as int) == Some((p@, j as int)),
            None => sdec_node_packet(s@, i as int) is None,
        }),
{
    match dec_u8(s, i) {
        Some((tag, j)) => {
            if tag == 0 {
                match dec_onion_packet(s, j) {
                    Some((p, k)) => Some((NodePacket::Onion(p), k)),
                    None => None,
                }
            } else if tag == 1 {
                match dec_onion_response(s, j) {
                    Some((r2, k)) => Some((NodePacket::OnionResponse(r2), k)),
                    None => None,
                }
            } else if tag == 2 {
                match dec_discovery(s, j) {
                    Some((m, k)) => Some((NodePacket::Discovery(m), k)),
                    None => None,
                }
            } else {
                None
            }
        },
        None => None,
    }
}

// ---------------------------------------------------------------------------
// Whole-message API and framing
// ---------------------------------------------------------------------------

/// Encodes a packet-union value; refused when a field exceeds the length cap.
pub fn encode_packet(p: &NodePacket) -> (r: Option<Vec<u8>>)
    ensures
        (match r {
            Some(b) => wf_node_packet(p@) && b@ == senc_node_packet(p@),
            None => !wf_node_packet(p@),
        }),
{
    if check_wf_packet(p) {
        let mut out: Vec<u8> = Vec::new();
        enc_node_packet(&mut out, p);
        assert(out@ =~= senc_node_packet(p@));
        Some(out)
    } else {
        None
    }
}

/// Decodes a packet-union value; the bytes must be consumed exactly.
pub fn decode_packet(s: &Vec<u8>) -> (r: Option<NodePacket>)
    ensures
        (match r {
            Some(p) => sdec_node_packet(s@, 0) == Some((p@, s@.len() as int)),
            None => !(sdec_node_packet(s@, 0) matches Some(d) && d.1 == s@.len()),
        }),
{
    match dec_node_packet(s, 0) {
        Some((p, j)) => {
            if j == s.len() {
                Some(p)
            } else {
                None
            }
        },
        None => None,
    }
}

/// Encodes an onion layer; refused when a field exceeds the length cap.
pub fn encode_layer(l: &OnionLayer) -> (r: Option<Vec<u8>>)
    ensures
        (match r {
            Some(b) => wf_onion_layer(l@) && b@ == senc_onion_layer(l@),
            None => !wf_onion_layer(l@),
        }),
{
    if check_wf_onion_layer(l) {
        let mut out: Vec<u8> = Vec::new();
        enc_onion_layer(&mut out, l);
        assert(out@ =~= senc_onion_layer(l@));
        Some(out)
    } else {
        None
    }
}

/// Decodes an onion layer; the bytes must be consumed exactly.
pub fn decode_layer(s: &Vec<u8>) -> (r: Option<OnionLayer>)
    ensures
        (match r {
            Some(l) => sdec_onion_layer(s@, 0) == Some((l@, s@.len() as int)),
            None => !(sdec_onion_layer(s@, 0) matches Some(d) && d.1 == s@.len()),
        }),
{
    match dec_onion_layer(s, 0) {
        Some((l, j)) => {
            if j == s.len() {
                Some(l)
            } else {
                None
            }
        },
        None => None,
    }
}

/// Encodes a routed application message.
pub fn encode_routed_message(m: &RoutedMessage) -> (r: Option<Vec<u8>>)
    ensures
        (match r {
            Some(b) => wf_routed_message(m@) && b@ == senc_routed_message(m@),
            None => !wf_routed_message(m@),
        }),
{
    if check_wf_routed_message(m) {
        let mut out: Vec<u8> = Vec::new();
        enc_routed_message(&mut out, m);
        assert(out@ =~= senc_routed_message(m@));
        Some(out)
    } else {
        None
    }
}

/// Decodes a routed application message; the bytes must be consumed exactly.
pub fn decode_routed_message(s: &Vec<u8>) -> (r: Option<RoutedMessage>)
    ensures
        (match r {
            Some(m) => sdec_routed_message(s@, 0) == Some((m@, s@.len() as int)),
            None => !(sdec_routed_message(s@, 0) matches Some(d) && d.1 == s@.len()),
        }),
{
    match dec_routed_message(s, 0) {
        Some((m, j)) => {
            if j == s.len() {
                Some(m)
            } else {
                None
            }
        },
        None => None,
    }
}

/// Decoding the encoding of a well-formed onion layer yields it back.
pub proof fn lemma_layer_round_trip(v: OnionLayerView)
    requires
        wf_onion_layer(v),
    ensures
        sdec_onion_layer(senc_onion_layer(v), 0) == Some((v, senc_onion_layer(v).len() as int)),
{
    let s = senc_onion_layer(v);
    assert(s.subrange(0, s.len() as int) =~= s);
    lemma_rt_onion_layer(s, 0, v);
}

/// Decoding the encoding of a well-formed routed message yields it back.
pub proof fn lemma_routed_round_trip(v: RoutedMessageView)
    requires
        wf_routed_message(v),
    ensures
        sdec_routed_message(senc_routed_message(v), 0) == Some(
            (v, senc_routed_message(v).len() as int),
        ),
{
    let s = senc_routed_message(v);
    assert(s.subrange(0, s.len() as int) =~= s);
    lemma_rt_routed_message(s, 0, v);
}

/// A message body framed behind the big-endian length header.
pub open spec fn spec_frame(body: Seq<u8>) -> Seq<u8> {
    spec_u32_be(body.len() as u32) + body
}

/// The cap on a single framed message body.
pub const MAX_FRAME_BYTES: u32 = 10485760;

/// Frames a message body; bodies over the cap are refused.
pub fn frame_body(body: &Vec<u8>) -> (r: Result<Vec<u8>, CodecError>)
    ensures
        (match r {
            Ok(f) => body@.len() <= 10485760 && f@ == spec_frame(body@),
            Err(e) => body@.len() > 10485760 && e == CodecError::FrameTooLarge,
        }),
{
    if body.len() as u64 > 10485760u64 {
        return Err(CodecError::FrameTooLarge);
    }
    let mut out: Vec<u8> = Vec::new();
    push_u32_be(&mut out, body.len() as u32);
    push_bytes(&mut out, body);
    assert(out@ =~= spec_frame(body@));
    Ok(out)
}

/// Reads a frame header; lengths over the cap are refused and the
/// connection is to be closed.
pub fn parse_frame_len(h: &Vec<u8>) -> (r: Result<u32, CodecError>)
    requires
        h@.len() == 4,
    ensures
        (match r {
            Ok(n) => n == spec_u32_of_be(h@[0], h@[1], h@[2], h@[3]) && n <= 10485760,
            Err(e) => spec_u32_of_be(h@[0], h@[1], h@[2], h@[3]) > 10485760 && e
                == CodecError::FrameTooLarge,
        }),
{
    let n: u32 = (h[3] as u32) + (h[2] as u32) * 256 + (h[1] as u32) * 65536 + (h[0] as u32)
        * 16777216;
    if n > 10485760 {
        Err(CodecError::FrameTooLarge)
    } else {
        Ok(n)
    }
}


/// Deterministic encoding of a peer descriptor, the form announcements
/// sign; refused when a field exceeds the length cap.
pub fn encode_peer_node_bytes(p: &PeerNode) -> (r: Option<Vec<u8>>)
    ensures
        (match r {
            Some(b) => wf_peer_node(p@) && b@ == senc_peer_node(p@),
            None => !wf_peer_node(p@),
        }),
{
    if check_wf_peer_node(p) {
        let mut out: Vec<u8> = Vec::new();
        enc_peer_node(&mut out, p);
        assert(out@ =~= senc_peer_node(p@));
        Some(out)
    } else {
        None
    }
}


/// The header of a framed body decodes back to the body's length.
pub proof fn lemma_frame_round_trip(body: Seq<u8>)
    requires
        body.len() <= 10485760,
    ensures
        spec_u32_of_be(
            spec_frame(body)[0],
            spec_frame(body)[1],
            spec_frame(body)[2],
            spec_frame(body)[3],
        ) == body.len(),
        spec_frame(body).subrange(4, spec_frame(body).len() as int) == body,
{
    let f = spec_frame(body);
    crate::bytes::lemma_u32_be_round_trip(body.len() as u32);
    assert forall|k: int| 0 <= k < 4 implies f[k] == spec_u32_be(body.len() as u32)[k] by {}
    assert(f.subrange(4, f.len() as int) =~= body);
}

} // verus!
