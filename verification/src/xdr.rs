//! Trusted decoding of the binary (XDR) input format.
//!
//! A node buffer holds an XDR `NodeId` (an ed25519 public key), a quorum
//! set buffer an XDR `ScpQuorumSet`. Decoding is a function of the bytes
//! alone, so each decoder's result is given a name; the graph builder's
//! own contracts speak of those names.

use crate::quorum_set_map::{qset_view, InternalScpQuorumSet, QsetView};
use stellar_xdr::{Limits, NodeId, PublicKey, ReadXdr, ScpQuorumSet};
use vstd::prelude::*;

verus! {

/// Nesting budget handed to the XDR reader. Reading one quorum set level
/// costs a handful of depth units, so this is ample for every tree within
/// the protocol depth, while a maliciously deep buffer fails to decode
/// instead of overflowing the stack.
pub const XDR_DECODE_DEPTH_LIMIT: u32 = 64;

#[verifier::external_type_specification]
#[verifier::external_body]
pub struct ExScpQuorumSet(ScpQuorumSet);

/// What decoding a node buffer yields: the strkey rendering of its
/// ed25519 public key, or nothing when the bytes are not a valid
/// encoding. A function of the bytes alone.
pub uninterp spec fn node_strkey_from_xdr(b: Seq<u8>) -> Option<Seq<char>>;

/// What decoding a quorum set buffer yields: the shape of the declared
/// tree, with member keys rendered as strkeys, or nothing when the bytes
/// are not a valid encoding. A function of the bytes alone.
pub uninterp spec fn qset_from_xdr(b: Seq<u8>) -> Option<QsetView>;

/// Relies on stellar_xdr's `NodeId::from_xdr` (strict: the whole buffer
/// must be consumed; nesting bounded by [`XDR_DECODE_DEPTH_LIMIT`]) and
/// stellar_strkey's ed25519 public key rendering.
#[verifier::external_body]
pub(crate) fn decode_node_strkey(buf: &Vec<u8>) -> (r: Option<String>)
    ensures
        match r {
            Some(s) => node_strkey_from_xdr(buf@) == Some(s@),
            None => node_strkey_from_xdr(buf@) is None,
        },
{
    match NodeId::from_xdr(buf, Limits::depth(XDR_DECODE_DEPTH_LIMIT)) {
        Ok(NodeId(PublicKey::PublicKeyTypeEd25519(k))) => {
            Some(format!("{}", stellar_strkey::ed25519::PublicKey(k.0)))
        },
        Err(_) => None,
    }
}

/// Relies on stellar_xdr's `ScpQuorumSet::from_xdr` (strict: the whole
/// buffer must be consumed; nesting bounded by [`XDR_DECODE_DEPTH_LIMIT`]),
/// converted by [`internal_from_scp`].
#[verifier::external_body]
pub(crate) fn decode_scp_quorum_set(buf: &Vec<u8>) -> (r: Option<InternalScpQuorumSet>)
    ensures
        match r {
            Some(q) => qset_from_xdr(buf@) == Some(qset_view(q)),
            None => qset_from_xdr(buf@) is None,
        },
{
    match ScpQuorumSet::from_xdr(buf, Limits::depth(XDR_DECODE_DEPTH_LIMIT)) {
        Ok(q) => Some(internal_from_scp(&q)),
        Err(_) => None,
    }
}

/// Converts a decoded XDR tree, rendering each member key with
/// stellar_strkey; pure conversion, promising nothing on its own — the
/// decoders above carry the contract.
#[verifier::external_body]
fn internal_from_scp(q: &ScpQuorumSet) -> InternalScpQuorumSet {
    InternalScpQuorumSet {
        threshold: q.threshold,
        validators: q.validators.iter().map(
            |n| match &n.0 {
                PublicKey::PublicKeyTypeEd25519(k) => {
                    format!("{}", stellar_strkey::ed25519::PublicKey(k.0))
                },
            },
        ).collect(),
        inner_sets: q.inner_sets.iter().map(|i| internal_from_scp(i)).collect(),
    }
}

} // verus!
