//! The FBAS dependency graph and the errors of the library.
//!
//! The graph is dense: vertices live in one vector indexed by small
//! integers. Validator vertices occupy the indices `0 .. n` (in sorted key
//! order of the input map, so indices are deterministic), quorum-set
//! vertices the indices from `n` on. A validator depends on its root
//! quorum-set vertex; a quorum-set vertex depends on its member validators
//! and inner quorum sets, kept as sorted duplicate-free index lists.
//! Structurally equal quorum-set vertices are deduplicated.

use crate::quorum_set_map::{
    lemma_depth_ok_view, lemma_qset_views_index, qset_depth_ok, qset_view, qset_view_depth_ok,
    qset_views, InternalScpQuorumSet, QsetView, QuorumSetMap,
};
use crate::resource_limiter::ResourceQuantity;
use crate::xdr::{decode_node_strkey, decode_scp_quorum_set, node_strkey_from_xdr, qset_from_xdr};
use vstd::prelude::*;

verus! {

/// Hard bound on the nesting depth of declared quorum sets.
pub const QUORUM_SET_MAX_DEPTH: u32 = 4;

/// Errors produced by building or analyzing an FBAS.
#[derive(Debug)]
pub enum FbasError {
    /// The input does not have the shape of any accepted dialect.
    ParseError(&'static str),
    /// A declared quorum set nests deeper than the protocol allows.
    MaxDepthExceeded,
    /// A binary buffer is not a valid XDR encoding of the expected type.
    XdrDecodingError(&'static str),
    /// An internal consistency check failed (likely a bug).
    InternalError(&'static str),
    /// The configured time or memory budget was exhausted; carries the
    /// usage measured at the moment of detection.
    ResourceLimitExceeded(ResourceQuantity),
}

impl FbasError {
    /// A short human-readable description of the error.
    pub fn message(&self) -> String {
        match self {
            FbasError::ParseError(msg) => String::from_str("parse error: ").concat(msg),
            FbasError::MaxDepthExceeded => String::from_str("maximum quorum set depth exceeded"),
            FbasError::XdrDecodingError(msg) => String::from_str("xdr decoding error: ").concat(
                msg,
            ),
            FbasError::InternalError(msg) => String::from_str("internal error (likely a bug): ")
                .concat(msg),
            FbasError::ResourceLimitExceeded(_) => String::from_str("resource limit exceeded"),
        }
    }
}

/// A quorum-set vertex: a threshold over member validators and inner
/// quorum sets, both kept as sorted duplicate-free vertex indices.
#[derive(Debug)]
pub struct Qset {
    pub threshold: u32,
    pub validators: Vec<usize>,
    pub inner_qsets: Vec<usize>,
}

/// A vertex of the dependency graph.
#[derive(Debug)]
pub enum Vertex {
    /// A validator, with its id and the index of its root quorum-set
    /// vertex. The root is `None` for a validator whose declared quorum
    /// set was empty; such a validator can never join a non-empty quorum.
    Validator { id: String, root: Option<usize> },
    QSet(Qset),
}

/// A strictly increasing index list: sorted, hence duplicate-free.
pub open spec fn sorted_strict(s: Seq<usize>) -> bool {
    forall|i: int, k: int| 0 <= i < k < s.len() ==> s[i] < s[k]
}

impl Vertex {
    /// The threshold of the vertex: how many of its successors a quorum
    /// containing it must also contain. A validator requires its single
    /// root quorum set.
    pub open spec fn spec_threshold(&self) -> u32 {
        match self {
            Vertex::Validator { .. } => 1u32,
            Vertex::QSet(q) => q.threshold,
        }
    }

    pub fn get_threshold(&self) -> (r: u32)
        ensures
            r == self.spec_threshold(),
    {
        match self {
            Vertex::Validator { .. } => 1,
            Vertex::QSet(q) => q.threshold,
        }
    }

    /// The outgoing edges of the vertex, in index order: a validator
    /// points at its root quorum set, a quorum-set vertex at its member
    /// validators followed by its inner quorum sets.
    pub open spec fn successors(&self) -> Seq<usize> {
        match self {
            Vertex::Validator { root: Some(r), .. } => seq![*r],
            Vertex::Validator { root: None, .. } => Seq::empty(),
            Vertex::QSet(q) => q.validators@ + q.inner_qsets@,
        }
    }
}

/// The dependency graph of an FBAS.
pub struct Fbas {
    pub vertices: Vec<Vertex>,
    pub validators: Vec<usize>,
}

impl Fbas {
    pub open spec fn num_validators(&self) -> nat {
        self.validators@.len()
    }

    pub open spec fn num_vertices(&self) -> nat {
        self.vertices@.len()
    }

    /// Well-formedness of one vertex: all successor indices point into
    /// the graph; a quorum-set vertex depends only on validators and on
    /// quorum-set vertices created before it (so those edges are acyclic).
    pub open spec fn vertex_wf(&self, i: int) -> bool {
        match self.vertices@[i] {
            Vertex::Validator { root: Some(r), .. } => self.validators@.len() <= r
                < self.vertices@.len(),
            Vertex::Validator { root: None, .. } => true,
            Vertex::QSet(q) => {
                &&& sorted_strict(q.validators@)
                &&& sorted_strict(q.inner_qsets@)
                &&& forall|t: int|
                    0 <= t < q.validators@.len() ==> (#[trigger] q.validators@[t])
                        < self.validators@.len()
                &&& forall|t: int|
                    0 <= t < q.inner_qsets@.len() ==> self.validators@.len()
                        <= (#[trigger] q.inner_qsets@[t]) < i
            },
        }
    }

    /// Well-formedness of the graph: validators occupy the indices
    /// `0 .. n` and `validators[k] == k`; every other vertex is a
    /// quorum-set vertex; every vertex is locally well-formed.
    pub open spec fn wf(&self) -> bool {
        &&& self.validators@.len() <= self.vertices@.len()
        &&& forall|k: int| 0 <= k < self.validators@.len() ==> #[trigger] self.validators@[k] == k
        &&& forall|i: int|
            0 <= i < self.vertices@.len() ==> ((#[trigger] self.vertices@[i]) is Validator <==> i
                < self.validators@.len())
        &&& forall|i: int| 0 <= i < self.vertices@.len() ==> #[trigger] self.vertex_wf(i)
    }

    /// The id of the validator vertex at index `ni`, or an internal error
    /// when `ni` is not a validator vertex.
    pub fn try_get_validator_string(&self, ni: usize) -> (r: Result<String, FbasError>)
        ensures
            ni < self.vertices@.len() && self.vertices@[ni as int] is Validator ==> (r matches Ok(s)
                && s@ == self.vertices@[ni as int]->Validator_id@),
            !(ni < self.vertices@.len() && self.vertices@[ni as int] is Validator) ==> (r matches Err(
                e,
            ) && e is InternalError),
    {
        if ni < self.vertices.len() {
            match &self.vertices[ni] {
                Vertex::Validator { id, .. } => Ok(id.clone()),
                _ => Err(FbasError::InternalError("Node index is not a validator")),
            }
        } else {
            Err(FbasError::InternalError("Node index is not a validator"))
        }
    }

    /// The successor list of the vertex at index `i`.
    pub fn successors_of(&self, i: usize) -> (r: Vec<usize>)
        requires
            i < self.vertices@.len(),
        ensures
            r@ == self.vertices@[i as int].successors(),
    {
        match &self.vertices[i] {
            Vertex::Validator { root, .. } => {
                let mut r: Vec<usize> = Vec::new();
                match root {
                    Some(x) => {
                        r.push(*x);
                        assert(r@ =~= self.vertices@[i as int].successors());
                    },
                    None => {
                        assert(r@ =~= self.vertices@[i as int].successors());
                    },
                }
                r
            },
            Vertex::QSet(q) => {
                let mut r: Vec<usize> = Vec::new();
                let mut t: usize = 0;
                while t < q.validators.len()
                    invariant
                        t <= q.validators@.len(),
                        r@ == q.validators@.take(t as int),
                    decreases q.validators@.len() - t,
                {
                    r.push(q.validators[t]);
                    t += 1;
                    assert(r@ =~= q.validators@.take(t as int));
                }
                assert(r@ =~= q.validators@);
                let mut u: usize = 0;
                while u < q.inner_qsets.len()
                    invariant
                        u <= q.inner_qsets@.len(),
                        r@ == q.validators@ + q.inner_qsets@.take(u as int),
                    decreases q.inner_qsets@.len() - u,
                {
                    r.push(q.inner_qsets[u]);
                    u += 1;
                    assert(r@ =~= q.validators@ + q.inner_qsets@.take(u as int));
                }
                assert(r@ =~= q.validators@ + q.inner_qsets@);
                r
            },
        }
    }

    /// Appends a validator vertex; used only while the graph holds
    /// nothing but validators.
    fn add_validator(&mut self, v: String) -> (idx: usize)
        requires
            old(self).wf(),
            old(self).vertices@.len() == old(self).validators@.len(),
        ensures
            final (self).wf(),
            final (self).vertices@.len() == final (self).validators@.len(),
            final (self).vertices@ == old(self).vertices@.push(
                Vertex::Validator { id: v, root: None },
            ),
            final (self).validators@ == old(self).validators@.push(idx),
            idx == old(self).vertices@.len(),
            distinct_qsets(final (self)),
    {
        let idx = self.vertices.len();
        self.vertices.push(Vertex::Validator { id: v, root: None });
        self.validators.push(idx);
        proof {
            assert forall|i: int| 0 <= i < self.vertices@.len() implies #[trigger] self.vertex_wf(
                i,
            ) by {
                if i < old(self).vertices@.len() {
                    assert(old(self).vertex_wf(i));
                }
            }
        }
        idx
    }

    /// Wires the validator at index `k` to its root quorum-set vertex.
    fn set_validator_root(&mut self, k: usize, r: usize)
        requires
            old(self).wf(),
            k < old(self).validators@.len(),
            old(self).validators@.len() <= r < old(self).vertices@.len(),
        ensures
            final (self).wf(),
            final (self).validators@ == old(self).validators@,
            final (self).vertices@.len() == old(self).vertices@.len(),
            forall|i: int|
                0 <= i < old(self).vertices@.len() && i != k ==> final (self).vertices@[i] == old(
                    self,
                ).vertices@[i],
            final (self).vertices@[k as int] matches Vertex::Validator { id, root } && id@ == old(
                self,
            ).vertices@[k as int]->Validator_id@ && root == Some(r),
            distinct_qsets(old(self)) ==> distinct_qsets(final (self)),
    {
        let id = match &self.vertices[k] {
            Vertex::Validator { id, .. } => id.clone(),
            _ => {
                proof {
                    assert(false);
                }
                String::new()
            },
        };
        self.vertices.set(k, Vertex::Validator { id, root: Some(r) });
        proof {
            assert forall|i: int| 0 <= i < self.vertices@.len() implies #[trigger] self.vertex_wf(
                i,
            ) by {
                if i != k {
                    assert(old(self).vertex_wf(i));
                    assert(self.vertices@[i] == old(self).vertices@[i]);
                }
            }
        }
    }

    /// Builds the dependency graph of a quorum set map: one validator
    /// vertex per key in sorted key order, then one deduplicated
    /// quorum-set vertex per distinct declared (sub)tree, wired to the
    /// validators that declared them. Fails exactly when some declaration
    /// nests deeper than [`QUORUM_SET_MAX_DEPTH`].
    pub fn from_quorum_set_map(qsm: &QuorumSetMap) -> (r: Result<Fbas, FbasError>)
        requires
            qsm.wf(),
        ensures
            r matches Ok(fbas) ==> {
                &&& fbas.wf()
                &&& distinct_qsets(&fbas)
                &&& fbas.validators@.len() == qsm.spec_len()
                &&& forall|k: int|
                    0 <= k < qsm.spec_len() ==> ((#[trigger] fbas.vertices@[k])
                        matches Vertex::Validator { id, root } && id@ == qsm.entries@[k].0@ && (
                    root is Some <==> qsm.entries@[k].1 is Some))
                &&& forall|k: int|
                    0 <= k < qsm.spec_len() ==> ((#[trigger] qsm.entries@[k]).1 matches Some(q)
                        ==> tree_matches(
                        &fbas,
                        fbas.vertices@[k]->Validator_root->0 as int,
                        qset_view(q),
                        QUORUM_SET_MAX_DEPTH as nat,
                    ))
            },
            (r is Err) <==> exists|k: int|
                0 <= k < qsm.spec_len() && ((#[trigger] qsm.entries@[k]).1 matches Some(q)
                    && !qset_depth_ok(q, QUORUM_SET_MAX_DEPTH as nat)),
            r is Err ==> r == Err::<Fbas, FbasError>(FbasError::MaxDepthExceeded),
    {
        let mut fbas = Fbas { vertices: Vec::new(), validators: Vec::new() };
        let n = qsm.entries.len();
        // First pass: add all validators, in sorted key order.
        let mut k: usize = 0;
        while k < n
            invariant
                k <= n,
                n == qsm.spec_len(),
                qsm.wf(),
                fbas.wf(),
                distinct_qsets(&fbas),
                fbas.vertices@.len() == k,
                fbas.validators@.len() == k,
                forall|t: int|
                    0 <= t < k ==> ((#[trigger] fbas.vertices@[t]) matches Vertex::Validator {
                        id,
                        root,
                    } && id@ == qsm.entries@[t].0@ && root is None),
            decreases n - k,
        {
            let id = qsm.entries[k].0.clone();
            fbas.add_validator(id);
            k += 1;
        }
        // Second pass: build each declared tree and wire the root edge.
        let mut k: usize = 0;
        while k < n
            invariant
                k <= n,
                n == qsm.spec_len(),
                qsm.wf(),
                fbas.wf(),
                distinct_qsets(&fbas),
                fbas.validators@.len() == n,
                fbas.vertices@.len() >= n,
                forall|t: int|
                    0 <= t < n ==> ((#[trigger] fbas.vertices@[t]) matches Vertex::Validator {
                        id,
                        root,
                    } && id@ == qsm.entries@[t].0@),
                forall|t: int|
                    0 <= t < k ==> ((#[trigger] fbas.vertices@[t])->Validator_root is Some <==> qsm.entries@[t].1 is Some),
                forall|t: int|
                    k <= t < n ==> (#[trigger] fbas.vertices@[t])->Validator_root is None,
                forall|t: int|
                    0 <= t < k ==> ((#[trigger] qsm.entries@[t]).1 matches Some(q)
                        ==> qset_depth_ok(q, QUORUM_SET_MAX_DEPTH as nat)),
                forall|t: int|
                    0 <= t < k ==> ((#[trigger] qsm.entries@[t]).1 matches Some(q)
                        ==> tree_matches(
                        &fbas,
                        fbas.vertices@[t]->Validator_root->0 as int,
                        qset_view(q),
                        QUORUM_SET_MAX_DEPTH as nat,
                    )),
            decreases n - k,
        {
            let ghost pre_iter = fbas;
            let has_qset = qsm.entries[k].1.is_some();
            if has_qset {
                let q_idx = match &qsm.entries[k].1 {
                    Some(q) => {
                        match fbas.process_scp_quorum_set(q, 0, qsm) {
                            Ok(idx) => idx,
                            Err(e) => {
                                return Err(FbasError::MaxDepthExceeded);
                            },
                        }
                    },
                    None => {
                        proof {
                            assert(false);
                        }
                        0
                    },
                };
                let ghost mid = fbas;
                let ghost gq = qsm.entries@[k as int].1->0;
                fbas.set_validator_root(k, q_idx);
                proof {
                    // The new root's shape fact survives the rewiring;
                    // the earlier ones survive both the growth and the
                    // rewiring.
                    assert(tree_matches(&mid, q_idx as int, qset_view(gq), QUORUM_SET_MAX_DEPTH as nat));
                    lemma_tree_matches_stable(
                        &mid,
                        &fbas,
                        q_idx as int,
                        qset_view(gq),
                        QUORUM_SET_MAX_DEPTH as nat,
                    );
                    assert forall|t: int|
                        0 <= t < k implies ((#[trigger] qsm.entries@[t]).1 matches Some(q2)
                        ==> tree_matches(
                        &fbas,
                        fbas.vertices@[t]->Validator_root->0 as int,
                        qset_view(q2),
                        QUORUM_SET_MAX_DEPTH as nat,
                    )) by {
                        match qsm.entries@[t].1 {
                            Some(q2) => {
                                assert(pre_iter.vertices@[t]->Validator_root is Some);
                                assert(pre_iter.vertex_wf(t));
                                let ridx = pre_iter.vertices@[t]->Validator_root->0 as int;
                                assert(0 <= ridx < pre_iter.vertices@.len());
                                lemma_tree_matches_stable(
                                    &pre_iter,
                                    &fbas,
                                    ridx,
                                    qset_view(q2),
                                    QUORUM_SET_MAX_DEPTH as nat,
                                );
                                assert(fbas.vertices@[t] == pre_iter.vertices@[t]);
                            },
                            None => {},
                        }
                    }
                }
            }
            k += 1;
        }
        Ok(fbas)
    }

    /// Builds the graph from two equal-length lists of XDR buffers: one
    /// `NodeId` per validator, beside its declared `ScpQuorumSet`. An
    /// empty quorum set buffer keeps the validator but wires no
    /// dependency, so that validator can never join a non-empty quorum.
    pub fn from_quorum_set_map_buf(nodes: &Vec<Vec<u8>>, quorum_sets: &Vec<Vec<u8>>) -> (r: Result<
        Fbas,
        FbasError,
    >)
        ensures
            nodes@.len() != quorum_sets@.len() ==> r == Err::<Fbas, FbasError>(
                FbasError::ParseError("length in nodes and quorum_sets do not match"),
            ),
            r matches Err(e) ==> (e is ParseError || e is XdrDecodingError
                || e is MaxDepthExceeded),
            (r matches Err(e) && e is XdrDecodingError) ==> exists|t: int|
                0 <= t < nodes@.len() && (node_strkey_from_xdr((#[trigger] nodes@[t])@) is None || (
                quorum_sets@[t]@.len() > 0 && qset_from_xdr(quorum_sets@[t]@) is None)),
            (r matches Err(e) && e is MaxDepthExceeded) ==> exists|t: int|
                0 <= t < quorum_sets@.len() && ((#[trigger] quorum_sets@[t])@.len() > 0
                    && (qset_from_xdr(quorum_sets@[t]@) matches Some(qv) && !qset_view_depth_ok(
                    qv,
                    QUORUM_SET_MAX_DEPTH as nat,
                ))),
            nodes@.len() == quorum_sets@.len() && bufs_decode(nodes@, quorum_sets@)
                && bufs_depth_ok(quorum_sets@) ==> r is Ok,
            r is Ok ==> (nodes@.len() == quorum_sets@.len() && bufs_decode(nodes@, quorum_sets@)),
            r matches Ok(fbas) ==> {
                &&& fbas.wf()
                &&& forall|t: int|
                    0 <= t < nodes@.len() ==> exists|k: int|
                        0 <= k < fbas.validators@.len() && Some(
                            (#[trigger] fbas.vertices@[k])->Validator_id@,
                        ) == node_strkey_from_xdr((#[trigger] nodes@[t])@)
                &&& forall|k: int|
                    0 <= k < fbas.validators@.len() ==> exists|t: int|
                        0 <= t < nodes@.len() && node_strkey_from_xdr((#[trigger] nodes@[t])@)
                            == Some((#[trigger] fbas.vertices@[k])->Validator_id@)
                &&& forall|k: int|
                    0 <= k < fbas.validators@.len() ==> exists|
                        t: int,
                        decl: Option<InternalScpQuorumSet>,
                    |
                        {
                            &&& #[trigger] buf_entry_declares(
                                nodes@,
                                quorum_sets@,
                                t,
                                (#[trigger] fbas.vertices@[k])->Validator_id@,
                                decl,
                            )
                            &&& (decl is Some <==> fbas.vertices@[k]->Validator_root is Some)
                            &&& (decl matches Some(q) ==> tree_matches(
                                &fbas,
                                fbas.vertices@[k]->Validator_root->0 as int,
                                qset_view(q),
                                QUORUM_SET_MAX_DEPTH as nat,
                            ))
                        }
            },
    {
        if nodes.len() != quorum_sets.len() {
            return Err(FbasError::ParseError("length in nodes and quorum_sets do not match"));
        }
        let count = nodes.len();
        let mut qsm = QuorumSetMap::new();
        let mut i: usize = 0;
        while i < count
            invariant
                i <= count,
                count == nodes@.len(),
                count == quorum_sets@.len(),
                qsm.wf(),
                forall|id: Seq<char>|
                    #[trigger] qsm.spec_contains(id) <==> exists|t: int|
                        0 <= t < i && node_strkey_from_xdr((#[trigger] nodes@[t])@) == Some(id),
                forall|id: Seq<char>|
                    #[trigger] qsm.spec_contains(id) ==> exists|t: int|
                        buf_entry_declares(nodes@, quorum_sets@, t, id, qsm.spec_at(id)),
                forall|t: int|
                    0 <= t < i ==> (node_strkey_from_xdr((#[trigger] nodes@[t])@) is Some && (
                    quorum_sets@[t]@.len() > 0 ==> qset_from_xdr(quorum_sets@[t]@) is Some)),
            decreases count - i,
        {
            let node_str = match decode_node_strkey(&nodes[i]) {
                Some(s) => s,
                None => {
                    proof {
                        assert(!bufs_decode(nodes@, quorum_sets@)) by {
                            if bufs_decode(nodes@, quorum_sets@) {
                                assert(node_strkey_from_xdr((nodes@[i as int])@) is Some);
                            }
                        }
                    }
                    return Err(FbasError::XdrDecodingError("NodeId cannot be decoded from xdr"));
                },
            };
            let qset = if quorum_sets[i].len() > 0 {
                match decode_scp_quorum_set(&quorum_sets[i]) {
                    Some(q) => Some(q),
                    None => {
                        proof {
                            assert(!bufs_decode(nodes@, quorum_sets@)) by {
                                if bufs_decode(nodes@, quorum_sets@) {
                                    assert(node_strkey_from_xdr((nodes@[i as int])@) is Some);
                                    assert(qset_from_xdr(quorum_sets@[i as int]@) is Some);
                                }
                            }
                        }
                        return Err(
                            FbasError::XdrDecodingError("ScpQuorumSet cannot be decoded from xdr"),
                        );
                    },
                }
            } else {
                // An empty declaration: the validator exists, nothing is
                // wired.
                None
            };
            let ghost pre_map = qsm;
            let ghost g_qset = qset;
            let ghost gid = node_str@;
            proof {
                assert(buf_entry_declares(nodes@, quorum_sets@, i as int, gid, g_qset));
            }
            qsm.insert(node_str, qset);
            i += 1;
            proof {
                assert forall|id: Seq<char>| #[trigger]
                    qsm.spec_contains(id) implies exists|t: int|
                    buf_entry_declares(nodes@, quorum_sets@, t, id, qsm.spec_at(id)) by {
                    if id == gid {
                        assert(qsm.spec_at(id) == g_qset);
                        assert(buf_entry_declares(
                            nodes@,
                            quorum_sets@,
                            i - 1,
                            id,
                            qsm.spec_at(id),
                        ));
                    } else {
                        assert(pre_map.spec_contains(id));
                        assert(qsm.spec_at(id) == pre_map.spec_at(id));
                        let t = choose|t: int|
                            buf_entry_declares(nodes@, quorum_sets@, t, id, pre_map.spec_at(id));
                        assert(buf_entry_declares(nodes@, quorum_sets@, t, id, qsm.spec_at(id)));
                    }
                }
            }
        }
        let result = Self::from_quorum_set_map(&qsm);
        proof {
            match &result {
                Ok(fbas) => {
                    assert forall|t: int| 0 <= t < nodes@.len() implies exists|k: int|
                        0 <= k < fbas.validators@.len() && Some(
                            (#[trigger] fbas.vertices@[k])->Validator_id@,
                        ) == node_strkey_from_xdr((#[trigger] nodes@[t])@) by {
                        let id = node_strkey_from_xdr(nodes@[t]@)->0;
                        assert(node_strkey_from_xdr(nodes@[t]@) == Some(id));
                        assert(qsm.spec_contains(id));
                        let k = choose|k: int|
                            0 <= k < qsm.entries@.len() && (#[trigger] qsm.entries@[k]).0@ == id;
                        assert(fbas.vertices@[k]->Validator_id@ == id);
                    }
                    assert forall|k: int| 0 <= k < fbas.validators@.len() implies exists|t: int|
                        0 <= t < nodes@.len() && node_strkey_from_xdr((#[trigger] nodes@[t])@)
                            == Some((#[trigger] fbas.vertices@[k])->Validator_id@) by {
                        assert(fbas.vertices@[k]->Validator_id@ == qsm.entries@[k].0@);
                        assert(qsm.spec_contains(qsm.entries@[k].0@));
                    }
                    assert forall|k: int| 0 <= k < fbas.validators@.len() implies exists|
                        t: int,
                        decl: Option<InternalScpQuorumSet>,
                    |
                        {
                            &&& #[trigger] buf_entry_declares(
                                nodes@,
                                quorum_sets@,
                                t,
                                (#[trigger] fbas.vertices@[k])->Validator_id@,
                                decl,
                            )
                            &&& (decl is Some <==> fbas.vertices@[k]->Validator_root is Some)
                            &&& (decl matches Some(q) ==> tree_matches(
                                &fbas,
                                fbas.vertices@[k]->Validator_root->0 as int,
                                qset_view(q),
                                QUORUM_SET_MAX_DEPTH as nat,
                            ))
                        } by {
                        let id = fbas.vertices@[k]->Validator_id@;
                        assert(id == qsm.entries@[k].0@);
                        qsm.lemma_at_position(k);
                        assert(qsm.spec_contains(id));
                        assert(qsm.spec_at(id) == qsm.entries@[k].1);
                        let t = choose|t: int|
                            buf_entry_declares(nodes@, quorum_sets@, t, id, qsm.spec_at(id));
                        let decl = qsm.entries@[k].1;
                        assert(buf_entry_declares(nodes@, quorum_sets@, t, id, decl));
                    }
                },
                Err(_) => {
                    // The build fails only over a declaration that some
                    // buffer holds beyond the protocol depth.
                    let k = choose|k: int|
                        0 <= k < qsm.spec_len() && ((#[trigger] qsm.entries@[k]).1 matches Some(q)
                            && !qset_depth_ok(q, QUORUM_SET_MAX_DEPTH as nat));
                    let q = qsm.entries@[k].1->0;
                    qsm.lemma_at_position(k);
                    assert(qsm.spec_at(qsm.entries@[k].0@) == qsm.entries@[k].1);
                    let t = choose|t: int|
                        buf_entry_declares(
                            nodes@,
                            quorum_sets@,
                            t,
                            qsm.entries@[k].0@,
                            qsm.spec_at(qsm.entries@[k].0@),
                        );
                    lemma_depth_ok_view(q, QUORUM_SET_MAX_DEPTH as nat);
                    assert(quorum_sets@[t]@.len() > 0 && (qset_from_xdr(quorum_sets@[t]@)
                        matches Some(qv) && !qset_view_depth_ok(qv, QUORUM_SET_MAX_DEPTH as nat)));
                    assert(!bufs_depth_ok(quorum_sets@));
                },
            }
        }
        result
    }

    /// Transforms one declared quorum set into a quorum-set vertex,
    /// depth-first: members that name unknown validators are dropped,
    /// inner sets are processed recursively, and a structurally equal
    /// existing vertex is reused instead of allocating a new one. Fails
    /// exactly when the declaration nests too deep to finish within
    /// [`QUORUM_SET_MAX_DEPTH`] levels.
    fn process_scp_quorum_set(
        &mut self,
        qset: &InternalScpQuorumSet,
        curr_depth: u32,
        qsm: &QuorumSetMap,
    ) -> (r: Result<usize, FbasError>)
        requires
            old(self).wf(),
            qsm.wf(),
            old(self).validators@.len() == qsm.spec_len(),
            forall|k: int|
                0 <= k < old(self).validators@.len() ==> (
                #[trigger] old(self).vertices@[k])->Validator_id@ == qsm.entries@[k].0@,
            distinct_qsets(old(self)),
            curr_depth <= QUORUM_SET_MAX_DEPTH,
        ensures
            final (self).wf(),
            distinct_qsets(final (self)),
            final (self).validators@ == old(self).validators@,
            final (self).vertices@.len() >= old(self).vertices@.len(),
            forall|i: int|
                0 <= i < old(self).vertices@.len() ==> final (self).vertices@[i] == old(
                    self,
                ).vertices@[i],
            r matches Ok(idx) ==> (final (self).validators@.len() <= idx
                && idx < final (self).vertices@.len()
                && final (self).vertices@[idx as int] is QSet
                && tree_matches(
                final (self),
                idx as int,
                qset_view(*qset),
                (QUORUM_SET_MAX_DEPTH - curr_depth) as nat,
            )),
            (r is Ok) <==> qset_depth_ok(*qset, (QUORUM_SET_MAX_DEPTH - curr_depth) as nat),
            r is Err ==> r == Err::<usize, FbasError>(FbasError::MaxDepthExceeded),
        decreases QUORUM_SET_MAX_DEPTH - curr_depth,
    {
        if curr_depth == QUORUM_SET_MAX_DEPTH {
            return Err(FbasError::MaxDepthExceeded);
        }
        let ghost fuel = (QUORUM_SET_MAX_DEPTH - curr_depth) as nat;
        let n = self.validators.len();
        // Members that name a known validator become validator successors;
        // unknown references are dropped.
        let mut new_validators: Vec<usize> = Vec::new();
        let mut i: usize = 0;
        while i < qset.validators.len()
            invariant
                i <= qset.validators@.len(),
                n == qsm.spec_len(),
                qsm.wf(),
                sorted_strict(new_validators@),
                forall|t: int| 0 <= t < new_validators@.len() ==> #[trigger] new_validators@[t] < n,
                forall|k: usize|
                    k < n ==> ((#[trigger] new_validators@.contains(k)) <==> exists|t: int|
                        0 <= t < i && qsm.entries@[k as int].0@ == (
                        #[trigger] qset.validators@[t])@),
            decreases qset.validators@.len() - i,
        {
            let ghost pre_nv = new_validators@;
            match find_validator(qsm, &qset.validators[i]) {
                Some(v_idx) => {
                    insert_sorted_unique(&mut new_validators, v_idx);
                    proof {
                        assert forall|t: int|
                            0 <= t < new_validators@.len() implies #[trigger] new_validators@[t]
                            < n by {
                            assert(new_validators@.contains(new_validators@[t]));
                        }
                        assert forall|k: usize|
                            k < n implies ((#[trigger] new_validators@.contains(k)) <==> exists|
                            t: int,
                        |
                            0 <= t < i + 1 && qsm.entries@[k as int].0@ == (
                            #[trigger] qset.validators@[t])@) by {
                            if new_validators@.contains(k) {
                                if k == v_idx {
                                    let ii = i as int;
                                    assert(qsm.entries@[k as int].0@ == qset.validators@[ii]@);
                                } else {
                                    assert(pre_nv.contains(k));
                                }
                            }
                            if exists|t: int|
                                0 <= t < i + 1 && qsm.entries@[k as int].0@ == (
                                #[trigger] qset.validators@[t])@ {
                                let t = choose|t: int|
                                    0 <= t < i + 1 && qsm.entries@[k as int].0@ == (
                                    #[trigger] qset.validators@[t])@;
                                if t < i {
                                    assert(pre_nv.contains(k));
                                    assert(new_validators@.contains(k));
                                } else {
                                    if k != v_idx {
                                        qsm.lemma_keys_unique(k as int, v_idx as int);
                                        assert(false);
                                    }
                                    assert(new_validators@.contains(k));
                                }
                            }
                        }
                    }
                },
                None => {
                    proof {
                        assert forall|k: usize|
                            k < n implies ((#[trigger] new_validators@.contains(k)) <==> exists|
                            t: int,
                        |
                            0 <= t < i + 1 && qsm.entries@[k as int].0@ == (
                            #[trigger] qset.validators@[t])@) by {
                            if exists|t: int|
                                0 <= t < i + 1 && qsm.entries@[k as int].0@ == (
                                #[trigger] qset.validators@[t])@ {
                                let t = choose|t: int|
                                    0 <= t < i + 1 && qsm.entries@[k as int].0@ == (
                                    #[trigger] qset.validators@[t])@;
                                if t == i {
                                    assert(qsm.spec_contains(qset.validators@[i as int]@));
                                    assert(false);
                                }
                            }
                        }
                    }
                },
            }
            i += 1;
        }
        // Inner declarations become inner quorum-set successors.
        let mut new_inners: Vec<usize> = Vec::new();
        let mut i: usize = 0;
        while i < qset.inner_sets.len()
            invariant
                i <= qset.inner_sets@.len(),
                n == qsm.spec_len(),
                qsm.wf(),
                curr_depth < QUORUM_SET_MAX_DEPTH,
                fuel == (QUORUM_SET_MAX_DEPTH - curr_depth) as nat,
                sorted_strict(new_validators@),
                forall|t: int| 0 <= t < new_validators@.len() ==> #[trigger] new_validators@[t] < n,
                forall|k: usize|
                    k < n ==> ((#[trigger] new_validators@.contains(k)) <==> exists|t: int|
                        0 <= t < qset.validators@.len() && qsm.entries@[k as int].0@ == (
                        #[trigger] qset.validators@[t])@),
                forall|k: int|
                    0 <= k < n ==> (#[trigger] self.vertices@[k])->Validator_id@
                        == qsm.entries@[k].0@,
                new_inners@.len() <= i,
                i > 0 && qset.inner_sets@.len() > 0 ==> new_inners@.len() > 0,
                self.wf(),
                self.validators@ == old(self).validators@,
                self.validators@.len() == n,
                self.vertices@.len() >= old(self).vertices@.len(),
                forall|t: int|
                    0 <= t < old(self).vertices@.len() ==> self.vertices@[t] == old(
                        self,
                    ).vertices@[t],
                sorted_strict(new_inners@),
                distinct_qsets(self),
                forall|t: int|
                    0 <= t < new_inners@.len() ==> n <= #[trigger] new_inners@[t]
                        < self.vertices@.len(),
                forall|t: int|
                    0 <= t < i ==> qset_depth_ok(
                        #[trigger] qset.inner_sets@[t],
                        (fuel - 1) as nat,
                    ),
                forall|x: usize| #[trigger]
                    new_inners@.contains(x) ==> inner_tree_matches(
                        self,
                        x as int,
                        qset_views(qset.inner_sets@),
                        fuel,
                    ),
            decreases qset.inner_sets@.len() - i,
        {
            let ghost pre_self = *self;
            let ghost pre_inners = new_inners@;
            proof {
                assert(forall|x: usize| #[trigger]
                    pre_inners.contains(x) ==> inner_tree_matches(
                        &pre_self,
                        x as int,
                        qset_views(qset.inner_sets@),
                        fuel,
                    ));
                assert(forall|t: int|
                    0 <= t < pre_inners.len() ==> n <= (#[trigger] pre_inners[t])
                        < pre_self.vertices@.len());
                assert(pre_self.wf());
            }
            let q_idx = match self.process_scp_quorum_set(&qset.inner_sets[i], curr_depth + 1, qsm) {
                Ok(idx) => idx,
                Err(e) => {
                    proof {
                        assert(!qset_depth_ok(qset.inner_sets@[i as int], (fuel - 1) as nat));
                        if qset_depth_ok(*qset, fuel) {
                            assert(qset_depth_ok(qset.inner_sets@[i as int], (fuel - 1) as nat));
                        }
                    }
                    return Err(FbasError::MaxDepthExceeded);
                },
            };
            insert_sorted_unique(&mut new_inners, q_idx);
            proof {
                assert forall|t: int|
                    0 <= t < new_inners@.len() implies n <= #[trigger] new_inners@[t]
                    < self.vertices@.len() by {
                    assert(new_inners@.contains(new_inners@[t]));
                }
                assert(new_inners@.contains(q_idx));
                assert(new_inners@.len() > 0);
                lemma_qset_views_index(qset.inner_sets@, i as int);
                assert(tree_matches(
                    self,
                    q_idx as int,
                    qset_views(qset.inner_sets@)[i as int],
                    (fuel - 1) as nat,
                ));
                assert forall|x: usize| #[trigger]
                    new_inners@.contains(x) implies inner_tree_matches(
                    self,
                    x as int,
                    qset_views(qset.inner_sets@),
                    fuel,
                ) by {
                    if x == q_idx {
                        lemma_inner_tree_intro(
                            self,
                            x as int,
                            qset_views(qset.inner_sets@),
                            fuel,
                            i as int,
                        );
                    } else {
                        assert(pre_inners.contains(x));
                        let xi = choose|xi: int| 0 <= xi < pre_inners.len() && pre_inners[xi] == x;
                        assert(n <= x < pre_self.vertices@.len());
                        lemma_inner_tree_matches_stable(
                            &pre_self,
                            self,
                            x as int,
                            qset_views(qset.inner_sets@),
                            fuel,
                        );
                    }
                }
            }
            i += 1;
        }
        proof {
            assert(qset_depth_ok(*qset, fuel));
        }
        let ghost qv = qset_view(*qset);
        proof {
            crate::quorum_set_map::lemma_qset_views_len(qset.inner_sets@);
            assert(qv.validators.len() == qset.validators@.len());
            assert(qv.inner_sets.len() == qset.inner_sets@.len());
            assert forall|t: int|
                0 <= t < qset.validators@.len() implies #[trigger] qv.validators[t]
                == qset.validators@[t]@ by {}
            assert forall|k: usize|
                k < n implies ((#[trigger] new_validators@.contains(k)) <==> exists|t: int|
                    0 <= t < qv.validators.len() && qsm.entries@[k as int].0@ == (
                    #[trigger] qv.validators[t])) by {
                if new_validators@.contains(k) {
                    let t = choose|t: int|
                        0 <= t < qset.validators@.len() && qsm.entries@[k as int].0@ == (
                        #[trigger] qset.validators@[t])@;
                    assert(qv.validators[t] == qset.validators@[t]@);
                }
                if exists|t: int|
                    0 <= t < qv.validators.len() && qsm.entries@[k as int].0@ == (
                    #[trigger] qv.validators[t]) {
                    let t = choose|t: int|
                        0 <= t < qv.validators.len() && qsm.entries@[k as int].0@ == (
                        #[trigger] qv.validators[t]);
                    assert(qsm.entries@[k as int].0@ == qset.validators@[t]@);
                }
            }
        }
        let new_qset = Qset {
            threshold: qset.threshold,
            validators: new_validators,
            inner_qsets: new_inners,
        };
        // Reuse a structurally equal quorum-set vertex when one exists.
        let total = self.vertices.len();
        let mut m: usize = n;
        while m < total
            invariant
                n <= m <= total,
                total == self.vertices@.len(),
                self.wf(),
                self.validators@ == old(self).validators@,
                self.validators@.len() == n,
                self.vertices@.len() >= old(self).vertices@.len(),
                forall|t: int|
                    0 <= t < old(self).vertices@.len() ==> self.vertices@[t] == old(
                        self,
                    ).vertices@[t],
                qset_depth_ok(*qset, (QUORUM_SET_MAX_DEPTH - curr_depth) as nat),
                curr_depth < QUORUM_SET_MAX_DEPTH,
                fuel == (QUORUM_SET_MAX_DEPTH - curr_depth) as nat,
                forall|x: usize| #[trigger]
                    new_qset.inner_qsets@.contains(x) ==> inner_tree_matches(
                        self,
                        x as int,
                        qset_views(qset.inner_sets@),
                        fuel,
                    ),
                sorted_strict(new_qset.validators@),
                sorted_strict(new_qset.inner_qsets@),
                forall|t: int|
                    0 <= t < new_qset.validators@.len() ==> #[trigger] new_qset.validators@[t] < n,
                forall|t: int|
                    0 <= t < new_qset.inner_qsets@.len() ==> n <= #[trigger] new_qset.inner_qsets@[t]
                        < self.vertices@.len(),
                distinct_qsets(self),
                forall|u: int|
                    n <= u < m ==> !qset_fields_equal(
                        (#[trigger] self.vertices@[u])->QSet_0,
                        new_qset,
                    ),
                qv == qset_view(*qset),
                new_qset.threshold == qv.threshold,
                forall|k: usize|
                    k < n ==> ((#[trigger] new_qset.validators@.contains(k)) <==> exists|t: int|
                        0 <= t < qv.validators.len() && qsm.entries@[k as int].0@ == (
                        #[trigger] qv.validators[t])),
                forall|k: int|
                    0 <= k < n ==> (#[trigger] self.vertices@[k])->Validator_id@
                        == qsm.entries@[k].0@,
                new_qset.inner_qsets@.len() <= qv.inner_sets.len(),
                qv.inner_sets.len() > 0 ==> new_qset.inner_qsets@.len() > 0,
            decreases total - m,
        {
            let same = match &self.vertices[m] {
                Vertex::QSet(q) => qset_eq(q, &new_qset),
                _ => false,
            };
            if same {
                proof {
                    let gq = self.vertices@[m as int]->QSet_0;
                    assert(gq.threshold == qv.threshold);
                    assert(gq.validators@ == new_qset.validators@);
                    assert(gq.inner_qsets@ == new_qset.inner_qsets@);
                    assert forall|k: usize|
                        k < self.num_validators() implies ((#[trigger] gq.validators@.contains(k))
                            <==> exists|t: int|
                            0 <= t < qv.validators.len()
                                && self.vertices@[k as int]->Validator_id@ == #[trigger] qv.validators[t]) by {
                        if gq.validators@.contains(k) {
                            assert(new_qset.validators@.contains(k));
                            let t = choose|t: int|
                                0 <= t < qv.validators.len() && qsm.entries@[k as int].0@ == (
                                #[trigger] qv.validators[t]);
                            assert(self.vertices@[k as int]->Validator_id@ == qv.validators[t]);
                        }
                        if exists|t: int|
                            0 <= t < qv.validators.len()
                                && self.vertices@[k as int]->Validator_id@ == #[trigger] qv.validators[t] {
                            let t = choose|t: int|
                                0 <= t < qv.validators.len()
                                    && self.vertices@[k as int]->Validator_id@ == #[trigger] qv.validators[t];
                            assert(qsm.entries@[k as int].0@ == qv.validators[t]);
                            assert(new_qset.validators@.contains(k));
                        }
                    }
                    assert(qset_vertex_matches(self, m as int, qv));
                    assert forall|s2: int|
                        0 <= s2 < self.vertices@[m as int]->QSet_0.inner_qsets@.len() implies inner_tree_matches(
                        self,
                        (#[trigger] self.vertices@[m as int]->QSet_0.inner_qsets@[s2]) as int,
                        qv.inner_sets,
                        fuel,
                    ) by {
                        assert(self.vertices@[m as int]->QSet_0.inner_qsets@[s2]
                            == new_qset.inner_qsets@[s2]);
                        assert(new_qset.inner_qsets@.contains(new_qset.inner_qsets@[s2]));
                        assert(inner_tree_matches(
                            self,
                            (self.vertices@[m as int]->QSet_0.inner_qsets@[s2]) as int,
                            qset_views(qset.inner_sets@),
                            fuel,
                        ));
                        assert(qv.inner_sets == qset_views(qset.inner_sets@));
                        assert(inner_tree_matches(
                            self,
                            (self.vertices@[m as int]->QSet_0.inner_qsets@[s2]) as int,
                            qv.inner_sets,
                            fuel,
                        ));
                    }
                    assert(tree_matches(self, m as int, qv, fuel));
                }
                return Ok(m);
            }
            m += 1;
        }
        // Allocate a new vertex for this quorum set.
        let idx = self.vertices.len();
        let ghost pre_self = *self;
        let ghost g_new = new_qset;
        proof {
            assert(forall|x: usize| #[trigger]
                g_new.inner_qsets@.contains(x) ==> inner_tree_matches(
                    &pre_self,
                    x as int,
                    qset_views(qset.inner_sets@),
                    fuel,
                ));
            assert(pre_self.wf());
        }
        self.vertices.push(Vertex::QSet(new_qset));
        proof {
            assert(self.vertices@ == pre_self.vertices@.push(Vertex::QSet(g_new)));
            assert forall|i2: int|
                0 <= i2 < self.vertices@.len() implies #[trigger] self.vertex_wf(i2) by {
                if i2 < pre_self.vertices@.len() {
                    assert(pre_self.vertex_wf(i2));
                    assert(self.vertices@[i2] == pre_self.vertices@[i2]);
                    assert(self.validators@ == pre_self.validators@);
                } else {
                    assert(i2 == idx);
                    assert(self.vertices@[i2] == Vertex::QSet(g_new));
                }
            }
            assert forall|i2: int, j2: int|
                self.validators@.len() <= i2 < j2 < self.vertices@.len() implies !qset_fields_equal(
                (#[trigger] self.vertices@[i2])->QSet_0,
                (#[trigger] self.vertices@[j2])->QSet_0,
            ) by {
                if j2 < idx {
                    assert(self.vertices@[i2] == pre_self.vertices@[i2]);
                    assert(self.vertices@[j2] == pre_self.vertices@[j2]);
                } else {
                    assert(j2 == idx);
                    assert(self.vertices@[i2] == pre_self.vertices@[i2]);
                    assert(self.vertices@[j2]->QSet_0 == g_new);
                }
            }
            let gq = self.vertices@[idx as int]->QSet_0;
            assert(gq == g_new);
            assert forall|k: usize|
                k < self.num_validators() implies ((#[trigger] gq.validators@.contains(k))
                    <==> exists|t: int|
                    0 <= t < qv.validators.len()
                        && self.vertices@[k as int]->Validator_id@ == #[trigger] qv.validators[t]) by {
                if gq.validators@.contains(k) {
                    let t = choose|t: int|
                        0 <= t < qv.validators.len() && qsm.entries@[k as int].0@ == (
                        #[trigger] qv.validators[t]);
                    assert(self.vertices@[k as int]->Validator_id@ == qv.validators[t]);
                }
                if exists|t: int|
                    0 <= t < qv.validators.len()
                        && self.vertices@[k as int]->Validator_id@ == #[trigger] qv.validators[t] {
                    let t = choose|t: int|
                        0 <= t < qv.validators.len()
                            && self.vertices@[k as int]->Validator_id@ == #[trigger] qv.validators[t];
                    assert(qsm.entries@[k as int].0@ == qv.validators[t]);
                    assert(gq.validators@.contains(k));
                }
            }
            assert(qset_vertex_matches(self, idx as int, qv));
            assert forall|s2: int|
                0 <= s2 < gq.inner_qsets@.len() implies inner_tree_matches(
                self,
                (#[trigger] gq.inner_qsets@[s2]) as int,
                qv.inner_sets,
                fuel,
            ) by {
                let x = gq.inner_qsets@[s2];
                assert(g_new.inner_qsets@.contains(x));
                assert(inner_tree_matches(&pre_self, x as int, qset_views(qset.inner_sets@), fuel));
                let t = choose|t: int|
                    0 <= t < qset_views(qset.inner_sets@).len() && tree_matches(
                        &pre_self,
                        x as int,
                        #[trigger] qset_views(qset.inner_sets@)[t],
                        (fuel - 1) as nat,
                    );
                lemma_tree_matches_stable(
                    &pre_self,
                    self,
                    x as int,
                    qset_views(qset.inner_sets@)[t],
                    (fuel - 1) as nat,
                );
                assert(qv.inner_sets == qset_views(qset.inner_sets@));
                assert(inner_tree_matches(self, x as int, qv.inner_sets, fuel));
            }
            assert(tree_matches(self, idx as int, qv, fuel));
        }
        Ok(idx)
    }
}

/// Structural equality of the stored fields of two quorum-set vertices.
pub open spec fn qset_fields_equal(a: Qset, b: Qset) -> bool {
    &&& a.threshold == b.threshold
    &&& a.validators@ == b.validators@
    &&& a.inner_qsets@ == b.inner_qsets@
}

/// Deduplication: no two quorum-set vertices are structurally equal.
pub open spec fn distinct_qsets(fbas: &Fbas) -> bool {
    forall|i: int, j: int|
        fbas.validators@.len() <= i < j < fbas.vertices@.len() ==> !qset_fields_equal(
            (#[trigger] fbas.vertices@[i])->QSet_0,
            (#[trigger] fbas.vertices@[j])->QSet_0,
        )
}

/// The quorum-set vertex at `idx` carries the declared shape `qv`
/// recursively, up to deduplication: its own level matches
/// ([`qset_vertex_matches`]), and each of its inner vertices carries some
/// declared inner shape. (The declared-to-stored direction holds only up
/// to structural collapse and is stated one level deep by the counts in
/// [`qset_vertex_matches`].)
pub open spec fn tree_matches(fbas: &Fbas, idx: int, qv: QsetView, fuel: nat) -> bool
    decreases fuel, 1int,
{
    fuel > 0 && qset_vertex_matches(fbas, idx, qv) && (forall|s: int|
        0 <= s < fbas.vertices@[idx]->QSet_0.inner_qsets@.len() ==> inner_tree_matches(
            fbas,
            (#[trigger] fbas.vertices@[idx]->QSet_0.inner_qsets@[s]) as int,
            qv.inner_sets,
            fuel,
        ))
}

/// The vertex at `inner_idx` carries one of the declared inner shapes.
pub open spec fn inner_tree_matches(
    fbas: &Fbas,
    inner_idx: int,
    shapes: Seq<QsetView>,
    fuel: nat,
) -> bool
    decreases fuel, 0int,
{
    fuel > 0 && exists|t: int|
        0 <= t < shapes.len() && tree_matches(
            fbas,
            inner_idx,
            #[trigger] shapes[t],
            (fuel - 1) as nat,
        )
}

/// Introduction for [`inner_tree_matches`]: one matching shape is enough.
pub proof fn lemma_inner_tree_intro(
    fbas: &Fbas,
    inner_idx: int,
    shapes: Seq<QsetView>,
    fuel: nat,
    t: int,
)
    requires
        fuel > 0,
        0 <= t < shapes.len(),
        tree_matches(fbas, inner_idx, shapes[t], (fuel - 1) as nat),
    ensures
        inner_tree_matches(fbas, inner_idx, shapes, fuel),
{
}

/// Stability of [`inner_tree_matches`] under the same graph changes as
/// [`lemma_tree_matches_stable`].
pub proof fn lemma_inner_tree_matches_stable(
    fb1: &Fbas,
    fb2: &Fbas,
    inner_idx: int,
    shapes: Seq<QsetView>,
    fuel: nat,
)
    requires
        fb1.wf(),
        inner_tree_matches(fb1, inner_idx, shapes, fuel),
        0 <= inner_idx < fb1.vertices@.len(),
        fb2.validators@ == fb1.validators@,
        fb2.vertices@.len() >= fb1.vertices@.len(),
        forall|i: int|
            fb1.validators@.len() <= i < fb1.vertices@.len() ==> fb2.vertices@[i]
                == fb1.vertices@[i],
        forall|i: int|
            0 <= i < fb1.validators@.len() ==> ((#[trigger] fb2.vertices@[i]) is Validator
                && fb2.vertices@[i]->Validator_id@ == fb1.vertices@[i]->Validator_id@),
    ensures
        inner_tree_matches(fb2, inner_idx, shapes, fuel),
{
    let t = choose|t: int|
        0 <= t < shapes.len() && tree_matches(fb1, inner_idx, #[trigger] shapes[t], (fuel - 1) as nat);
    lemma_tree_matches_stable(fb1, fb2, inner_idx, shapes[t], (fuel - 1) as nat);
    lemma_inner_tree_intro(fb2, inner_idx, shapes, fuel, t);
}

/// A recursive representation fact survives growing the graph and
/// rewiring validator roots, like the one-level fact it is built from.
pub proof fn lemma_tree_matches_stable(fb1: &Fbas, fb2: &Fbas, idx: int, qv: QsetView, fuel: nat)
    requires
        fb1.wf(),
        tree_matches(fb1, idx, qv, fuel),
        0 <= idx < fb1.vertices@.len(),
        fb2.validators@ == fb1.validators@,
        fb2.vertices@.len() >= fb1.vertices@.len(),
        forall|i: int|
            fb1.validators@.len() <= i < fb1.vertices@.len() ==> fb2.vertices@[i]
                == fb1.vertices@[i],
        forall|i: int|
            0 <= i < fb1.validators@.len() ==> ((#[trigger] fb2.vertices@[i]) is Validator
                && fb2.vertices@[i]->Validator_id@ == fb1.vertices@[i]->Validator_id@),
    ensures
        tree_matches(fb2, idx, qv, fuel),
    decreases fuel,
{
    lemma_qset_vertex_matches_stable(fb1, fb2, idx, qv);
    let q = fb1.vertices@[idx]->QSet_0;
    assert(idx >= fb1.validators@.len());
    assert(fb2.vertices@[idx] == fb1.vertices@[idx]);
    assert(fb1.vertex_wf(idx));
    assert forall|s: int|
        0 <= s < fb2.vertices@[idx]->QSet_0.inner_qsets@.len() implies inner_tree_matches(
        fb2,
        (#[trigger] fb2.vertices@[idx]->QSet_0.inner_qsets@[s]) as int,
        qv.inner_sets,
        fuel,
    ) by {
        assert(fb2.vertices@[idx]->QSet_0.inner_qsets@[s] == q.inner_qsets@[s]);
        assert(inner_tree_matches(fb1, q.inner_qsets@[s] as int, qv.inner_sets, fuel));
        let t = choose|t: int|
            0 <= t < qv.inner_sets.len() && tree_matches(
                fb1,
                q.inner_qsets@[s] as int,
                #[trigger] qv.inner_sets[t],
                (fuel - 1) as nat,
            );
        lemma_tree_matches_stable(
            fb1,
            fb2,
            q.inner_qsets@[s] as int,
            qv.inner_sets[t],
            (fuel - 1) as nat,
        );
        assert(tree_matches(
            fb2,
            q.inner_qsets@[s] as int,
            qv.inner_sets[t],
            (fuel - 1) as nat,
        ));
    }
    assert(tree_matches(fb2, idx, qv, fuel));
}

/// Every buffer pair decodes: each node buffer is a valid `NodeId`
/// encoding, and each non-empty quorum set buffer a valid `ScpQuorumSet`
/// encoding.
pub open spec fn bufs_decode(nodes: Seq<Vec<u8>>, quorum_sets: Seq<Vec<u8>>) -> bool {
    forall|t: int|
        0 <= t < nodes.len() ==> (node_strkey_from_xdr((#[trigger] nodes[t])@) is Some && (
        quorum_sets[t]@.len() > 0 ==> qset_from_xdr(quorum_sets[t]@) is Some))
}

/// Every declaration that decodes stays within the protocol depth.
pub open spec fn bufs_depth_ok(quorum_sets: Seq<Vec<u8>>) -> bool {
    forall|t: int|
        0 <= t < quorum_sets.len() && (#[trigger] quorum_sets[t])@.len() > 0 ==> match qset_from_xdr(
            quorum_sets[t]@,
        ) {
            Some(qv) => qset_view_depth_ok(qv, QUORUM_SET_MAX_DEPTH as nat),
            None => true,
        }
}

/// Buffer pair `t` declares the id `id` with declaration `decl`: the
/// node buffer decodes to `id`, and the quorum set buffer is either
/// empty (no declaration wired) or decodes to the declared tree.
pub open spec fn buf_entry_declares(
    nodes: Seq<Vec<u8>>,
    quorum_sets: Seq<Vec<u8>>,
    t: int,
    id: Seq<char>,
    decl: Option<InternalScpQuorumSet>,
) -> bool {
    &&& 0 <= t < nodes.len()
    &&& t < quorum_sets.len()
    &&& node_strkey_from_xdr(nodes[t]@) == Some(id)
    &&& match decl {
        Some(q) => quorum_sets[t]@.len() > 0 && qset_from_xdr(quorum_sets[t]@) == Some(
            qset_view(q),
        ),
        None => quorum_sets[t]@.len() == 0,
    }
}

/// The quorum-set vertex at `idx` carries the declared shape `qv`, one
/// level deep: it has the declared threshold; a validator is one of its
/// members exactly when that validator's id is declared as a member; and
/// it has inner vertices exactly when inner sets were declared — at most
/// one per declared inner set, since structurally equal inner
/// declarations collapse onto shared vertices.
pub open spec fn qset_vertex_matches(fbas: &Fbas, idx: int, qv: QsetView) -> bool {
    match fbas.vertices@[idx] {
        Vertex::QSet(q) => {
            &&& q.threshold == qv.threshold
            &&& forall|k: usize|
                k < fbas.num_validators() ==> ((#[trigger] q.validators@.contains(k))
                    <==> exists|t: int|
                    0 <= t < qv.validators.len()
                        && fbas.vertices@[k as int]->Validator_id@ == #[trigger] qv.validators[t])
            &&& q.inner_qsets@.len() <= qv.inner_sets.len()
            &&& (qv.inner_sets.len() > 0 ==> q.inner_qsets@.len() > 0)
        },
        _ => false,
    }
}

/// A shape fact survives growing the graph and rewiring validator
/// roots, as long as every validator keeps its id and every existing
/// quorum-set vertex keeps its value.
pub proof fn lemma_qset_vertex_matches_stable(fb1: &Fbas, fb2: &Fbas, idx: int, qv: QsetView)
    requires
        fb1.wf(),
        qset_vertex_matches(fb1, idx, qv),
        0 <= idx < fb1.vertices@.len(),
        fb2.validators@ == fb1.validators@,
        fb2.vertices@.len() >= fb1.vertices@.len(),
        forall|i: int|
            fb1.validators@.len() <= i < fb1.vertices@.len() ==> fb2.vertices@[i]
                == fb1.vertices@[i],
        forall|i: int|
            0 <= i < fb1.validators@.len() ==> ((#[trigger] fb2.vertices@[i]) is Validator
                && fb2.vertices@[i]->Validator_id@ == fb1.vertices@[i]->Validator_id@),
    ensures
        qset_vertex_matches(fb2, idx, qv),
{
    let nv = fb1.validators@.len() as int;
    match fb1.vertices@[idx] {
        Vertex::QSet(q) => {
            assert(idx >= nv);
            assert(fb2.vertices@[idx] == fb1.vertices@[idx]);
            assert forall|k: usize|
                k < fb2.num_validators() implies ((#[trigger] q.validators@.contains(k))
                    <==> exists|t: int|
                    0 <= t < qv.validators.len()
                        && fb2.vertices@[k as int]->Validator_id@ == #[trigger] qv.validators[t]) by {
                assert(fb2.vertices@[k as int]->Validator_id@
                    == fb1.vertices@[k as int]->Validator_id@);
                if q.validators@.contains(k) {
                    let t = choose|t: int|
                        0 <= t < qv.validators.len()
                            && fb1.vertices@[k as int]->Validator_id@ == #[trigger] qv.validators[t];
                    assert(fb2.vertices@[k as int]->Validator_id@ == qv.validators[t]);
                }
                if exists|t: int|
                    0 <= t < qv.validators.len()
                        && fb2.vertices@[k as int]->Validator_id@ == #[trigger] qv.validators[t] {
                    let t = choose|t: int|
                        0 <= t < qv.validators.len()
                            && fb2.vertices@[k as int]->Validator_id@ == #[trigger] qv.validators[t];
                    assert(fb1.vertices@[k as int]->Validator_id@ == qv.validators[t]);
                }
            }
        },
        _ => {
            assert(false);
        },
    }
}

/// Law: a graph has at least as many vertices as validators, and every
/// entry of `validators` points into the vertex table, at a validator
/// vertex.
pub proof fn lemma_validators_wf(fbas: &Fbas)
    requires
        fbas.wf(),
    ensures
        fbas.num_vertices() >= fbas.num_validators(),
        forall|k: int|
            0 <= k < fbas.validators@.len() ==> (#[trigger] fbas.validators@[k])
                < fbas.num_vertices() && fbas.vertices@[fbas.validators@[k] as int] is Validator,
{
    assert forall|k: int|
        0 <= k < fbas.validators@.len() implies (#[trigger] fbas.validators@[k])
        < fbas.num_vertices() && fbas.vertices@[fbas.validators@[k] as int] is Validator by {
        assert(fbas.validators@[k] == k);
    }
}

/// Law: the edges out of a quorum-set vertex are exactly its validator
/// members followed by its inner sets — as many edges as members — all
/// pointing into the vertex table, with no duplicates among them.
pub proof fn lemma_qset_edges(fbas: &Fbas, i: int)
    requires
        fbas.wf(),
        0 <= i < fbas.num_vertices(),
        fbas.vertices@[i] is QSet,
    ensures
        fbas.vertices@[i].successors() == fbas.vertices@[i]->QSet_0.validators@
            + fbas.vertices@[i]->QSet_0.inner_qsets@,
        fbas.vertices@[i].successors().len() == fbas.vertices@[i]->QSet_0.validators@.len()
            + fbas.vertices@[i]->QSet_0.inner_qsets@.len(),
        forall|t: int|
            0 <= t < fbas.vertices@[i].successors().len() ==> (
            #[trigger] fbas.vertices@[i].successors()[t]) < fbas.num_vertices(),
        forall|t: int, u: int|
            0 <= t < u < fbas.vertices@[i].successors().len()
                ==> fbas.vertices@[i].successors()[t] != fbas.vertices@[i].successors()[u],
{
    assert(fbas.vertex_wf(i));
    let q = fbas.vertices@[i]->QSet_0;
    let s = fbas.vertices@[i].successors();
    let nv = fbas.validators@.len() as int;
    assert forall|t: int| 0 <= t < s.len() implies (#[trigger] s[t]) < fbas.num_vertices() by {
        if t < q.validators@.len() {
            assert(s[t] == q.validators@[t]);
        } else {
            assert(s[t] == q.inner_qsets@[t - q.validators@.len()]);
        }
    }
    assert forall|t: int, u: int| 0 <= t < u < s.len() implies s[t] != s[u] by {
        let vl = q.validators@.len() as int;
        if u < vl {
            assert(s[t] == q.validators@[t] && s[u] == q.validators@[u]);
        } else if t >= vl {
            assert(s[t] == q.inner_qsets@[t - vl] && s[u] == q.inner_qsets@[u - vl]);
        } else {
            assert(s[t] == q.validators@[t] && s[u] == q.inner_qsets@[u - vl]);
            assert(s[t] < nv <= s[u]);
        }
    }
}

/// The successor list of a well-formed vertex is strictly increasing:
/// validator members come first in ascending order, all below the
/// validator count, then inner quorum sets in ascending order.
pub proof fn lemma_successors_sorted(fbas: &Fbas, v: int)
    requires
        fbas.wf(),
        0 <= v < fbas.num_vertices(),
    ensures
        sorted_strict(fbas.vertices@[v].successors()),
{
    assert(fbas.vertex_wf(v));
    let s = fbas.vertices@[v].successors();
    match fbas.vertices@[v] {
        Vertex::Validator { .. } => {},
        Vertex::QSet(q) => {
            let vl = q.validators@.len() as int;
            let nv = fbas.validators@.len() as int;
            assert forall|t: int, u: int| 0 <= t < u < s.len() implies s[t] < s[u] by {
                if u < vl {
                    assert(s[t] == q.validators@[t] && s[u] == q.validators@[u]);
                } else if t >= vl {
                    assert(s[t] == q.inner_qsets@[t - vl] && s[u] == q.inner_qsets@[u - vl]);
                } else {
                    assert(s[t] == q.validators@[t] && s[u] == q.inner_qsets@[u - vl]);
                    assert(s[t] < nv <= s[u]);
                }
            }
        },
    }
}

/// Every successor of a well-formed vertex is a valid vertex index.
pub proof fn lemma_successors_bound(fbas: &Fbas, v: int)
    requires
        fbas.wf(),
        0 <= v < fbas.num_vertices(),
    ensures
        forall|t: int|
            0 <= t < fbas.vertices@[v].successors().len() ==> (
            #[trigger] fbas.vertices@[v].successors()[t]) < fbas.num_vertices(),
{
    assert(fbas.vertex_wf(v));
    let s = fbas.vertices@[v].successors();
    match fbas.vertices@[v] {
        Vertex::Validator { .. } => {},
        Vertex::QSet(q) => {
            assert forall|t: int| 0 <= t < s.len() implies (#[trigger] s[t])
                < fbas.num_vertices() by {
                if t < q.validators@.len() {
                    assert(s[t] == q.validators@[t]);
                } else {
                    assert(s[t] == q.inner_qsets@[t - q.validators@.len()]);
                }
            }
        },
    }
}

/// The index of the validator with the given id, by linear search over the
/// sorted entries.
fn find_validator(qsm: &QuorumSetMap, id: &String) -> (r: Option<usize>)
    ensures
        r matches Some(k) ==> k < qsm.spec_len() && qsm.entries@[k as int].0@ == id@,
        r is None ==> !qsm.spec_contains(id@),
{
    let n = qsm.entries.len();
    let mut k: usize = 0;
    while k < n
        invariant
            k <= n,
            n == qsm.entries@.len(),
            forall|t: int| 0 <= t < k ==> (#[trigger] qsm.entries@[t]).0@ != id@,
        decreases n - k,
    {
        if qsm.entries[k].0 == *id {
            return Some(k);
        }
        k += 1;
    }
    None
}

/// Inserts `x` into a strictly sorted index list, keeping it strictly
/// sorted; a duplicate is dropped.
fn insert_sorted_unique(v: &mut Vec<usize>, x: usize)
    requires
        sorted_strict(old(v)@),
    ensures
        sorted_strict(final (v)@),
        final (v)@.contains(x),
        forall|y: usize| #[trigger] final (v)@.contains(y) <==> (old(v)@.contains(y) || y == x),
        final (v)@.len() <= old(v)@.len() + 1,
{
    let ghost pre = v@;
    let n = v.len();
    let mut j: usize = 0;
    loop
        invariant
            j <= n,
            n == v@.len(),
            v@ == pre,
            forall|t: int| 0 <= t < j ==> v@[t] < x,
        ensures
            j <= n,
            v@ == pre,
            forall|t: int| 0 <= t < j ==> v@[t] < x,
            j == n || v@[j as int] >= x,
        decreases n - j,
    {
        if j == n {
            break ;
        }
        if v[j] < x {
            j += 1;
        } else {
            break ;
        }
    }
    if j < n && v[j] == x {
        proof {
            assert(v@[j as int] == x);
            assert(v@.contains(x));
        }
        return ;
    }
    v.insert(j, x);
    proof {
        assert(v@ == pre.insert(j as int, x));
        assert forall|a: int, b: int| 0 <= a < b < v@.len() implies v@[a] < v@[b] by {
            if a < j && b < j {
                assert(v@[a] == pre[a] && v@[b] == pre[b]);
            } else if a < j && b == j {
                assert(v@[a] == pre[a]);
            } else if a < j && b > j {
                assert(v@[a] == pre[a] && v@[b] == pre[b - 1]);
                if a < b - 1 {
                } else {
                    assert(a == b - 1);
                    assert(a < j && j <= b - 1);
                    assert(false);
                }
            } else if a == j && b > j {
                assert(v@[b] == pre[b - 1]);
                assert(j < n && pre[j as int] > x || j == n);
                assert(j <= b - 1 < pre.len());
            } else {
                assert(v@[a] == pre[a - 1] && v@[b] == pre[b - 1]);
            }
        }
        assert(v@[j as int] == x);
        assert(v@.contains(x));
        assert forall|y: usize| #[trigger] v@.contains(y) <==> (pre.contains(y) || y == x) by {
            if v@.contains(y) {
                let t = choose|t: int| 0 <= t < v@.len() && v@[t] == y;
                if t < j {
                    assert(pre[t] == y);
                    assert(pre.contains(y));
                } else if t > j {
                    assert(pre[t - 1] == y);
                    assert(pre.contains(y));
                }
            }
            if pre.contains(y) {
                let t = choose|t: int| 0 <= t < pre.len() && pre[t] == y;
                if t < j {
                    assert(v@[t] == y);
                } else {
                    assert(v@[t + 1] == y);
                }
                assert(v@.contains(y));
            }
            if y == x {
                assert(v@.contains(y));
            }
        }
    }
}

/// Element-wise equality of two index lists.
fn vec_usize_eq(a: &Vec<usize>, b: &Vec<usize>) -> (r: bool)
    ensures
        r == (a@ == b@),
{
    if a.len() != b.len() {
        proof {
            if a@ == b@ {
                assert(a@.len() == b@.len());
            }
        }
        return false;
    }
    let mut i: usize = 0;
    while i < a.len()
        invariant
            i <= a@.len(),
            a@.len() == b@.len(),
            forall|t: int| 0 <= t < i ==> a@[t] == b@[t],
        decreases a@.len() - i,
    {
        if a[i] != b[i] {
            return false;
        }
        i += 1;
    }
    proof {
        assert(a@ =~= b@);
    }
    true
}

/// Structural equality of two quorum-set vertices.
fn qset_eq(a: &Qset, b: &Qset) -> (r: bool)
    ensures
        r == (a.threshold == b.threshold && a.validators@ == b.validators@ && a.inner_qsets@
            == b.inner_qsets@),
{
    a.threshold == b.threshold && vec_usize_eq(&a.validators, &b.validators) && vec_usize_eq(
        &a.inner_qsets,
        &b.inner_qsets,
    )
}

} // verus!
