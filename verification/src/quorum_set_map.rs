//! Declared quorum sets and the map from validator id to declaration.
//!
//! The map keeps its entries sorted by the UTF-8 bytes of the key — the
//! order in which `str` values compare in Rust — so that traversal visits
//! validators in a deterministic, sorted order.

use vstd::prelude::*;
use vstd::string::*;

verus! {

/// A declared quorum set: a threshold over a list of validator ids and a
/// list of nested quorum sets. Declarations are finite trees; an inner set
/// is spelled out in place, never a reference to another validator's set.
#[derive(Debug, PartialEq, Eq)]
pub struct InternalScpQuorumSet {
    pub threshold: u32,
    pub validators: Vec<String>,
    pub inner_sets: Vec<InternalScpQuorumSet>,
}

/// The mathematical shape of a declaration tree: thresholds, member id
/// character sequences, and nested shapes.
pub ghost struct QsetView {
    pub threshold: u32,
    pub validators: Seq<Seq<char>>,
    pub inner_sets: Seq<QsetView>,
}

/// The shape of a declared quorum set.
pub open spec fn qset_view(q: InternalScpQuorumSet) -> QsetView
    decreases q,
{
    QsetView {
        threshold: q.threshold,
        validators: q.validators@.map_values(|s: String| s@),
        inner_sets: qset_views(q.inner_sets@),
    }
}

/// The shapes of a sequence of declared quorum sets.
pub open spec fn qset_views(qs: Seq<InternalScpQuorumSet>) -> Seq<QsetView>
    decreases qs,
{
    if qs.len() == 0 {
        Seq::empty()
    } else {
        seq![qset_view(qs[0])] + qset_views(qs.drop_first())
    }
}

pub proof fn lemma_qset_views_len(qs: Seq<InternalScpQuorumSet>)
    ensures
        qset_views(qs).len() == qs.len(),
    decreases qs.len(),
{
    if qs.len() > 0 {
        lemma_qset_views_len(qs.drop_first());
    }
}

pub proof fn lemma_qset_views_index(qs: Seq<InternalScpQuorumSet>, i: int)
    requires
        0 <= i < qs.len(),
    ensures
        qset_views(qs).len() == qs.len(),
        qset_views(qs)[i] == qset_view(qs[i]),
    decreases qs.len(),
{
    lemma_qset_views_len(qs);
    if i > 0 {
        lemma_qset_views_index(qs.drop_first(), i - 1);
    }
}

/// True when the declaration tree nests fewer than `fuel` levels of quorum
/// sets: the root consumes one level, each inner set one more.
pub open spec fn qset_depth_ok(q: InternalScpQuorumSet, fuel: nat) -> bool
    decreases fuel,
{
    fuel > 0 && forall|i: int|
        0 <= i < q.inner_sets@.len() ==> qset_depth_ok(
            #[trigger] q.inner_sets@[i],
            (fuel - 1) as nat,
        )
}

/// The same depth bound, over the shape of a declaration.
pub open spec fn qset_view_depth_ok(qv: QsetView, fuel: nat) -> bool
    decreases fuel,
{
    fuel > 0 && forall|i: int|
        0 <= i < qv.inner_sets.len() ==> qset_view_depth_ok(
            #[trigger] qv.inner_sets[i],
            (fuel - 1) as nat,
        )
}

/// A declaration is within depth exactly when its shape is.
pub proof fn lemma_depth_ok_view(q: InternalScpQuorumSet, fuel: nat)
    ensures
        qset_depth_ok(q, fuel) == qset_view_depth_ok(qset_view(q), fuel),
    decreases fuel,
{
    if fuel > 0 {
        lemma_qset_views_len(q.inner_sets@);
        if qset_depth_ok(q, fuel) {
            assert forall|i: int|
                0 <= i < qset_view(q).inner_sets.len() implies qset_view_depth_ok(
                #[trigger] qset_view(q).inner_sets[i],
                (fuel - 1) as nat,
            ) by {
                lemma_qset_views_index(q.inner_sets@, i);
                lemma_depth_ok_view(q.inner_sets@[i], (fuel - 1) as nat);
            }
        }
        if qset_view_depth_ok(qset_view(q), fuel) {
            assert forall|i: int|
                0 <= i < q.inner_sets@.len() implies qset_depth_ok(
                #[trigger] q.inner_sets@[i],
                (fuel - 1) as nat,
            ) by {
                lemma_qset_views_index(q.inner_sets@, i);
                assert(qset_view_depth_ok(qset_view(q).inner_sets[i], (fuel - 1) as nat));
                lemma_depth_ok_view(q.inner_sets@[i], (fuel - 1) as nat);
            }
        }
    }
}

/// The UTF-8 encoding of a string, the unit in which keys are ordered.
pub open spec fn key_bytes(s: Seq<char>) -> Seq<u8> {
    vstd::utf8::encode_utf8(s)
}

/// Strict lexicographic order on byte strings; a strict prefix comes first.
pub open spec fn bytes_lt(a: Seq<u8>, b: Seq<u8>) -> bool
    decreases a.len(),
{
    if b.len() == 0 {
        false
    } else if a.len() == 0 {
        true
    } else if a[0] < b[0] {
        true
    } else if a[0] > b[0] {
        false
    } else {
        bytes_lt(a.drop_first(), b.drop_first())
    }
}

pub proof fn lemma_bytes_lt_total(a: Seq<u8>, b: Seq<u8>)
    ensures
        bytes_lt(a, b) || bytes_lt(b, a) || a == b,
    decreases a.len(),
{
    if b.len() == 0 {
        if a.len() == 0 {
            assert(a =~= b);
        }
    } else if a.len() == 0 {
    } else if a[0] < b[0] || a[0] > b[0] {
    } else {
        lemma_bytes_lt_total(a.drop_first(), b.drop_first());
        if a.drop_first() == b.drop_first() {
            assert(a.drop_first().len() == a.len() - 1);
            assert(b.drop_first().len() == b.len() - 1);
            assert(a.len() == b.len());
            assert forall|i: int| 0 <= i < a.len() implies a[i] == b[i] by {
                if i > 0 {
                    assert(a[i] == a.drop_first()[i - 1]);
                    assert(b[i] == b.drop_first()[i - 1]);
                }
            }
            assert(a =~= b);
        }
    }
}

pub proof fn lemma_bytes_lt_asym(a: Seq<u8>, b: Seq<u8>)
    requires
        bytes_lt(a, b),
    ensures
        !bytes_lt(b, a),
        a != b,
    decreases a.len(),
{
    if a.len() == 0 {
        assert(b.len() > 0);
        assert(a.len() != b.len());
    } else if a[0] < b[0] {
        assert(a[0] != b[0]);
    } else {
        lemma_bytes_lt_asym(a.drop_first(), b.drop_first());
        assert(a.drop_first() != b.drop_first());
    }
}

pub proof fn lemma_bytes_lt_trans(a: Seq<u8>, b: Seq<u8>, c: Seq<u8>)
    requires
        bytes_lt(a, b),
        bytes_lt(b, c),
    ensures
        bytes_lt(a, c),
    decreases b.len(),
{
    if a.len() == 0 {
    } else if a[0] == b[0] && b[0] == c[0] {
        lemma_bytes_lt_trans(a.drop_first(), b.drop_first(), c.drop_first());
    }
}

/// Where two byte strings agree on a common prefix of length `i` and then
/// end or differ, the lexicographic order is decided at position `i`.
pub proof fn lemma_bytes_lt_common_prefix(a: Seq<u8>, b: Seq<u8>, i: int)
    requires
        0 <= i <= a.len(),
        i <= b.len(),
        forall|k: int| 0 <= k < i ==> a[k] == b[k],
        i == a.len() || i == b.len() || a[i] != b[i],
    ensures
        bytes_lt(a, b) == if i == a.len() {
            a.len() < b.len()
        } else if i == b.len() {
            false
        } else {
            a[i] < b[i]
        },
    decreases i,
{
    if i == 0 {
    } else {
        assert(a[0] == b[0]);
        assert forall|k: int| 0 <= k < i - 1 implies a.drop_first()[k] == b.drop_first()[k] by {
            assert(a.drop_first()[k] == a[k + 1]);
            assert(b.drop_first()[k] == b[k + 1]);
        }
        if i < a.len() && i < b.len() {
            assert(a.drop_first()[i - 1] == a[i]);
            assert(b.drop_first()[i - 1] == b[i]);
        }
        lemma_bytes_lt_common_prefix(a.drop_first(), b.drop_first(), i - 1);
    }
}

/// Distinct character sequences have distinct UTF-8 encodings.
pub proof fn lemma_key_bytes_injective(a: Seq<char>, b: Seq<char>)
    requires
        key_bytes(a) == key_bytes(b),
    ensures
        a == b,
{
    vstd::utf8::encode_utf8_decode_utf8(a);
    vstd::utf8::encode_utf8_decode_utf8(b);
}

/// Compares two strings in the lexicographic order of their UTF-8 bytes.
pub(crate) fn str_bytes_lt(a: &str, b: &str) -> (r: bool)
    ensures
        r == bytes_lt(key_bytes(a@), key_bytes(b@)),
{
    let ab = a.as_bytes();
    let bb = b.as_bytes();
    let alen = ab.len();
    let blen = bb.len();
    let mut i: usize = 0;
    loop
        invariant
            i <= alen,
            i <= blen,
            alen == ab@.len(),
            blen == bb@.len(),
            ab@ == key_bytes(a@),
            bb@ == key_bytes(b@),
            forall|k: int| 0 <= k < i ==> ab@[k] == bb@[k],
        decreases alen - i,
    {
        if i >= alen || i >= blen {
            proof {
                lemma_bytes_lt_common_prefix(ab@, bb@, i as int);
            }
            return alen < blen;
        }
        let ca = ab[i];
        let cb = bb[i];
        if ca != cb {
            proof {
                lemma_bytes_lt_common_prefix(ab@, bb@, i as int);
            }
            return ca < cb;
        }
        i += 1;
    }
}

/// Mapping from validator id to its declared quorum set, with entries
/// sorted by key. A `None` declaration records a validator whose quorum
/// set buffer was empty: the validator exists but no dependency is wired.
pub struct QuorumSetMap {
    pub entries: Vec<(String, Option<InternalScpQuorumSet>)>,
}

impl QuorumSetMap {
    /// Keys strictly increase in byte order; in particular they are unique.
    pub open spec fn wf(&self) -> bool {
        forall|i: int, j: int|
            0 <= i < j < self.entries@.len() ==> bytes_lt(
                key_bytes((#[trigger] self.entries@[i]).0@),
                key_bytes((#[trigger] self.entries@[j]).0@),
            )
    }

    pub open spec fn spec_len(&self) -> nat {
        self.entries@.len()
    }

    pub open spec fn spec_contains(&self, id: Seq<char>) -> bool {
        exists|i: int| 0 <= i < self.entries@.len() && (#[trigger] self.entries@[i]).0@ == id
    }

    /// The declaration stored for `id`, where `id` is a key of the map.
    pub open spec fn spec_at(&self, id: Seq<char>) -> Option<InternalScpQuorumSet> {
        self.entries@[choose|i: int|
            0 <= i < self.entries@.len() && (#[trigger] self.entries@[i]).0@ == id].1
    }

    /// Sorted keys are unique: distinct positions hold distinct ids.
    pub proof fn lemma_keys_unique(&self, i: int, j: int)
        requires
            self.wf(),
            0 <= i < self.entries@.len(),
            0 <= j < self.entries@.len(),
            i != j,
        ensures
            self.entries@[i].0@ != self.entries@[j].0@,
    {
        if i < j {
            lemma_bytes_lt_asym(key_bytes(self.entries@[i].0@), key_bytes(self.entries@[j].0@));
        } else {
            lemma_bytes_lt_asym(key_bytes(self.entries@[j].0@), key_bytes(self.entries@[i].0@));
        }
    }

    pub fn new() -> (r: Self)
        ensures
            r.wf(),
            r.spec_len() == 0,
    {
        QuorumSetMap { entries: Vec::new() }
    }

    pub fn len(&self) -> (r: usize)
        ensures
            r == self.spec_len(),
    {
        self.entries.len()
    }

    /// Inserts `id -> qset`, replacing the declaration when `id` is
    /// already a key. The sorted order of the entries is preserved.
    pub fn insert(&mut self, id: String, qset: Option<InternalScpQuorumSet>)
        requires
            old(self).wf(),
        ensures
            final (self).wf(),
            final (self).spec_contains(id@),
            final (self).spec_at(id@) == qset,
            forall|other: Seq<char>|
                #[trigger] final (self).spec_contains(other) <==> (old(self).spec_contains(other)
                    || other == id@),
            forall|other: Seq<char>|
                other != id@ && old(self).spec_contains(other) ==> #[trigger] final (self).spec_at(
                    other,
                ) == old(self).spec_at(other),
            final (self).spec_len() == if old(self).spec_contains(id@) {
                old(self).spec_len()
            } else {
                old(self).spec_len() + 1
            },
    {
        let ghost pre = self.entries@;
        let mut j: usize = 0;
        let n = self.entries.len();
        loop
            invariant
                j <= n,
                n == self.entries@.len(),
                self.entries@ == pre,
                forall|k: int|
                    0 <= k < j ==> bytes_lt(
                        key_bytes((#[trigger] self.entries@[k]).0@),
                        key_bytes(id@),
                    ),
            ensures
                j <= n,
                n == self.entries@.len(),
                self.entries@ == pre,
                forall|k: int|
                    0 <= k < j ==> bytes_lt(
                        key_bytes((#[trigger] self.entries@[k]).0@),
                        key_bytes(id@),
                    ),
                j == n || !bytes_lt(key_bytes(self.entries@[j as int].0@), key_bytes(id@)),
            decreases n - j,
        {
            if j == n {
                break ;
            }
            if str_bytes_lt(self.entries[j].0.as_str(), id.as_str()) {
                j += 1;
            } else {
                break ;
            }
        }
        proof {
            assert forall|k: int| 0 <= k < j implies (#[trigger] pre[k]).0@ != id@ by {
                lemma_bytes_lt_asym(key_bytes(pre[k].0@), key_bytes(id@));
            }
        }
        let hit = j < n && !str_bytes_lt(self.entries[j].0.as_str(), id.as_str()) && !str_bytes_lt(
            id.as_str(),
            self.entries[j].0.as_str(),
        );
        proof {
            if j < n {
                lemma_bytes_lt_total(key_bytes(pre[j as int].0@), key_bytes(id@));
                if key_bytes(pre[j as int].0@) == key_bytes(id@) {
                    lemma_key_bytes_injective(pre[j as int].0@, id@);
                }
            }
        }
        if hit {
            // The key is present at position `j`: replace its declaration.
            let ghost hit_key = pre[j as int].0@;
            self.entries.set(j, (id, qset));
            proof {
                assert(hit_key == id@);
                assert forall|i: int, k: int|
                    0 <= i < k < self.entries@.len() implies bytes_lt(
                    key_bytes((#[trigger] self.entries@[i]).0@),
                    key_bytes((#[trigger] self.entries@[k]).0@),
                ) by {
                    assert(self.entries@[i].0@ == pre[i].0@);
                    assert(self.entries@[k].0@ == pre[k].0@);
                }
                assert(self.entries@[j as int].0@ == id@);
                assert(self.spec_contains(id@));
                assert forall|other: Seq<char>| #[trigger]
                    self.spec_contains(other) <==> (old(self).spec_contains(other) || other
                        == id@) by {
                    if self.spec_contains(other) {
                        let i = choose|i: int|
                            0 <= i < self.entries@.len() && (#[trigger] self.entries@[i]).0@
                                == other;
                        if i != j {
                            assert(old(self).entries@[i].0@ == other);
                            assert(old(self).spec_contains(other));
                        } else {
                            assert(other == id@);
                        }
                    }
                    if old(self).spec_contains(other) && other != id@ {
                        let i = choose|i: int|
                            0 <= i < old(self).entries@.len() && (#[trigger] old(
                                self,
                            ).entries@[i]).0@ == other;
                        assert(i != j);
                        assert(self.entries@[i].0@ == other);
                        assert(self.spec_contains(other));
                    }
                }
                self.lemma_at_position(j as int);
                assert forall|other: Seq<char>|
                    other != id@ && old(self).spec_contains(other) implies #[trigger] self.spec_at(
                    other,
                ) == old(self).spec_at(other) by {
                    let i = choose|i: int| 0 <= i < pre.len() && (#[trigger] pre[i]).0@ == other;
                    assert(self.entries@[i].0@ == other);
                    self.lemma_at_position(i);
                    old(self).lemma_at_position(i);
                }
            }
        } else {
            // The key is absent: insert it between its neighbours.
            proof {
                if j < n {
                    lemma_bytes_lt_asym(key_bytes(id@), key_bytes(pre[j as int].0@));
                }
                assert forall|k: int| j <= k < n implies (#[trigger] pre[k]).0@ != id@ by {
                    if k > j {
                        lemma_bytes_lt_trans(
                            key_bytes(id@),
                            key_bytes(pre[j as int].0@),
                            key_bytes(pre[k].0@),
                        );
                    }
                    lemma_bytes_lt_asym(key_bytes(id@), key_bytes(pre[k].0@));
                }
                assert(!old(self).spec_contains(id@));
            }
            self.entries.insert(j, (id, qset));
            proof {
                assert forall|i: int, k: int|
                    0 <= i < k < self.entries@.len() implies bytes_lt(
                    key_bytes((#[trigger] self.entries@[i]).0@),
                    key_bytes((#[trigger] self.entries@[k]).0@),
                ) by {
                    let ii = if i < j {
                        i
                    } else {
                        i - 1
                    };
                    let kk = if k < j {
                        k
                    } else {
                        k - 1
                    };
                    if i == j {
                        assert(self.entries@[k].0@ == pre[kk].0@);
                        if kk > j {
                            lemma_bytes_lt_trans(
                                key_bytes(id@),
                                key_bytes(pre[j as int].0@),
                                key_bytes(pre[kk].0@),
                            );
                        }
                    } else if k == j {
                        assert(self.entries@[i].0@ == pre[ii].0@);
                    } else {
                        assert(self.entries@[i].0@ == pre[ii].0@);
                        assert(self.entries@[k].0@ == pre[kk].0@);
                    }
                }
                assert(self.entries@[j as int].0@ == id@);
                assert(self.spec_contains(id@));
                assert forall|other: Seq<char>| #[trigger]
                    self.spec_contains(other) <==> (old(self).spec_contains(other) || other
                        == id@) by {
                    if self.spec_contains(other) {
                        let i = choose|i: int|
                            0 <= i < self.entries@.len() && (#[trigger] self.entries@[i]).0@
                                == other;
                        if i < j {
                            assert(pre[i].0@ == other);
                        } else if i > j {
                            assert(pre[i - 1].0@ == other);
                        }
                    }
                    if old(self).spec_contains(other) {
                        let i = choose|i: int|
                            0 <= i < pre.len() && (#[trigger] pre[i]).0@ == other;
                        if i < j {
                            assert(self.entries@[i].0@ == other);
                        } else {
                            assert(self.entries@[i + 1].0@ == other);
                        }
                    }
                }
                self.lemma_at_position(j as int);
                assert forall|other: Seq<char>|
                    other != id@ && old(self).spec_contains(other) implies #[trigger] self.spec_at(
                    other,
                ) == old(self).spec_at(other) by {
                    let i = choose|i: int| 0 <= i < pre.len() && (#[trigger] pre[i]).0@ == other;
                    old(self).lemma_at_position(i);
                    if i < j {
                        assert(self.entries@[i].0@ == other);
                        self.lemma_at_position(i);
                    } else {
                        assert(self.entries@[i + 1].0@ == other);
                        self.lemma_at_position(i + 1);
                    }
                }
            }
        }
    }

    /// With unique keys, `spec_at` of the key at position `i` is the value
    /// at position `i`.
    pub proof fn lemma_at_position(&self, i: int)
        requires
            self.wf(),
            0 <= i < self.entries@.len(),
        ensures
            self.spec_contains(self.entries@[i].0@),
            self.spec_at(self.entries@[i].0@) == self.entries@[i].1,
    {
        assert(self.spec_contains(self.entries@[i].0@));
        let k = choose|k: int|
            0 <= k < self.entries@.len() && (#[trigger] self.entries@[k]).0@ == self.entries@[i].0@;
        if k != i {
            self.lemma_keys_unique(i, k);
        }
    }
}

} // verus!
