//! The CNF form of the quorum-split question, as a mathematical object.
//!
//! For a graph with `n` vertices the solver's variables are laid out as:
//! variable `v` is "vertex `v` is in quorum A", variable `n + v` is
//! "vertex `v` is in quorum B", and from `2 n` on come the Tseitin
//! auxiliaries — for each quorum in turn, for each vertex in index order,
//! one per size-threshold choice of its successors, in the order the
//! choices are enumerated. [`fbas_clauses`] is the exact clause sequence
//! the encoder emits; the encoder's contract says it emits nothing else,
//! which also makes the clause set a function of the graph alone.

use crate::combinations::{
    combs, is_subsequence, lemma_combs_complete, lemma_combs_sound, lemma_subseq_bound,
};
use crate::fbas::{lemma_successors_bound, Fbas};
use crate::sat::{clause_sat, cnf_sat, lit_sat, Lit};
use vstd::prelude::*;

verus! {

pub open spec fn mk_lit(v: int, pos: bool) -> Lit {
    Lit { var: v as u32, pos }
}

/// The successors of vertex `v`.
pub open spec fn succs(fbas: &Fbas, v: int) -> Seq<usize> {
    fbas.vertices@[v].successors()
}

/// The threshold of vertex `v`.
pub open spec fn thr(fbas: &Fbas, v: int) -> nat {
    fbas.vertices@[v].spec_threshold() as nat
}

/// How many size-threshold choices of successors vertex `v` has; one
/// Tseitin auxiliary is spent per choice per quorum.
pub open spec fn ncombs(fbas: &Fbas, v: int) -> nat {
    combs(succs(fbas, v), thr(fbas, v)).len()
}

/// Auxiliaries spent on the vertices before `v` within one quorum's pass.
pub open spec fn aux_before(fbas: &Fbas, v: int) -> nat
    decreases v,
{
    if v <= 0 {
        0
    } else {
        aux_before(fbas, v - 1) + ncombs(fbas, v - 1)
    }
}

/// Auxiliaries spent on one whole quorum's pass.
pub open spec fn aux_total(fbas: &Fbas) -> nat {
    aux_before(fbas, fbas.num_vertices() as int)
}

pub proof fn lemma_aux_before_monotone(fbas: &Fbas, v: int, w: int)
    requires
        0 <= v <= w,
    ensures
        aux_before(fbas, v) <= aux_before(fbas, w),
    decreases w - v,
{
    if v < w {
        lemma_aux_before_monotone(fbas, v, w - 1);
    }
}

/// An auxiliary index below `aux_total` decomposes uniquely as
/// `aux_before(v) + j` with `j < ncombs(v)`.
pub proof fn lemma_aux_index_unique(fbas: &Fbas, v1: int, j1: int, v2: int, j2: int)
    requires
        0 <= v1 < fbas.num_vertices(),
        0 <= v2 < fbas.num_vertices(),
        0 <= j1 < ncombs(fbas, v1),
        0 <= j2 < ncombs(fbas, v2),
        aux_before(fbas, v1) + j1 == aux_before(fbas, v2) + j2,
    ensures
        v1 == v2,
        j1 == j2,
{
    if v1 < v2 {
        lemma_aux_before_monotone(fbas, v1 + 1, v2);
        assert(aux_before(fbas, v1 + 1) == aux_before(fbas, v1) + ncombs(fbas, v1));
    } else if v2 < v1 {
        lemma_aux_before_monotone(fbas, v2 + 1, v1);
        assert(aux_before(fbas, v2 + 1) == aux_before(fbas, v2) + ncombs(fbas, v2));
    }
}

// ---------------------------------------------------------------------
// The clause sequence.
// ---------------------------------------------------------------------
/// Non-emptiness: some validator is in the quorum whose membership
/// variables start at `off`.
pub open spec fn nonempty_clause(fbas: &Fbas, off: int) -> Seq<Lit> {
    Seq::new(fbas.num_validators() as nat, |k: int| mk_lit(off + k, true))
}

/// Disjointness: validator `k` is not in both quorums.
pub open spec fn disjoint_clause(fbas: &Fbas, k: int) -> Seq<Lit> {
    seq![mk_lit(k, false), mk_lit(fbas.num_vertices() + k, false)]
}

pub open spec fn disjoint_clauses(fbas: &Fbas) -> Seq<Seq<Lit>> {
    Seq::new(fbas.num_validators() as nat, |k: int| disjoint_clause(fbas, k))
}

/// "The auxiliary implies this member is in the quorum."
pub open spec fn member_clause(off: int, alpha: int, u: int) -> Seq<Lit> {
    seq![mk_lit(alpha, false), mk_lit(off + u, true)]
}

/// "If every member of the choice is in the quorum, the auxiliary holds."
pub open spec fn backward_clause(off: int, alpha: int, c: Seq<usize>) -> Seq<Lit> {
    seq![mk_lit(alpha, true)] + c.map_values(|u: usize| mk_lit(off + u as int, false))
}

/// The clauses defining the auxiliary `alpha` for one choice `c`.
pub open spec fn slice_clauses(off: int, alpha: int, c: Seq<usize>) -> Seq<Seq<Lit>> {
    Seq::new(c.len(), |t: int| member_clause(off, alpha, c[t] as int)).push(
        backward_clause(off, alpha, c),
    )
}

/// The clauses of the first `j` choices of vertex `v`, whose auxiliaries
/// start at `aux0`.
pub open spec fn combo_clauses(fbas: &Fbas, v: int, off: int, aux0: int, j: int) -> Seq<Seq<Lit>>
    decreases j,
{
    if j <= 0 {
        Seq::empty()
    } else {
        combo_clauses(fbas, v, off, aux0, j - 1) + slice_clauses(
            off,
            aux0 + j - 1,
            combs(succs(fbas, v), thr(fbas, v))[j - 1],
        )
    }
}

/// "If `v` is in the quorum, one of its choices certifies it."
pub open spec fn closure_clause(fbas: &Fbas, v: int, off: int, aux0: int) -> Seq<Lit> {
    seq![mk_lit(off + v, false)] + Seq::new(ncombs(fbas, v), |j: int| mk_lit(aux0 + j, true))
}

/// All clauses emitted for vertex `v` in one quorum's pass.
pub open spec fn vertex_clauses(fbas: &Fbas, v: int, off: int, aux0: int) -> Seq<Seq<Lit>> {
    combo_clauses(fbas, v, off, aux0, ncombs(fbas, v) as int).push(
        closure_clause(fbas, v, off, aux0),
    )
}

/// The closure clauses of the first `upto` vertices of one quorum's pass,
/// whose membership variables start at `off` and auxiliaries at `base`.
pub open spec fn quorum_clauses(fbas: &Fbas, off: int, base: int, upto: int) -> Seq<Seq<Lit>>
    decreases upto,
{
    if upto <= 0 {
        Seq::empty()
    } else {
        quorum_clauses(fbas, off, base, upto - 1) + vertex_clauses(
            fbas,
            upto - 1,
            off,
            base + aux_before(fbas, upto - 1) as int,
        )
    }
}

/// The whole formula: non-emptiness of both quorums, disjointness over
/// the validators, then quorum closure for A and for B.
pub open spec fn fbas_clauses(fbas: &Fbas) -> Seq<Seq<Lit>> {
    let n = fbas.num_vertices() as int;
    seq![nonempty_clause(fbas, 0), nonempty_clause(fbas, n)] + disjoint_clauses(fbas)
        + quorum_clauses(fbas, 0, 2 * n, n) + quorum_clauses(
        fbas,
        n,
        2 * n + aux_total(fbas) as int,
        n,
    )
}

/// The number of solver variables the encoding uses: two membership
/// variables per vertex and one auxiliary per choice per quorum.
pub open spec fn total_vars(fbas: &Fbas) -> nat {
    2 * fbas.num_vertices() + 2 * aux_total(fbas)
}

// ---------------------------------------------------------------------
// What a model means.
// ---------------------------------------------------------------------
/// Every entry of `c` names a vertex inside `q` that is a member.
pub open spec fn all_in(c: Seq<usize>, q: Seq<bool>) -> bool {
    forall|t: int| 0 <= t < c.len() ==> (#[trigger] c[t]) < q.len() && q[c[t] as int]
}

/// Vertex `v` has a slice in `q`: some size-threshold selection of its
/// successors, in order and without repeats, lies entirely in `q`.
pub open spec fn has_slice(fbas: &Fbas, v: int, q: Seq<bool>) -> bool {
    exists|c: Seq<usize>|
        is_subsequence(c, succs(fbas, v)) && c.len() == thr(fbas, v) && #[trigger] all_in(c, q)
}

/// Law: a slice names pairwise distinct successors, so a vertex with a
/// slice in `q` really sees at least its threshold's worth of different
/// successors inside `q`.
pub proof fn lemma_slice_members_distinct(fbas: &Fbas, v: int, c: Seq<usize>)
    requires
        fbas.wf(),
        0 <= v < fbas.num_vertices(),
        is_subsequence(c, succs(fbas, v)),
    ensures
        forall|i: int, k: int| 0 <= i < k < c.len() ==> c[i] != c[k],
{
    crate::fbas::lemma_successors_sorted(fbas, v);
    crate::combinations::lemma_subseq_sorted(c, succs(fbas, v));
}

/// `q` (one membership bit per vertex) is closed under the quorum
/// relation: every member vertex has a slice of members.
pub open spec fn closed_memb(fbas: &Fbas, q: Seq<bool>) -> bool {
    forall|v: int| 0 <= v < q.len() && #[trigger] q[v] ==> has_slice(fbas, v, q)
}

/// Some validator is a member of `q`.
pub open spec fn some_validator_in(fbas: &Fbas, q: Seq<bool>) -> bool {
    exists|k: int| 0 <= k < fbas.num_validators() && #[trigger] q[k]
}

/// `qa` and `qb` (one membership bit per vertex each) witness a quorum
/// split: both contain a validator, no validator is in both, and each is
/// closed under the quorum relation.
pub open spec fn quorum_split(fbas: &Fbas, qa: Seq<bool>, qb: Seq<bool>) -> bool {
    &&& qa.len() == fbas.num_vertices()
    &&& qb.len() == fbas.num_vertices()
    &&& some_validator_in(fbas, qa)
    &&& some_validator_in(fbas, qb)
    &&& forall|k: int| 0 <= k < fbas.num_validators() ==> !((#[trigger] qa[k]) && qb[k])
    &&& closed_memb(fbas, qa)
    &&& closed_memb(fbas, qb)
}

/// The validator indices that are members of `q`, in ascending order,
/// looking at the first `k` validators.
pub open spec fn members_upto(q: Seq<bool>, k: int) -> Seq<usize>
    decreases k,
{
    if k <= 0 {
        Seq::empty()
    } else {
        let p = members_upto(q, k - 1);
        if q[k - 1] {
            p.push((k - 1) as usize)
        } else {
            p
        }
    }
}

/// The decoded member list holds exactly the indices below `k` whose
/// membership bit is set.
pub proof fn lemma_members_upto_contains(q: Seq<bool>, k: int, x: usize)
    requires
        k <= usize::MAX,
    ensures
        members_upto(q, k).contains(x) <==> (x < k && q[x as int]),
    decreases k,
{
    if k > 0 {
        let p = members_upto(q, k - 1);
        lemma_members_upto_contains(q, k - 1, x);
        if q[k - 1] {
            let s = p.push((k - 1) as usize);
            if s.contains(x) {
                let i = choose|i: int| 0 <= i < s.len() && s[i] == x;
                if i < p.len() {
                    assert(p[i] == x);
                    assert(p.contains(x));
                }
            }
            if p.contains(x) {
                let i = choose|i: int| 0 <= i < p.len() && p[i] == x;
                assert(s[i] == x);
                assert(s.contains(x));
            }
            if x == (k - 1) as usize {
                assert(s[p.len() as int] == x);
                assert(s.contains(x));
            }
        }
    }
}

/// Every entry of the decoded member list is an index below `k` whose
/// bit is set, and the list ascends.
pub proof fn lemma_members_upto_entries(q: Seq<bool>, k: int)
    requires
        k <= usize::MAX,
    ensures
        forall|t: int|
            0 <= t < members_upto(q, k).len() ==> (#[trigger] members_upto(q, k)[t]) < k
                && q[members_upto(q, k)[t] as int],
        forall|t: int, u: int|
            0 <= t < u < members_upto(q, k).len() ==> members_upto(q, k)[t] < members_upto(
                q,
                k,
            )[u],
    decreases k,
{
    if k > 0 {
        lemma_members_upto_entries(q, k - 1);
        let p = members_upto(q, k - 1);
        if q[k - 1] {
            let s = p.push((k - 1) as usize);
            assert forall|t: int|
                0 <= t < s.len() implies (#[trigger] s[t]) < k && q[s[t] as int] by {
                if t < p.len() {
                    assert(s[t] == p[t]);
                }
            }
            assert forall|t: int, u: int| 0 <= t < u < s.len() implies s[t] < s[u] by {
                if u < p.len() {
                    assert(s[t] == p[t] && s[u] == p[u]);
                } else {
                    assert(s[t] == p[t] && s[u] == (k - 1) as usize);
                }
            }
        }
    }
}

// ---------------------------------------------------------------------
// Soundness: a model of the clauses decodes to a quorum split.
// ---------------------------------------------------------------------
pub proof fn lemma_cnf_sat_split(m: Seq<bool>, a: Seq<Seq<Lit>>, b: Seq<Seq<Lit>>)
    requires
        cnf_sat(m, a + b),
    ensures
        cnf_sat(m, a),
        cnf_sat(m, b),
{
    assert forall|j: int| 0 <= j < a.len() implies clause_sat(m, #[trigger] a[j]) by {
        assert((a + b)[j] == a[j]);
    }
    assert forall|j: int| 0 <= j < b.len() implies clause_sat(m, #[trigger] b[j]) by {
        assert((a + b)[a.len() + j] == b[j]);
    }
}

pub proof fn lemma_cnf_sat_join(m: Seq<bool>, a: Seq<Seq<Lit>>, b: Seq<Seq<Lit>>)
    requires
        cnf_sat(m, a),
        cnf_sat(m, b),
    ensures
        cnf_sat(m, a + b),
{
    assert forall|j: int| 0 <= j < (a + b).len() implies clause_sat(m, #[trigger] (a + b)[j]) by {
        if j < a.len() {
            assert((a + b)[j] == a[j]);
        } else {
            assert((a + b)[j] == b[j - a.len()]);
        }
    }
}

/// Within a satisfied quorum pass, every vertex's own clauses are
/// satisfied.
pub proof fn lemma_quorum_clauses_vertex(
    fbas: &Fbas,
    m: Seq<bool>,
    off: int,
    base: int,
    upto: int,
    v: int,
)
    requires
        cnf_sat(m, quorum_clauses(fbas, off, base, upto)),
        0 <= v < upto,
    ensures
        cnf_sat(m, vertex_clauses(fbas, v, off, base + aux_before(fbas, v) as int)),
    decreases upto,
{
    lemma_cnf_sat_split(
        m,
        quorum_clauses(fbas, off, base, upto - 1),
        vertex_clauses(fbas, upto - 1, off, base + aux_before(fbas, upto - 1) as int),
    );
    if v < upto - 1 {
        lemma_quorum_clauses_vertex(fbas, m, off, base, upto - 1, v);
    }
}

/// Within a vertex's satisfied clauses, every choice's defining clauses
/// are satisfied.
pub proof fn lemma_combo_clauses_slice(
    fbas: &Fbas,
    m: Seq<bool>,
    v: int,
    off: int,
    aux0: int,
    jmax: int,
    j: int,
)
    requires
        cnf_sat(m, combo_clauses(fbas, v, off, aux0, jmax)),
        0 <= j < jmax,
    ensures
        cnf_sat(m, slice_clauses(off, aux0 + j, combs(succs(fbas, v), thr(fbas, v))[j])),
    decreases jmax,
{
    lemma_cnf_sat_split(
        m,
        combo_clauses(fbas, v, off, aux0, jmax - 1),
        slice_clauses(off, aux0 + jmax - 1, combs(succs(fbas, v), thr(fbas, v))[jmax - 1]),
    );
    if j < jmax - 1 {
        lemma_combo_clauses_slice(fbas, m, v, off, aux0, jmax - 1, j);
    }
}

/// A member vertex of a quorum whose closure clauses are satisfied has a
/// slice inside the quorum.
proof fn lemma_vertex_closure_sound(fbas: &Fbas, m: Seq<bool>, off: int, aux0: int, v: int)
    requires
        fbas.wf(),
        0 <= v < fbas.num_vertices(),
        off == 0 || off == fbas.num_vertices(),
        off + fbas.num_vertices() <= m.len(),
        0 <= aux0,
        aux0 + ncombs(fbas, v) <= m.len(),
        m.len() <= crate::sat::VAR_LIMIT,
        cnf_sat(m, vertex_clauses(fbas, v, off, aux0)),
        m[off + v],
    ensures
        has_slice(fbas, v, m.subrange(off, off + fbas.num_vertices() as int)),
{
    let n = fbas.num_vertices() as int;
    let q = m.subrange(off, off + n);
    let cc = closure_clause(fbas, v, off, aux0);
    let vc = vertex_clauses(fbas, v, off, aux0);
    assert(vc[vc.len() - 1] == cc);
    assert(clause_sat(m, cc));
    assert(vc =~= combo_clauses(fbas, v, off, aux0, ncombs(fbas, v) as int) + seq![cc]);
    lemma_cnf_sat_split(m, combo_clauses(fbas, v, off, aux0, ncombs(fbas, v) as int), seq![cc]);
    let i = choose|i: int| 0 <= i < cc.len() && lit_sat(m, #[trigger] cc[i]);
    assert(cc[0] == mk_lit(off + v, false));
    assert(!lit_sat(m, cc[0]));
    assert(i >= 1);
    let j = i - 1;
    assert(cc[i] == mk_lit(aux0 + j, true));
    assert(0 <= j < ncombs(fbas, v));
    assert(m[aux0 + j]);
    lemma_combo_clauses_slice(fbas, m, v, off, aux0, ncombs(fbas, v) as int, j);
    let c = combs(succs(fbas, v), thr(fbas, v))[j];
    let sc = slice_clauses(off, aux0 + j, c);
    lemma_combs_sound(succs(fbas, v), thr(fbas, v), j);
    lemma_successors_bound(fbas, v);
    lemma_subseq_bound(c, succs(fbas, v));
    assert forall|t: int| 0 <= t < c.len() implies (#[trigger] c[t]) < n && q[c[t] as int] by {
        let w = choose|w: int|
            0 <= w < succs(fbas, v).len() && succs(fbas, v)[w] == c[t];
        assert(succs(fbas, v)[w] < n);
        assert(clause_sat(m, sc[t]));
        assert(sc[t] == member_clause(off, aux0 + j, c[t] as int));
        let l = choose|l: int| 0 <= l < sc[t].len() && lit_sat(m, #[trigger] sc[t][l]);
        assert(sc[t][0] == mk_lit(aux0 + j, false));
        assert(!lit_sat(m, sc[t][0]));
        assert(l == 1);
        assert(sc[t][1] == mk_lit(off + c[t] as int, true));
        assert(m[off + c[t] as int]);
        assert(q[c[t] as int] == m[off + c[t] as int]);
    }
    assert(all_in(c, q));
    assert(is_subsequence(c, succs(fbas, v)) && c.len() == thr(fbas, v) && all_in(c, q));
}

/// Soundness of the encoding: any model of the whole clause set decodes
/// to a quorum split — the two halves of its membership prefix are
/// non-empty, validator-disjoint and closed.
pub proof fn lemma_encoding_sound(fbas: &Fbas, m: Seq<bool>)
    requires
        fbas.wf(),
        total_vars(fbas) <= crate::sat::VAR_LIMIT,
        m.len() == total_vars(fbas),
        cnf_sat(m, fbas_clauses(fbas)),
    ensures
        quorum_split(
            fbas,
            m.subrange(0, fbas.num_vertices() as int),
            m.subrange(fbas.num_vertices() as int, 2 * fbas.num_vertices() as int),
        ),
{
    let n = fbas.num_vertices() as int;
    let nv = fbas.num_validators() as int;
    let at = aux_total(fbas) as int;
    let qa = m.subrange(0, n);
    let qb = m.subrange(n, 2 * n);
    let head = seq![nonempty_clause(fbas, 0), nonempty_clause(fbas, n)];
    let part1 = head + disjoint_clauses(fbas);
    let part2 = part1 + quorum_clauses(fbas, 0, 2 * n, n);
    lemma_cnf_sat_split(m, part2, quorum_clauses(fbas, n, 2 * n + at, n));
    lemma_cnf_sat_split(m, part1, quorum_clauses(fbas, 0, 2 * n, n));
    lemma_cnf_sat_split(m, head, disjoint_clauses(fbas));
    // Non-emptiness of A and of B.
    assert(clause_sat(m, nonempty_clause(fbas, 0))) by {
        assert(head[0] == nonempty_clause(fbas, 0));
    }
    let ia = choose|i: int|
        0 <= i < nonempty_clause(fbas, 0).len() && lit_sat(m, #[trigger] nonempty_clause(fbas, 0)[i]);
    assert(nonempty_clause(fbas, 0)[ia] == mk_lit(ia, true));
    assert(qa[ia]);
    assert(some_validator_in(fbas, qa));
    assert(clause_sat(m, nonempty_clause(fbas, n))) by {
        assert(head[1] == nonempty_clause(fbas, n));
    }
    let ib = choose|i: int|
        0 <= i < nonempty_clause(fbas, n).len() && lit_sat(m, #[trigger] nonempty_clause(fbas, n)[i]);
    assert(nonempty_clause(fbas, n)[ib] == mk_lit(n + ib, true));
    assert(qb[ib]);
    assert(some_validator_in(fbas, qb));
    // Disjointness over the validators.
    assert forall|k: int| 0 <= k < nv implies !((#[trigger] qa[k]) && qb[k]) by {
        assert(clause_sat(m, disjoint_clauses(fbas)[k]));
        assert(disjoint_clauses(fbas)[k] == disjoint_clause(fbas, k));
        let l = choose|l: int|
            0 <= l < disjoint_clause(fbas, k).len() && lit_sat(
                m,
                #[trigger] disjoint_clause(fbas, k)[l],
            );
        assert(disjoint_clause(fbas, k)[0] == mk_lit(k, false));
        assert(disjoint_clause(fbas, k)[1] == mk_lit(n + k, false));
    }
    // Closure of each quorum.
    lemma_quorum_pass_sound(fbas, m, 0, 2 * n);
    lemma_quorum_pass_sound(fbas, m, n, 2 * n + at);
}

/// One quorum's closure clauses make its membership bits closed.
proof fn lemma_quorum_pass_sound(fbas: &Fbas, m: Seq<bool>, off: int, base: int)
    requires
        fbas.wf(),
        total_vars(fbas) <= crate::sat::VAR_LIMIT,
        m.len() == total_vars(fbas),
        off == 0 || off == fbas.num_vertices(),
        base == 2 * fbas.num_vertices() || base == 2 * fbas.num_vertices() + aux_total(fbas),
        cnf_sat(m, quorum_clauses(fbas, off, base, fbas.num_vertices() as int)),
    ensures
        closed_memb(fbas, m.subrange(off, off + fbas.num_vertices() as int)),
{
    let n = fbas.num_vertices() as int;
    let q = m.subrange(off, off + n);
    assert forall|v: int| 0 <= v < q.len() && #[trigger] q[v] implies has_slice(fbas, v, q) by {
        lemma_quorum_clauses_vertex(fbas, m, off, base, n, v);
        let aux0 = base + aux_before(fbas, v) as int;
        lemma_aux_before_monotone(fbas, v + 1, n);
        assert(aux_before(fbas, v + 1) == aux_before(fbas, v) + ncombs(fbas, v));
        assert(aux0 + ncombs(fbas, v) <= base + aux_total(fbas));
        lemma_vertex_closure_sound(fbas, m, off, aux0, v);
    }
}

// ---------------------------------------------------------------------
// Completeness: a quorum split yields a model of the clauses.
// ---------------------------------------------------------------------
/// The intended value of the auxiliary at offset `a` of a pass for the
/// quorum `q`: the choice it stands for lies entirely in `q`.
pub open spec fn aux_sat(fbas: &Fbas, q: Seq<bool>, a: int) -> bool {
    exists|v: int, j: int|
        0 <= v < fbas.num_vertices() && 0 <= j < ncombs(fbas, v) && a == aux_before(fbas, v) + j
            && #[trigger] all_in(combs(succs(fbas, v), thr(fbas, v))[j], q)
}

/// The assignment built from a quorum split: the membership bits of the
/// two quorums followed by the intended values of the auxiliaries.
pub open spec fn witness_model(fbas: &Fbas, qa: Seq<bool>, qb: Seq<bool>) -> Seq<bool> {
    let n = fbas.num_vertices() as int;
    let at = aux_total(fbas) as int;
    Seq::new(
        total_vars(fbas),
        |i: int|
            if i < n {
                qa[i]
            } else if i < 2 * n {
                qb[i - n]
            } else if i < 2 * n + at {
                aux_sat(fbas, qa, i - 2 * n)
            } else {
                aux_sat(fbas, qb, i - 2 * n - at)
            },
    )
}

/// The clauses of one quorum's pass are satisfied by the witness model.
proof fn lemma_quorum_pass_complete(
    fbas: &Fbas,
    m: Seq<bool>,
    q: Seq<bool>,
    off: int,
    base: int,
    upto: int,
)
    requires
        fbas.wf(),
        total_vars(fbas) <= crate::sat::VAR_LIMIT,
        m.len() == total_vars(fbas),
        q.len() == fbas.num_vertices(),
        off == 0 || off == fbas.num_vertices(),
        2 * fbas.num_vertices() <= base,
        base + aux_total(fbas) <= m.len(),
        forall|w: int| 0 <= w < fbas.num_vertices() ==> m[off + w] == q[w],
        forall|a: int| 0 <= a < aux_total(fbas) ==> m[base + a] == aux_sat(fbas, q, a),
        closed_memb(fbas, q),
        0 <= upto <= fbas.num_vertices(),
    ensures
        cnf_sat(m, quorum_clauses(fbas, off, base, upto)),
    decreases upto,
{
    if upto > 0 {
        let n = fbas.num_vertices() as int;
        let v = upto - 1;
        lemma_quorum_pass_complete(fbas, m, q, off, base, v);
        let aux0 = base + aux_before(fbas, v) as int;
        lemma_aux_before_monotone(fbas, v + 1, n);
        assert(aux_before(fbas, v + 1) == aux_before(fbas, v) + ncombs(fbas, v));
        lemma_vertex_clauses_complete(fbas, m, q, off, base, v);
        lemma_cnf_sat_join(
            m,
            quorum_clauses(fbas, off, base, v),
            vertex_clauses(fbas, v, off, aux0),
        );
    }
}

/// The clauses of one vertex of one pass are satisfied by the witness
/// model.
proof fn lemma_vertex_clauses_complete(
    fbas: &Fbas,
    m: Seq<bool>,
    q: Seq<bool>,
    off: int,
    base: int,
    v: int,
)
    requires
        fbas.wf(),
        total_vars(fbas) <= crate::sat::VAR_LIMIT,
        m.len() == total_vars(fbas),
        q.len() == fbas.num_vertices(),
        off == 0 || off == fbas.num_vertices(),
        2 * fbas.num_vertices() <= base,
        base + aux_total(fbas) <= m.len(),
        forall|w: int| 0 <= w < fbas.num_vertices() ==> m[off + w] == q[w],
        forall|a: int| 0 <= a < aux_total(fbas) ==> m[base + a] == aux_sat(fbas, q, a),
        closed_memb(fbas, q),
        0 <= v < fbas.num_vertices(),
    ensures
        cnf_sat(m, vertex_clauses(fbas, v, off, base + aux_before(fbas, v) as int)),
{
    let n = fbas.num_vertices() as int;
    let aux0 = base + aux_before(fbas, v) as int;
    lemma_aux_before_monotone(fbas, v + 1, n);
    assert(aux_before(fbas, v + 1) == aux_before(fbas, v) + ncombs(fbas, v));
    lemma_combo_clauses_complete(fbas, m, q, off, base, v, ncombs(fbas, v) as int);
    // The closure clause.
    let cc = closure_clause(fbas, v, off, aux0);
    assert(clause_sat(m, cc)) by {
        if !q[v] {
            assert(cc[0] == mk_lit(off + v, false));
            assert(lit_sat(m, cc[0]));
        } else {
            assert(has_slice(fbas, v, q));
            let c = choose|c: Seq<usize>|
                is_subsequence(c, succs(fbas, v)) && c.len() == thr(fbas, v) && #[trigger] all_in(
                    c,
                    q,
                );
            lemma_combs_complete(succs(fbas, v), thr(fbas, v), c);
            let sub = combs(succs(fbas, v), thr(fbas, v));
            let j = choose|j: int| 0 <= j < sub.len() && (#[trigger] sub[j]) == c;
            assert(aux_sat(fbas, q, aux_before(fbas, v) + j));
            assert(m[aux0 + j]);
            assert(cc[1 + j] == mk_lit(aux0 + j, true));
            assert(lit_sat(m, cc[1 + j]));
        }
    }
    lemma_cnf_sat_join(
        m,
        combo_clauses(fbas, v, off, aux0, ncombs(fbas, v) as int),
        seq![cc],
    );
    assert(combo_clauses(fbas, v, off, aux0, ncombs(fbas, v) as int) + seq![cc]
        =~= vertex_clauses(fbas, v, off, aux0));
}

/// The defining clauses of the first `jmax` choices of a vertex are
/// satisfied by the witness model.
proof fn lemma_combo_clauses_complete(
    fbas: &Fbas,
    m: Seq<bool>,
    q: Seq<bool>,
    off: int,
    base: int,
    v: int,
    jmax: int,
)
    requires
        fbas.wf(),
        total_vars(fbas) <= crate::sat::VAR_LIMIT,
        m.len() == total_vars(fbas),
        q.len() == fbas.num_vertices(),
        off == 0 || off == fbas.num_vertices(),
        2 * fbas.num_vertices() <= base,
        base + aux_total(fbas) <= m.len(),
        forall|w: int| 0 <= w < fbas.num_vertices() ==> m[off + w] == q[w],
        forall|a: int| 0 <= a < aux_total(fbas) ==> m[base + a] == aux_sat(fbas, q, a),
        0 <= v < fbas.num_vertices(),
        0 <= jmax <= ncombs(fbas, v),
    ensures
        cnf_sat(m, combo_clauses(fbas, v, off, base + aux_before(fbas, v) as int, jmax)),
    decreases jmax,
{
    let n = fbas.num_vertices() as int;
    let aux0 = base + aux_before(fbas, v) as int;
    if jmax > 0 {
        let j = jmax - 1;
        lemma_combo_clauses_complete(fbas, m, q, off, base, v, j);
        let c = combs(succs(fbas, v), thr(fbas, v))[j];
        let a = aux_before(fbas, v) as int + j;
        lemma_aux_before_monotone(fbas, v + 1, n);
        assert(aux_before(fbas, v + 1) == aux_before(fbas, v) + ncombs(fbas, v));
        assert(0 <= a < aux_total(fbas));
        assert(m[base + a] == aux_sat(fbas, q, a));
        lemma_combs_sound(succs(fbas, v), thr(fbas, v), j);
        lemma_successors_bound(fbas, v);
        lemma_subseq_bound(c, succs(fbas, v));
        assert forall|t: int| 0 <= t < c.len() implies (#[trigger] c[t]) < n by {
            let w = choose|w: int|
                0 <= w < succs(fbas, v).len() && succs(fbas, v)[w] == c[t];
            assert(succs(fbas, v)[w] < n);
        }
        // The auxiliary means exactly "the whole choice is in `q`".
        assert(aux_sat(fbas, q, a) == all_in(c, q)) by {
            if aux_sat(fbas, q, a) {
                let (v2, j2): (int, int) = choose|v2: int, j2: int|
                    0 <= v2 < fbas.num_vertices() && 0 <= j2 < ncombs(fbas, v2) && a == aux_before(
                        fbas,
                        v2,
                    ) + j2 && #[trigger] all_in(combs(succs(fbas, v2), thr(fbas, v2))[j2], q);
                lemma_aux_index_unique(fbas, v, j, v2, j2);
            }
            if all_in(c, q) {
                assert(aux_sat(fbas, q, a));
            }
        }
        let sc = slice_clauses(off, aux0 + j, c);
        assert(cnf_sat(m, sc)) by {
            assert forall|t: int| 0 <= t < sc.len() implies clause_sat(m, #[trigger] sc[t]) by {
                if t < c.len() {
                    assert(sc[t] == member_clause(off, aux0 + j, c[t] as int));
                    if m[aux0 + j] {
                        assert(all_in(c, q));
                        assert(q[c[t] as int]);
                        assert(m[off + c[t] as int]);
                        assert(sc[t][1] == mk_lit(off + c[t] as int, true));
                        assert(lit_sat(m, sc[t][1]));
                    } else {
                        assert(sc[t][0] == mk_lit(aux0 + j, false));
                        assert(lit_sat(m, sc[t][0]));
                    }
                } else {
                    assert(sc[t] == backward_clause(off, aux0 + j, c));
                    if all_in(c, q) {
                        assert(m[aux0 + j]);
                        assert(sc[t][0] == mk_lit(aux0 + j, true));
                        assert(lit_sat(m, sc[t][0]));
                    } else {
                        let u = choose|u: int|
                            0 <= u < c.len() && !((#[trigger] c[u]) < q.len() && q[c[u] as int]);
                        assert(c[u] < n);
                        assert(!q[c[u] as int]);
                        assert(!m[off + c[u] as int]);
                        assert(sc[t][1 + u] == mk_lit(off + c[u] as int, false));
                        assert(lit_sat(m, sc[t][1 + u]));
                    }
                }
            }
        }
        lemma_cnf_sat_join(m, combo_clauses(fbas, v, off, aux0, j), sc);
    }
}

/// Completeness of the encoding: a quorum split yields a model of the
/// whole clause set.
pub proof fn lemma_encoding_complete(fbas: &Fbas, qa: Seq<bool>, qb: Seq<bool>)
    requires
        fbas.wf(),
        total_vars(fbas) <= crate::sat::VAR_LIMIT,
        quorum_split(fbas, qa, qb),
    ensures
        witness_model(fbas, qa, qb).len() == total_vars(fbas),
        cnf_sat(witness_model(fbas, qa, qb), fbas_clauses(fbas)),
{
    let n = fbas.num_vertices() as int;
    let nv = fbas.num_validators() as int;
    let at = aux_total(fbas) as int;
    let m = witness_model(fbas, qa, qb);
    assert(nv <= n);
    // The non-emptiness clauses.
    let ka = choose|k: int| 0 <= k < fbas.num_validators() && #[trigger] qa[k];
    assert(nonempty_clause(fbas, 0)[ka] == mk_lit(ka, true));
    assert(m[ka] == qa[ka]);
    assert(lit_sat(m, nonempty_clause(fbas, 0)[ka]));
    assert(clause_sat(m, nonempty_clause(fbas, 0)));
    let kb = choose|k: int| 0 <= k < fbas.num_validators() && #[trigger] qb[k];
    assert(nonempty_clause(fbas, n)[kb] == mk_lit(n + kb, true));
    assert(m[n + kb] == qb[kb]);
    assert(lit_sat(m, nonempty_clause(fbas, n)[kb]));
    assert(clause_sat(m, nonempty_clause(fbas, n)));
    let head = seq![nonempty_clause(fbas, 0), nonempty_clause(fbas, n)];
    assert(cnf_sat(m, head)) by {
        assert forall|j: int| 0 <= j < head.len() implies clause_sat(m, #[trigger] head[j]) by {
            if j == 0 {
                assert(head[j] == nonempty_clause(fbas, 0));
            } else {
                assert(head[j] == nonempty_clause(fbas, n));
            }
        }
    }
    // The disjointness clauses.
    assert(cnf_sat(m, disjoint_clauses(fbas))) by {
        assert forall|k: int|
            0 <= k < disjoint_clauses(fbas).len() implies clause_sat(
            m,
            #[trigger] disjoint_clauses(fbas)[k],
        ) by {
            assert(disjoint_clauses(fbas)[k] == disjoint_clause(fbas, k));
            assert(!(qa[k] && qb[k]));
            if !qa[k] {
                assert(disjoint_clause(fbas, k)[0] == mk_lit(k, false));
                assert(m[k] == qa[k]);
                assert(lit_sat(m, disjoint_clause(fbas, k)[0]));
            } else {
                assert(disjoint_clause(fbas, k)[1] == mk_lit(n + k, false));
                assert(m[n + k] == qb[k]);
                assert(lit_sat(m, disjoint_clause(fbas, k)[1]));
            }
        }
    }
    // The two closure passes.
    lemma_quorum_pass_complete(fbas, m, qa, 0, 2 * n, n);
    lemma_quorum_pass_complete(fbas, m, qb, n, 2 * n + at, n);
    lemma_cnf_sat_join(m, head, disjoint_clauses(fbas));
    lemma_cnf_sat_join(m, head + disjoint_clauses(fbas), quorum_clauses(fbas, 0, 2 * n, n));
    lemma_cnf_sat_join(
        m,
        head + disjoint_clauses(fbas) + quorum_clauses(fbas, 0, 2 * n, n),
        quorum_clauses(fbas, n, 2 * n + at, n),
    );
}

} // verus!
