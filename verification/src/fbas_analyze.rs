//! The analyzer: encodes the quorum-split question of an FBAS into CNF,
//! runs the SAT solver under the resource limiter, and decodes a witness.
//!
//! Two imaginary quorums A and B range over the graph's vertices. For
//! each vertex one variable says "it is in A" and one "it is in B". The
//! clauses require that each quorum contains a validator, that no
//! validator is in both, and that every member vertex sees a
//! size-threshold choice of its successors inside its quorum (a Tseitin
//! auxiliary per choice). A satisfying assignment is exactly a quorum
//! split, so `SAT` disproves the quorum intersection property and
//! `UNSAT` proves it.

use crate::combinations::{
    combinations_from, combs, lemma_combs_sound, lemma_subseq_bound,
};
use crate::encoding::{
    aux_before, aux_total, backward_clause, closure_clause, combo_clauses, disjoint_clause,
    disjoint_clauses, fbas_clauses, lemma_aux_before_monotone, lemma_encoding_complete,
    lemma_encoding_sound, lemma_members_upto_entries, member_clause, members_upto, mk_lit, ncombs,
    nonempty_clause, quorum_clauses, quorum_split, slice_clauses, succs, thr, total_vars,
    vertex_clauses,
};
use crate::fbas::{
    bufs_decode, bufs_depth_ok, distinct_qsets, lemma_successors_bound, Fbas, FbasError,
    QUORUM_SET_MAX_DEPTH,
};
use crate::quorum_set_map::qset_depth_ok;
use crate::quorum_set_map::QuorumSetMap;
use crate::resource_limiter::ResourceLimiter;
use crate::sat::{solver_clauses, solver_num_vars, Lit, SatResult, SatSolver, VAR_LIMIT};
use vstd::prelude::*;

verus! {

/// Maps a vertex index to its two solver variables: quorum A's variable
/// is the index itself, quorum B's is the index shifted by the vertex
/// count.
pub struct VarManager {
    pub node_count: usize,
}

impl VarManager {
    /// The solver variable for "vertex `ni` is in quorum A".
    fn quorum_a(&self, ni: usize) -> (r: Result<u32, FbasError>)
        ensures
            ni < self.node_count && 2 * self.node_count <= VAR_LIMIT ==> r == Ok::<u32, FbasError>(
                ni as u32,
            ),
            ni >= self.node_count || 2 * self.node_count > VAR_LIMIT ==> (r matches Err(e)
                && e is InternalError),
    {
        if ni >= self.node_count || self.node_count > (VAR_LIMIT as usize) / 2 {
            return Err(FbasError::InternalError("Node index not found"));
        }
        Ok(ni as u32)
    }

    /// The solver variable for "vertex `ni` is in quorum B".
    fn quorum_b(&self, ni: usize) -> (r: Result<u32, FbasError>)
        ensures
            ni < self.node_count && 2 * self.node_count <= VAR_LIMIT ==> r == Ok::<u32, FbasError>(
                (self.node_count + ni) as u32,
            ),
            ni >= self.node_count || 2 * self.node_count > VAR_LIMIT ==> (r matches Err(e)
                && e is InternalError),
    {
        if ni >= self.node_count || self.node_count > (VAR_LIMIT as usize) / 2 {
            return Err(FbasError::InternalError("Node index not found"));
        }
        Ok((self.node_count + ni) as u32)
    }

    /// The literal stating that vertex `ni` is (`is_member`) or is not in
    /// quorum A.
    pub fn lit_in_quorum_a(&self, ni: usize, is_member: bool) -> (r: Result<Lit, FbasError>)
        ensures
            ni < self.node_count && 2 * self.node_count <= VAR_LIMIT ==> r == Ok::<Lit, FbasError>(
                Lit { var: ni as u32, pos: is_member },
            ),
            ni >= self.node_count || 2 * self.node_count > VAR_LIMIT ==> (r matches Err(e)
                && e is InternalError),
    {
        match self.quorum_a(ni) {
            Ok(var) => Ok(Lit { var, pos: is_member }),
            Err(e) => Err(e),
        }
    }

    /// The literal stating that vertex `ni` is (`is_member`) or is not in
    /// quorum B.
    pub fn lit_in_quorum_b(&self, ni: usize, is_member: bool) -> (r: Result<Lit, FbasError>)
        ensures
            ni < self.node_count && 2 * self.node_count <= VAR_LIMIT ==> r == Ok::<Lit, FbasError>(
                Lit { var: (self.node_count + ni) as u32, pos: is_member },
            ),
            ni >= self.node_count || 2 * self.node_count > VAR_LIMIT ==> (r matches Err(e)
                && e is InternalError),
    {
        match self.quorum_b(ni) {
            Ok(var) => Ok(Lit { var, pos: is_member }),
            Err(e) => Err(e),
        }
    }
}

/// The state of one analysis.
#[derive(Debug, PartialEq, Eq)]
pub enum SolveStatus {
    /// All quorums intersect: no split exists.
    UNSAT,
    /// A split was found: the two disjoint validator index sets.
    SAT((Vec<usize>, Vec<usize>)),
    /// Not solved yet, or the search was interrupted.
    UNKNOWN,
}

/// The two limiters agree on everything but the measured time.
pub open spec fn limiter_same_config(a: &ResourceLimiter, b: &ResourceLimiter) -> bool {
    &&& a.limits() == b.limits()
    &&& a.usage().mem_bytes == b.usage().mem_bytes
    &&& a.start_memory() == b.start_memory()
    &&& a.spec_start_time() == b.spec_start_time()
}

/// Measures the limiter, then hands the clause to the solver; fails
/// without adding when a resource limit has been exceeded.
fn add_clause_limited(
    solver: &mut SatSolver,
    limiter: &mut ResourceLimiter,
    clause: &Vec<Lit>,
) -> (r: Result<bool, FbasError>)
    requires
        forall|i: int|
            0 <= i < clause@.len() ==> (#[trigger] clause@[i]).var < solver_num_vars(
                *old(solver),
            ),
    ensures
        solver_num_vars(*final (solver)) == solver_num_vars(*old(solver)),
        r is Ok ==> solver_clauses(*final (solver)) == solver_clauses(*old(solver)).push(clause@),
        r is Err ==> solver_clauses(*final (solver)) == solver_clauses(*old(solver)),
        limiter_same_config(final (limiter), old(limiter)),
        r matches Err(e) ==> (e == FbasError::ResourceLimitExceeded(final (limiter).usage())
            && final (limiter).usage().spec_exceeds(final (limiter).limits())),
        old(limiter).is_unlimited() ==> r is Ok,
{
    match limiter.measure_and_enforce_limits() {
        Ok(()) => Ok(solver.add_clause(clause)),
        Err(e) => Err(e),
    }
}

/// One analysis: the graph, the solver loaded with its CNF encoding, the
/// resource limiter, and the last outcome.
pub struct FbasAnalyzer {
    fbas: Fbas,
    solver: SatSolver,
    status: SolveStatus,
    vars: VarManager,
    limiter: ResourceLimiter,
}

impl FbasAnalyzer {
    pub closed spec fn spec_fbas(&self) -> Fbas {
        self.fbas
    }

    pub closed spec fn spec_status(&self) -> SolveStatus {
        self.status
    }

    pub closed spec fn limits(&self) -> crate::resource_limiter::ResourceQuantity {
        self.limiter.limits()
    }

    pub closed spec fn limiter_unlimited(&self) -> bool {
        self.limiter.is_unlimited()
    }

    /// The number of variables the solver holds.
    pub closed spec fn spec_num_vars(&self) -> nat {
        solver_num_vars(self.solver)
    }

    /// The clauses the solver holds.
    pub closed spec fn spec_clauses(&self) -> Seq<Seq<Lit>> {
        solver_clauses(self.solver)
    }

    /// What the recorded status means for the graph: `UNSAT` rules every
    /// split out, `SAT` carries the decoded members of a genuine split.
    pub closed spec fn status_wf(&self) -> bool {
        match self.status {
            SolveStatus::UNKNOWN => true,
            SolveStatus::UNSAT => forall|qa: Seq<bool>, qb: Seq<bool>|
                !quorum_split(&self.fbas, qa, qb),
            SolveStatus::SAT(pair) => exists|ma: Seq<bool>, mb: Seq<bool>|
                {
                    &&& #[trigger] quorum_split(&self.fbas, ma, mb)
                    &&& pair.0@ == members_upto(ma, self.fbas.num_validators() as int)
                    &&& pair.1@ == members_upto(mb, self.fbas.num_validators() as int)
                },
        }
    }

    pub closed spec fn wf(&self) -> bool {
        &&& self.fbas.wf()
        &&& self.vars.node_count == self.fbas.num_vertices()
        &&& total_vars(&self.fbas) <= VAR_LIMIT
        &&& solver_num_vars(self.solver) == total_vars(&self.fbas)
        &&& solver_clauses(self.solver) == fbas_clauses(&self.fbas)
        &&& self.status_wf()
    }

    /// Builds an analyzer for a graph: allocates the membership variables
    /// and loads the whole CNF encoding into the solver.
    pub(crate) fn from_fbas(fbas: Fbas, resource_limiter: ResourceLimiter) -> (r: Result<
        FbasAnalyzer,
        FbasError,
    >)
        requires
            fbas.wf(),
        ensures
            r matches Ok(a) ==> (a.wf() && a.spec_status() is UNKNOWN && a.spec_fbas() == fbas
                && a.limits() == resource_limiter.limits()),
            r matches Err(e) ==> ((e is InternalError && total_vars(&fbas) > VAR_LIMIT) || (
            e matches FbasError::ResourceLimitExceeded(u) && u.spec_exceeds(
                resource_limiter.limits(),
            ))),
            resource_limiter.is_unlimited() && total_vars(&fbas) <= VAR_LIMIT ==> r is Ok,
    {
        let node_count = fbas.vertices.len();
        let mut analyzer = FbasAnalyzer {
            fbas,
            solver: SatSolver::new(),
            status: SolveStatus::UNKNOWN,
            vars: VarManager { node_count },
            limiter: resource_limiter,
        };
        match analyzer.construct_vars() {
            Ok(()) => {},
            Err(e) => {
                return Err(e);
            },
        }
        match analyzer.construct_formula() {
            Ok(()) => {},
            Err(e) => {
                return Err(e);
            },
        }
        Ok(analyzer)
    }

    /// Allocates the two membership variables of every vertex, checking
    /// the resource limits as it goes.
    fn construct_vars(&mut self) -> (r: Result<(), FbasError>)
        requires
            old(self).fbas.wf(),
            old(self).vars.node_count == old(self).fbas.num_vertices(),
            solver_num_vars(old(self).solver) == 0,
            solver_clauses(old(self).solver) == Seq::<Seq<Lit>>::empty(),
        ensures
            final (self).fbas == old(self).fbas,
            final (self).vars == old(self).vars,
            final (self).status == old(self).status,
            limiter_same_config(&final (self).limiter, &old(self).limiter),
            solver_clauses(final (self).solver) == Seq::<Seq<Lit>>::empty(),
            r is Ok ==> (solver_num_vars(final (self).solver) == 2 * old(
                self,
            ).fbas.num_vertices() && 2 * old(self).fbas.num_vertices() <= VAR_LIMIT),
            r matches Err(e) ==> ((e is InternalError && 2 * old(self).fbas.num_vertices()
                > VAR_LIMIT) || (e matches FbasError::ResourceLimitExceeded(u) && u.spec_exceeds(
                old(self).limiter.limits(),
            ))),
            old(self).limiter.is_unlimited() && 2 * old(self).fbas.num_vertices() <= VAR_LIMIT
                ==> r is Ok,
    {
        let n = self.vars.node_count;
        if n > (VAR_LIMIT as usize) / 2 {
            return Err(
                FbasError::InternalError("vertex count exceeds the solver variable budget"),
            );
        }
        let two_n = 2 * n;
        let mut i: usize = 0;
        while i < two_n
            invariant
                i <= two_n,
                two_n == 2 * n,
                n == old(self).fbas.num_vertices(),
                n <= VAR_LIMIT / 2,
                solver_num_vars(self.solver) == i,
                solver_clauses(self.solver) == Seq::<Seq<Lit>>::empty(),
                self.fbas == old(self).fbas,
                self.vars == old(self).vars,
                self.status == old(self).status,
                limiter_same_config(&self.limiter, &old(self).limiter),
            decreases two_n - i,
        {
            match self.limiter.measure_and_enforce_limits() {
                Ok(()) => {},
                Err(e) => {
                    return Err(e);
                },
            }
            let _v = self.solver.new_var();
            i += 1;
        }
        Ok(())
    }

    /// Emits the whole formula: non-emptiness of both quorums,
    /// disjointness over the validators, and the closure clauses of each
    /// quorum. On success the solver holds exactly [`fbas_clauses`] and
    /// [`total_vars`] variables.
    fn construct_formula(&mut self) -> (r: Result<(), FbasError>)
        requires
            old(self).fbas.wf(),
            old(self).vars.node_count == old(self).fbas.num_vertices(),
            solver_num_vars(old(self).solver) == 2 * old(self).fbas.num_vertices(),
            2 * old(self).fbas.num_vertices() <= VAR_LIMIT,
            solver_clauses(old(self).solver) == Seq::<Seq<Lit>>::empty(),
        ensures
            final (self).fbas == old(self).fbas,
            final (self).vars == old(self).vars,
            final (self).status == old(self).status,
            limiter_same_config(&final (self).limiter, &old(self).limiter),
            r is Ok ==> (solver_num_vars(final (self).solver) == total_vars(&old(self).fbas)
                && total_vars(&old(self).fbas) <= VAR_LIMIT && solver_clauses(final (self).solver)
                == fbas_clauses(&old(self).fbas)),
            r matches Err(e) ==> ((e is InternalError && total_vars(&old(self).fbas) > VAR_LIMIT)
                || (e matches FbasError::ResourceLimitExceeded(u) && u.spec_exceeds(
                old(self).limiter.limits(),
            ))),
            old(self).limiter.is_unlimited() && total_vars(&old(self).fbas) <= VAR_LIMIT ==> r
                is Ok,
    {
        let n = self.vars.node_count;
        let nv = self.fbas.validators.len();
        let ghost fb = self.fbas;
        proof {
            assert(nv <= n);
        }
        // Formula 1: each quorum holds at least one validator.
        let mut qa_nonempty: Vec<Lit> = Vec::new();
        let mut k: usize = 0;
        while k < nv
            invariant
                k <= nv,
                nv == fb.num_validators(),
                n == fb.num_vertices(),
                nv <= n,
                2 * n <= VAR_LIMIT,
                qa_nonempty@ == nonempty_clause(&fb, 0).take(k as int),
            decreases nv - k,
        {
            qa_nonempty.push(Lit { var: k as u32, pos: true });
            k += 1;
            proof {
                assert(qa_nonempty@ =~= nonempty_clause(&fb, 0).take(k as int));
            }
        }
        proof {
            assert(qa_nonempty@ =~= nonempty_clause(&fb, 0));
        }
        match add_clause_limited(&mut self.solver, &mut self.limiter, &qa_nonempty) {
            Ok(_) => {},
            Err(e) => {
                return Err(e);
            },
        }
        let mut qb_nonempty: Vec<Lit> = Vec::new();
        let mut k: usize = 0;
        while k < nv
            invariant
                k <= nv,
                nv == fb.num_validators(),
                n == fb.num_vertices(),
                nv <= n,
                2 * n <= VAR_LIMIT,
                qb_nonempty@ == nonempty_clause(&fb, n as int).take(k as int),
            decreases nv - k,
        {
            qb_nonempty.push(Lit { var: (n + k) as u32, pos: true });
            k += 1;
            proof {
                assert(qb_nonempty@ =~= nonempty_clause(&fb, n as int).take(k as int));
            }
        }
        proof {
            assert(qb_nonempty@ =~= nonempty_clause(&fb, n as int));
        }
        match add_clause_limited(&mut self.solver, &mut self.limiter, &qb_nonempty) {
            Ok(_) => {},
            Err(e) => {
                return Err(e);
            },
        }
        // Formula 2: no validator sits in both quorums.
        let ghost pre2 = solver_clauses(self.solver);
        let mut k: usize = 0;
        while k < nv
            invariant
                k <= nv,
                nv == fb.num_validators(),
                n == fb.num_vertices(),
                nv <= n,
                2 * n <= VAR_LIMIT,
                self.fbas == old(self).fbas,
                fb == old(self).fbas,
                self.vars == old(self).vars,
                self.status == old(self).status,
                limiter_same_config(&self.limiter, &old(self).limiter),
                solver_num_vars(self.solver) == 2 * n,
                pre2 == seq![nonempty_clause(&fb, 0), nonempty_clause(&fb, n as int)],
                solver_clauses(self.solver) == pre2 + disjoint_clauses(&fb).take(k as int),
            decreases nv - k,
        {
            let mut pair: Vec<Lit> = Vec::new();
            pair.push(Lit { var: k as u32, pos: false });
            pair.push(Lit { var: (n + k) as u32, pos: false });
            proof {
                assert(pair@ =~= disjoint_clause(&fb, k as int));
            }
            match add_clause_limited(&mut self.solver, &mut self.limiter, &pair) {
                Ok(_) => {},
                Err(e) => {
                    return Err(e);
                },
            }
            k += 1;
            proof {
                assert(solver_clauses(self.solver) =~= pre2 + disjoint_clauses(&fb).take(
                    k as int,
                ));
            }
        }
        proof {
            assert(disjoint_clauses(&fb).take(nv as int) =~= disjoint_clauses(&fb));
        }
        // Formula 3: quorum closure, first for A then for B.
        let ghost pre3 = solver_clauses(self.solver);
        match self.construct_quorum_formula(0) {
            Ok(()) => {},
            Err(e) => {
                return Err(e);
            },
        }
        let ghost mid = solver_clauses(self.solver);
        proof {
            assert(solver_num_vars(self.solver) == 2 * n + aux_total(&fb));
        }
        match self.construct_quorum_formula(n) {
            Ok(()) => {},
            Err(e) => {
                proof {
                    assert(2 * fb.num_vertices() + aux_total(&fb) + aux_total(&fb) == total_vars(
                        &fb,
                    ));
                }
                return Err(e);
            },
        }
        proof {
            assert(solver_clauses(self.solver) == pre3 + quorum_clauses(&fb, 0, 2 * n as int, n as int)
                + quorum_clauses(&fb, n as int, 2 * n + aux_total(&fb) as int, n as int));
            assert(solver_clauses(self.solver) =~= fbas_clauses(&fb));
        }
        Ok(())
    }

    /// Emits the closure clauses of one quorum, whose membership
    /// variables start at `off`; the pass spends one fresh auxiliary per
    /// size-threshold choice per vertex.
    fn construct_quorum_formula(&mut self, off: usize) -> (r: Result<(), FbasError>)
        requires
            old(self).fbas.wf(),
            old(self).vars.node_count == old(self).fbas.num_vertices(),
            off == 0 || off == old(self).fbas.num_vertices(),
            2 * old(self).fbas.num_vertices() <= VAR_LIMIT,
            2 * old(self).fbas.num_vertices() <= solver_num_vars(old(self).solver),
            solver_num_vars(old(self).solver) <= VAR_LIMIT,
        ensures
            final (self).fbas == old(self).fbas,
            final (self).vars == old(self).vars,
            final (self).status == old(self).status,
            limiter_same_config(&final (self).limiter, &old(self).limiter),
            r is Ok ==> (solver_num_vars(final (self).solver) == solver_num_vars(old(self).solver)
                + aux_total(&old(self).fbas) && solver_num_vars(final (self).solver) <= VAR_LIMIT
                && solver_clauses(final (self).solver) == solver_clauses(old(self).solver)
                + quorum_clauses(
                &old(self).fbas,
                off as int,
                solver_num_vars(old(self).solver) as int,
                old(self).fbas.num_vertices() as int,
            )),
            r matches Err(e) ==> ((e is InternalError && solver_num_vars(old(self).solver)
                + aux_total(&old(self).fbas) > VAR_LIMIT) || (
            e matches FbasError::ResourceLimitExceeded(u) && u.spec_exceeds(
                old(self).limiter.limits(),
            ))),
            old(self).limiter.is_unlimited() && solver_num_vars(old(self).solver) + aux_total(
                &old(self).fbas,
            ) <= VAR_LIMIT ==> r is Ok,
    {
        let n = self.vars.node_count;
        let ghost fb = self.fbas;
        let ghost base = solver_num_vars(old(self).solver) as int;
        let mut v: usize = 0;
        while v < n
            invariant
                v <= n,
                n == fb.num_vertices(),
                fb.wf(),
                fb == old(self).fbas,
                self.fbas == old(self).fbas,
                self.vars == old(self).vars,
                self.vars.node_count == n,
                self.status == old(self).status,
                limiter_same_config(&self.limiter, &old(self).limiter),
                off == 0 || off == n,
                2 * n <= VAR_LIMIT,
                2 * n <= base,
                base == solver_num_vars(old(self).solver),
                solver_num_vars(self.solver) == base + aux_before(&fb, v as int),
                solver_num_vars(self.solver) <= VAR_LIMIT,
                solver_clauses(self.solver) == solver_clauses(old(self).solver) + quorum_clauses(
                    &fb,
                    off as int,
                    base,
                    v as int,
                ),
            decreases n - v,
        {
            let succs_v = self.fbas.successors_of(v);
            let threshold = self.fbas.vertices[v].get_threshold();
            let t_usize = threshold as usize;
            proof {
                assert(succs_v@ == succs(&fb, v as int));
                assert(t_usize as nat == thr(&fb, v as int));
            }
            let combos = combinations_from(&succs_v, 0, t_usize);
            proof {
                assert(succs_v@.skip(0) =~= succs_v@);
                assert(combos.deep_view() == combs(succs(&fb, v as int), thr(&fb, v as int)));
                assert(combos@.len() == combos.deep_view().len());
                assert(combos@.len() == ncombs(&fb, v as int));
            }
            let ghost aux0 = base + aux_before(&fb, v as int);
            let ghost pre_clauses = solver_clauses(self.solver);
            let mut first_term: Vec<Lit> = Vec::new();
            first_term.push(Lit { var: (off + v) as u32, pos: false });
            let mut j: usize = 0;
            while j < combos.len()
                invariant
                    j <= combos@.len(),
                    n == fb.num_vertices(),
                    fb.wf(),
                    fb == old(self).fbas,
                    self.fbas == old(self).fbas,
                    self.vars == old(self).vars,
                    self.status == old(self).status,
                    limiter_same_config(&self.limiter, &old(self).limiter),
                    off == 0 || off == n,
                    2 * n <= VAR_LIMIT,
                    2 * n <= base,
                    base == solver_num_vars(old(self).solver),
                    v < n,
                    combos.deep_view() == combs(succs(&fb, v as int), thr(&fb, v as int)),
                    combos@.len() == ncombs(&fb, v as int),
                    aux0 == base + aux_before(&fb, v as int),
                    solver_num_vars(self.solver) == aux0 + j,
                    solver_num_vars(self.solver) <= VAR_LIMIT,
                    pre_clauses == solver_clauses(old(self).solver) + quorum_clauses(
                        &fb,
                        off as int,
                        base,
                        v as int,
                    ),
                    solver_clauses(self.solver) == pre_clauses + combo_clauses(
                        &fb,
                        v as int,
                        off as int,
                        aux0,
                        j as int,
                    ),
                    first_term@ == seq![mk_lit(off + v, false)] + Seq::new(
                        j as nat,
                        |t: int| mk_lit(aux0 + t, true),
                    ),
                decreases combos@.len() - j,
            {
                if self.solver.num_vars() >= VAR_LIMIT {
                    proof {
                        assert(solver_num_vars(self.solver) >= VAR_LIMIT);
                        assert(j < ncombs(&fb, v as int));
                        assert(aux_before(&fb, v as int + 1) == aux_before(&fb, v as int) + ncombs(
                            &fb,
                            v as int,
                        ));
                        lemma_aux_before_monotone(&fb, v as int + 1, n as int);
                        assert(aux_total(&fb) == aux_before(&fb, n as int));
                        assert(aux_before(&fb, v as int) + j < aux_total(&fb));
                        assert(base + aux_total(&fb) > VAR_LIMIT);
                    }
                    return Err(FbasError::InternalError("solver variable budget exceeded"));
                }
                let alpha = self.solver.new_var();
                first_term.push(Lit { var: alpha, pos: true });
                proof {
                    assert(first_term@ =~= seq![mk_lit(off + v, false)] + Seq::new(
                        (j + 1) as nat,
                        |t: int| mk_lit(aux0 + t, true),
                    ));
                }
                let c = &combos[j];
                proof {
                    assert(c@ == combos.deep_view()[j as int]);
                    lemma_combs_sound(succs(&fb, v as int), thr(&fb, v as int), j as int);
                    lemma_successors_bound(&fb, v as int);
                    lemma_subseq_bound(c@, succs(&fb, v as int));
                    assert forall|t: int| 0 <= t < c@.len() implies (#[trigger] c@[t]) < n by {
                        assert(succs(&fb, v as int).contains(c@[t]));
                        let w = choose|w: int|
                            0 <= w < succs(&fb, v as int).len() && succs(&fb, v as int)[w] == c@[t];
                        assert(succs(&fb, v as int)[w] < n);
                    }
                }
                let mut third: Vec<Lit> = Vec::new();
                third.push(Lit { var: alpha, pos: true });
                let ghost pre_j = solver_clauses(self.solver);
                let mut t: usize = 0;
                while t < c.len()
                    invariant
                        t <= c@.len(),
                        n == fb.num_vertices(),
                        fb == old(self).fbas,
                        self.fbas == old(self).fbas,
                        self.vars == old(self).vars,
                        self.status == old(self).status,
                        limiter_same_config(&self.limiter, &old(self).limiter),
                        off == 0 || off == n,
                        2 * n <= VAR_LIMIT,
                        2 * n <= base,
                        v < n,
                        forall|u: int| 0 <= u < c@.len() ==> (#[trigger] c@[u]) < n,
                        alpha as int == aux0 + j,
                        aux0 == base + aux_before(&fb, v as int),
                        solver_num_vars(self.solver) == aux0 + j + 1,
                        solver_num_vars(self.solver) <= VAR_LIMIT,
                        third@ == seq![mk_lit(alpha as int, true)] + c@.take(t as int).map_values(
                            |u: usize| mk_lit(off + u as int, false),
                        ),
                        solver_clauses(self.solver) == pre_j + Seq::new(
                            t as nat,
                            |u: int| member_clause(off as int, alpha as int, c@[u] as int),
                        ),
                    decreases c@.len() - t,
                {
                    let u = c[t];
                    let mut mem: Vec<Lit> = Vec::new();
                    mem.push(Lit { var: alpha, pos: false });
                    mem.push(Lit { var: (off + u) as u32, pos: true });
                    proof {
                        assert(mem@ =~= member_clause(off as int, alpha as int, c@[t as int] as int));
                    }
                    match add_clause_limited(&mut self.solver, &mut self.limiter, &mem) {
                        Ok(_) => {},
                        Err(e) => {
                            return Err(e);
                        },
                    }
                    third.push(Lit { var: (off + u) as u32, pos: false });
                    t += 1;
                    proof {
                        assert(third@ =~= seq![mk_lit(alpha as int, true)] + c@.take(
                            t as int,
                        ).map_values(|u: usize| mk_lit(off + u as int, false)));
                        assert(solver_clauses(self.solver) =~= pre_j + Seq::new(
                            t as nat,
                            |u: int| member_clause(off as int, alpha as int, c@[u] as int),
                        ));
                    }
                }
                proof {
                    assert(c@.take(c@.len() as int) =~= c@);
                    assert(third@ =~= backward_clause(off as int, alpha as int, c@));
                }
                match add_clause_limited(&mut self.solver, &mut self.limiter, &third) {
                    Ok(_) => {},
                    Err(e) => {
                        return Err(e);
                    },
                }
                j += 1;
                proof {
                    assert(Seq::new(
                        c@.len(),
                        |u: int| member_clause(off as int, alpha as int, c@[u] as int),
                    ).push(backward_clause(off as int, alpha as int, c@)) =~= slice_clauses(
                        off as int,
                        alpha as int,
                        c@,
                    ));
                    assert(solver_clauses(self.solver) =~= pre_clauses + combo_clauses(
                        &fb,
                        v as int,
                        off as int,
                        aux0,
                        j as int,
                    ));
                }
            }
            proof {
                assert(first_term@ =~= closure_clause(&fb, v as int, off as int, aux0));
            }
            match add_clause_limited(&mut self.solver, &mut self.limiter, &first_term) {
                Ok(_) => {},
                Err(e) => {
                    return Err(e);
                },
            }
            v += 1;
            proof {
                assert(solver_clauses(self.solver) =~= solver_clauses(old(self).solver)
                    + quorum_clauses(&fb, off as int, base, v as int));
            }
        }
        Ok(())
    }

    /// Builds an analyzer from a quorum set map: constructs the graph,
    /// allocates the variables and loads the encoding.
    pub fn from_quorum_set_map(qsm: &QuorumSetMap, resource_limiter: ResourceLimiter) -> (r:
        Result<FbasAnalyzer, FbasError>)
        requires
            qsm.wf(),
        ensures
            r matches Ok(a) ==> (a.wf() && a.spec_status() is UNKNOWN && distinct_qsets(
                &a.spec_fbas(),
            ) && a.spec_fbas().validators@.len() == qsm.spec_len() && (forall|k: int|
                0 <= k < qsm.spec_len() ==> (#[trigger] a.spec_fbas().vertices@[k])->Validator_id@
                    == qsm.entries@[k].0@) && (forall|k: int|
                0 <= k < qsm.spec_len() ==> ((#[trigger] qsm.entries@[k]).1 matches Some(q)
                    ==> (a.spec_fbas().vertices@[k]->Validator_root is Some
                    && crate::fbas::tree_matches(
                    &a.spec_fbas(),
                    a.spec_fbas().vertices@[k]->Validator_root->0 as int,
                    crate::quorum_set_map::qset_view(q),
                    QUORUM_SET_MAX_DEPTH as nat,
                )))) && a.limits() == resource_limiter.limits()),
            r matches Err(e) ==> (e is MaxDepthExceeded || e is InternalError || (
            e matches FbasError::ResourceLimitExceeded(u) && u.spec_exceeds(
                resource_limiter.limits(),
            ))),
            r == Err::<FbasAnalyzer, FbasError>(FbasError::MaxDepthExceeded) <==> exists|k: int|
                0 <= k < qsm.spec_len() && ((#[trigger] qsm.entries@[k]).1 matches Some(q)
                    && !qset_depth_ok(q, QUORUM_SET_MAX_DEPTH as nat)),
            resource_limiter.is_unlimited() && !(exists|k: int|
                0 <= k < qsm.spec_len() && ((#[trigger] qsm.entries@[k]).1 matches Some(q)
                    && !qset_depth_ok(q, QUORUM_SET_MAX_DEPTH as nat))) ==> (r is Ok || (
            r matches Err(e) && e is InternalError)),
    {
        let fbas = match Fbas::from_quorum_set_map(qsm) {
            Ok(f) => f,
            Err(e) => {
                return Err(FbasError::MaxDepthExceeded);
            },
        };
        Self::from_fbas(fbas, resource_limiter)
    }

    /// Builds an analyzer from two equal-length lists of XDR buffers (one
    /// `NodeId` and one `ScpQuorumSet` per validator).
    pub fn from_quorum_set_map_buf(
        nodes: &Vec<Vec<u8>>,
        quorum_sets: &Vec<Vec<u8>>,
        resource_limiter: ResourceLimiter,
    ) -> (r: Result<FbasAnalyzer, FbasError>)
        ensures
            r matches Ok(a) ==> (a.wf() && a.spec_status() is UNKNOWN && a.limits()
                == resource_limiter.limits()),
            r matches Err(e) ==> (e is ParseError || e is XdrDecodingError
                || e is MaxDepthExceeded || e is InternalError || (
            e matches FbasError::ResourceLimitExceeded(u) && u.spec_exceeds(
                resource_limiter.limits(),
            ))),
            nodes@.len() != quorum_sets@.len() ==> r == Err::<FbasAnalyzer, FbasError>(
                FbasError::ParseError("length in nodes and quorum_sets do not match"),
            ),
            r is Ok ==> (nodes@.len() == quorum_sets@.len() && bufs_decode(nodes@, quorum_sets@)),
            resource_limiter.is_unlimited() && nodes@.len() == quorum_sets@.len() && bufs_decode(
                nodes@,
                quorum_sets@,
            ) && bufs_depth_ok(quorum_sets@) ==> (r is Ok || (r matches Err(e)
                && e is InternalError)),
    {
        let fbas = match Fbas::from_quorum_set_map_buf(nodes, quorum_sets) {
            Ok(f) => f,
            Err(e) => {
                return Err(e);
            },
        };
        Self::from_fbas(fbas, resource_limiter)
    }

    /// Builds an analyzer from a JSON text in either accepted dialect.
    pub fn from_json_str(data: &str, resource_limiter: ResourceLimiter) -> (r: Result<
        FbasAnalyzer,
        FbasError,
    >)
        ensures
            r matches Ok(a) ==> (a.wf() && a.spec_status() is UNKNOWN && a.limits()
                == resource_limiter.limits()),
            r matches Err(e) ==> (e is ParseError || e is MaxDepthExceeded
                || e is InternalError || (e matches FbasError::ResourceLimitExceeded(u)
                && u.spec_exceeds(resource_limiter.limits()))),
            crate::json_input::parsed_json(data@) is None ==> r == Err::<
                FbasAnalyzer,
                FbasError,
            >(FbasError::ParseError("fail to parse to json")),
            resource_limiter.is_unlimited() && (crate::json_input::parsed_json(data@)
                matches Some(root) && crate::json_input::json_root_ok(root)) ==> (r is Ok || (
            r matches Err(e) && (e is MaxDepthExceeded || e is InternalError))),
    {
        let qsm = match crate::json_input::quorum_set_map_from_json_str(data) {
            Ok(m) => m,
            Err(e) => {
                return Err(e);
            },
        };
        Self::from_quorum_set_map(&qsm, resource_limiter)
    }

    /// Runs the SAT solver, which polls the limiter's deadline during the
    /// search, and records the outcome: `SAT` with the decoded validator
    /// sets of a genuine split, `UNSAT` when provably no split exists,
    /// `UNKNOWN` when the search was interrupted. The limits are enforced
    /// once more before returning, so exhaustion always surfaces as an
    /// error rather than a silent `UNKNOWN`.
    #[verifier::rlimit(100)]
    pub fn solve(&mut self) -> (r: Result<SolveStatus, FbasError>)
        requires
            old(self).wf(),
        ensures
            final (self).wf(),
            final (self).spec_fbas() == old(self).spec_fbas(),
            final (self).limits() == old(self).limits(),
            r matches Ok(s) ==> status_like(&s, &final (self).spec_status()),
            r matches Ok(s) ==> (s matches SolveStatus::SAT(pair) ==> exists|
                ma: Seq<bool>,
                mb: Seq<bool>,
            |
                {
                    &&& #[trigger] quorum_split(&final (self).spec_fbas(), ma, mb)
                    &&& pair.0@ == members_upto(ma, final (self).spec_fbas().num_validators() as int)
                    &&& pair.1@ == members_upto(mb, final (self).spec_fbas().num_validators() as int)
                }),
            r matches Ok(s) ==> (s is UNSAT ==> forall|qa: Seq<bool>, qb: Seq<bool>|
                !quorum_split(&final (self).spec_fbas(), qa, qb)),
            r matches Err(e) ==> (e matches FbasError::ResourceLimitExceeded(u) && u.spec_exceeds(
                old(self).limits(),
            )),
            old(self).limiter_unlimited() ==> r is Ok,
            old(self).limiter_unlimited() ==> (r matches Ok(s) && !(s is UNKNOWN)),
            old(self).limiter_unlimited() ==> !(final (self).spec_status() is UNKNOWN),
    {
        let deadline_ns = self.limiter.time_limit_ns();
        self.solver.set_stop_deadline(self.limiter.start_time(), deadline_ns);
        let res = self.solver.solve();
        let n = self.vars.node_count;
        let nv = self.fbas.validators.len();
        let ghost fb = self.fbas;
        match res {
            SatResult::Sat(m) => {
                let ghost ma = m@.subrange(0, fb.num_vertices() as int);
                let ghost mb = m@.subrange(
                    fb.num_vertices() as int,
                    2 * fb.num_vertices() as int,
                );
                proof {
                    lemma_encoding_sound(&fb, m@);
                }
                let mut qa: Vec<usize> = Vec::new();
                let mut qb: Vec<usize> = Vec::new();
                let m_len = m.len();
                let mut k: usize = 0;
                while k < nv
                    invariant
                        k <= nv,
                        nv == fb.num_validators(),
                        n == fb.num_vertices(),
                        nv <= n,
                        m_len == m@.len(),
                        m@.len() == total_vars(&fb),
                        ma == m@.subrange(0, fb.num_vertices() as int),
                        mb == m@.subrange(fb.num_vertices() as int, 2 * fb.num_vertices() as int),
                        qa@ == members_upto(ma, k as int),
                        qb@ == members_upto(mb, k as int),
                    decreases nv - k,
                {
                    proof {
                        assert(total_vars(&fb) >= 2 * fb.num_vertices());
                        assert(n + k < m@.len());
                        assert(ma[k as int] == m@[k as int]);
                        assert(mb[k as int] == m@[n + k]);
                    }
                    if m[k] {
                        qa.push(k);
                    }
                    if m[n + k] {
                        qb.push(k);
                    }
                    k += 1;
                }
                self.status = SolveStatus::SAT((qa, qb));
                proof {
                    assert(quorum_split(&self.fbas, ma, mb));
                }
            },
            SatResult::Unsat => {
                proof {
                    assert forall|qa: Seq<bool>, qb: Seq<bool>| !quorum_split(&fb, qa, qb) by {
                        if quorum_split(&fb, qa, qb) {
                            lemma_encoding_complete(&fb, qa, qb);
                        }
                    }
                }
                self.status = SolveStatus::UNSAT;
            },
            SatResult::Unknown => {
                self.status = SolveStatus::UNKNOWN;
            },
        }
        match self.limiter.measure_and_enforce_limits() {
            Ok(()) => {},
            Err(e) => {
                return Err(e);
            },
        }
        let snapshot = self.status_snapshot();
        proof {
            let nv = self.fbas.num_validators() as int;
            match (&snapshot, &self.status) {
                (SolveStatus::SAT(ps), SolveStatus::SAT(pt)) => {
                    let (ma, mb): (Seq<bool>, Seq<bool>) = choose|ma: Seq<bool>, mb: Seq<bool>|
                        {
                            &&& #[trigger] quorum_split(&self.fbas, ma, mb)
                            &&& pt.0@ == members_upto(ma, nv)
                            &&& pt.1@ == members_upto(mb, nv)
                        };
                    assert(ps.0@ == pt.0@ && ps.1@ == pt.1@);
                    assert(quorum_split(&self.spec_fbas(), ma, mb));
                    assert(ps.0@ == members_upto(ma, self.spec_fbas().num_validators() as int));
                    assert(ps.1@ == members_upto(mb, self.spec_fbas().num_validators() as int));
                    assert(exists|ma2: Seq<bool>, mb2: Seq<bool>|
                        {
                            &&& #[trigger] quorum_split(&self.spec_fbas(), ma2, mb2)
                            &&& ps.0@ == members_upto(
                                ma2,
                                self.spec_fbas().num_validators() as int,
                            )
                            &&& ps.1@ == members_upto(
                                mb2,
                                self.spec_fbas().num_validators() as int,
                            )
                        });
                },
                _ => {},
            }
            assert(snapshot matches SolveStatus::SAT(pair) ==> exists|
                ma2: Seq<bool>,
                mb2: Seq<bool>,
            |
                {
                    &&& #[trigger] quorum_split(&self.spec_fbas(), ma2, mb2)
                    &&& pair.0@ == members_upto(ma2, self.spec_fbas().num_validators() as int)
                    &&& pair.1@ == members_upto(mb2, self.spec_fbas().num_validators() as int)
                });
        }
        Ok(snapshot)
    }

    /// An owned copy of the recorded status.
    fn status_snapshot(&self) -> (r: SolveStatus)
        ensures
            status_like(&r, &self.spec_status()),
    {
        match &self.status {
            SolveStatus::UNSAT => SolveStatus::UNSAT,
            SolveStatus::UNKNOWN => SolveStatus::UNKNOWN,
            SolveStatus::SAT(pair) => SolveStatus::SAT(
                (copy_indices(&pair.0), copy_indices(&pair.1)),
            ),
        }
    }

    /// The validator ids of the recorded split, in vertex-index order, or
    /// two empty lists when no split was recorded. Which of the many
    /// equivalent splits was recorded is the solver's choice.
    pub fn get_potential_split(&self) -> (r: Result<(Vec<String>, Vec<String>), FbasError>)
        requires
            self.wf(),
        ensures
            r is Ok,
            r matches Ok(pair) ==> match self.spec_status() {
                SolveStatus::SAT(q) => {
                    &&& pair.0@.len() == q.0@.len()
                    &&& pair.1@.len() == q.1@.len()
                    &&& forall|i: int|
                        0 <= i < q.0@.len() ==> (#[trigger] pair.0@[i])@
                            == self.spec_fbas().vertices@[q.0@[i] as int]->Validator_id@
                    &&& forall|i: int|
                        0 <= i < q.1@.len() ==> (#[trigger] pair.1@[i])@
                            == self.spec_fbas().vertices@[q.1@[i] as int]->Validator_id@
                },
                _ => pair.0@.len() == 0 && pair.1@.len() == 0,
            },
    {
        match &self.status {
            SolveStatus::SAT(pair) => {
                proof {
                    let (ma, mb): (Seq<bool>, Seq<bool>) = choose|ma: Seq<bool>, mb: Seq<bool>|
                        {
                            &&& #[trigger] quorum_split(&self.fbas, ma, mb)
                            &&& pair.0@ == members_upto(ma, self.fbas.num_validators() as int)
                            &&& pair.1@ == members_upto(mb, self.fbas.num_validators() as int)
                        };
                    lemma_members_upto_entries(ma, self.fbas.num_validators() as int);
                    lemma_members_upto_entries(mb, self.fbas.num_validators() as int);
                }
                let qa_strings = self.indices_to_ids(&pair.0);
                let qb_strings = self.indices_to_ids(&pair.1);
                Ok((qa_strings, qb_strings))
            },
            _ => Ok((Vec::new(), Vec::new())),
        }
    }

    /// Renders a list of validator vertex indices as their ids.
    fn indices_to_ids(&self, q: &Vec<usize>) -> (r: Vec<String>)
        requires
            self.fbas.wf(),
            forall|i: int| 0 <= i < q@.len() ==> (#[trigger] q@[i]) < self.fbas.num_validators(),
        ensures
            r@.len() == q@.len(),
            forall|i: int|
                0 <= i < q@.len() ==> (#[trigger] r@[i])@
                    == self.fbas.vertices@[q@[i] as int]->Validator_id@,
    {
        let mut r: Vec<String> = Vec::new();
        let mut i: usize = 0;
        while i < q.len()
            invariant
                i <= q@.len(),
                self.fbas.wf(),
                forall|t: int| 0 <= t < q@.len() ==> (#[trigger] q@[t]) < self.fbas.num_validators(),
                r@.len() == i,
                forall|t: int|
                    0 <= t < i ==> (#[trigger] r@[t])@
                        == self.fbas.vertices@[q@[t] as int]->Validator_id@,
            decreases q@.len() - i,
        {
            let ni = q[i];
            let id = match self.try_get_id(ni) {
                Some(id) => id,
                None => {
                    proof {
                        assert(false);
                    }
                    String::new()
                },
            };
            r.push(id);
            i += 1;
        }
        r
    }

    /// The id of the validator vertex at `ni`, when it is one.
    fn try_get_id(&self, ni: usize) -> (r: Option<String>)
        ensures
            ni < self.fbas.vertices@.len() && self.fbas.vertices@[ni as int] is Validator ==> (
            r matches Some(s) && s@ == self.fbas.vertices@[ni as int]->Validator_id@),
            !(ni < self.fbas.vertices@.len() && self.fbas.vertices@[ni as int] is Validator)
                ==> r is None,
    {
        match self.fbas.try_get_validator_string(ni) {
            Ok(s) => Some(s),
            Err(_) => None,
        }
    }
}

/// Element-wise copy of an index list.
fn copy_indices(v: &Vec<usize>) -> (r: Vec<usize>)
    ensures
        r@ == v@,
{
    let mut r: Vec<usize> = Vec::new();
    let mut i: usize = 0;
    while i < v.len()
        invariant
            i <= v@.len(),
            r@ == v@.take(i as int),
        decreases v@.len() - i,
    {
        r.push(v[i]);
        i += 1;
        proof {
            assert(r@ =~= v@.take(i as int));
        }
    }
    proof {
        assert(v@.take(v@.len() as int) =~= v@);
    }
    r
}

/// The two statuses carry the same answer and the same decoded sets.
pub open spec fn status_like(a: &SolveStatus, b: &SolveStatus) -> bool {
    match a {
        SolveStatus::UNSAT => b is UNSAT,
        SolveStatus::UNKNOWN => b is UNKNOWN,
        SolveStatus::SAT(pa) => match b {
            SolveStatus::SAT(pb) => pa.0@ == pb.0@ && pa.1@ == pb.1@,
            _ => false,
        },
    }
}

/// Law: the encoding allocates `2·n` membership variables plus, per
/// quorum, one auxiliary for each size-threshold choice of each vertex's
/// successors — `C(|successors|, threshold)` of them per vertex, zero
/// when the threshold exceeds the successor count.
pub proof fn lemma_variable_count(a: &FbasAnalyzer)
    requires
        a.wf(),
    ensures
        a.spec_num_vars() == 2 * a.spec_fbas().num_vertices() + 2 * aux_total(&a.spec_fbas()),
        forall|v: int|
            0 <= v < a.spec_fbas().num_vertices() ==> ncombs(&a.spec_fbas(), v)
                == crate::combinations::binom(
                succs(&a.spec_fbas(), v).len(),
                thr(&a.spec_fbas(), v),
            ),
{
    assert forall|v: int|
        0 <= v < a.spec_fbas().num_vertices() implies ncombs(&a.spec_fbas(), v)
        == crate::combinations::binom(succs(&a.spec_fbas(), v).len(), thr(&a.spec_fbas(), v)) by {
        crate::combinations::lemma_combs_len(succs(&a.spec_fbas(), v), thr(&a.spec_fbas(), v));
    }
}

/// Law: the clause set is a function of the graph alone — two analyzers
/// built over the same graph hold structurally identical clause sets and
/// variable counts, whatever else happened around them.
pub proof fn lemma_deterministic_encoding(a: &FbasAnalyzer, b: &FbasAnalyzer)
    requires
        a.wf(),
        b.wf(),
        a.spec_fbas() == b.spec_fbas(),
    ensures
        a.spec_clauses() == b.spec_clauses(),
        a.spec_num_vars() == b.spec_num_vars(),
{
}

/// Law: a recorded `SAT` status carries a genuine split: both decoded
/// validator sets are non-empty, no validator index lies in both, every
/// entry is a validator index, and the sets decode from two membership
/// assignments that are closed under the quorum relation and
/// validator-disjoint.
pub proof fn lemma_sat_status_sound(a: &FbasAnalyzer)
    requires
        a.wf(),
        a.spec_status() matches SolveStatus::SAT(pair),
    ensures
        a.spec_status() matches SolveStatus::SAT(pair) ==> {
            &&& pair.0@.len() > 0
            &&& pair.1@.len() > 0
            &&& forall|x: usize| !(pair.0@.contains(x) && pair.1@.contains(x))
            &&& forall|i: int|
                0 <= i < pair.0@.len() ==> (#[trigger] pair.0@[i]) < a.spec_fbas().num_validators()
            &&& forall|i: int|
                0 <= i < pair.1@.len() ==> (#[trigger] pair.1@[i]) < a.spec_fbas().num_validators()
            &&& exists|ma: Seq<bool>, mb: Seq<bool>|
                {
                    &&& #[trigger] quorum_split(&a.spec_fbas(), ma, mb)
                    &&& pair.0@ == members_upto(ma, a.spec_fbas().num_validators() as int)
                    &&& pair.1@ == members_upto(mb, a.spec_fbas().num_validators() as int)
                }
        },
{
    let pair = a.spec_status()->SAT_0;
    let nv = a.spec_fbas().num_validators() as int;
    let (ma, mb): (Seq<bool>, Seq<bool>) = choose|ma: Seq<bool>, mb: Seq<bool>|
        {
            &&& #[trigger] quorum_split(&a.spec_fbas(), ma, mb)
            &&& pair.0@ == members_upto(ma, nv)
            &&& pair.1@ == members_upto(mb, nv)
        };
    lemma_members_upto_entries(ma, nv);
    lemma_members_upto_entries(mb, nv);
    let ka = choose|k: int| 0 <= k < nv && #[trigger] ma[k];
    crate::encoding::lemma_members_upto_contains(ma, nv, ka as usize);
    assert(pair.0@.contains(ka as usize));
    assert(pair.0@.len() > 0);
    let kb = choose|k: int| 0 <= k < nv && #[trigger] mb[k];
    crate::encoding::lemma_members_upto_contains(mb, nv, kb as usize);
    assert(pair.1@.contains(kb as usize));
    assert(pair.1@.len() > 0);
    assert forall|x: usize| !(pair.0@.contains(x) && pair.1@.contains(x)) by {
        crate::encoding::lemma_members_upto_contains(ma, nv, x);
        crate::encoding::lemma_members_upto_contains(mb, nv, x);
    }
}

/// Law: a recorded `UNSAT` status rules out every quorum split of the
/// graph — there are no two validator-disjoint, non-empty, closed
/// membership assignments.
pub proof fn lemma_unsat_status_sound(a: &FbasAnalyzer)
    requires
        a.wf(),
        a.spec_status() is UNSAT,
    ensures
        forall|qa: Seq<bool>, qb: Seq<bool>| !quorum_split(&a.spec_fbas(), qa, qb),
{
}

} // verus!
