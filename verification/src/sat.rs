//! Propositional clauses and the trusted interface to the CDCL SAT solver.
//!
//! The library builds clauses over its own literal type and keeps, as the
//! ghost state of the solver, the sequence of clauses added so far. The
//! solver itself (batsat) is called through trusted wrappers whose
//! contracts state the solver's documented guarantee: a `Sat` answer comes
//! with an assignment satisfying every added clause, an `Unsat` answer
//! means no assignment satisfies them all.

use crate::resource_limiter::time_limit_reached;
use batsat::SolverInterface;
use std::time::Instant;
use vstd::prelude::*;

verus! {

/// Variable indices stay below this bound so that the solver's packed
/// literal representation can never overflow.
pub const VAR_LIMIT: u32 = 0x4000_0000;

/// A propositional literal: a variable index and a polarity.
#[derive(Debug, Clone, Copy, PartialEq, Eq, Structural)]
pub struct Lit {
    pub var: u32,
    pub pos: bool,
}

/// The value of literal `l` under assignment `m` (out of range reads as
/// an unsatisfied literal).
pub open spec fn lit_sat(m: Seq<bool>, l: Lit) -> bool {
    &&& l.var < m.len()
    &&& if l.pos {
        m[l.var as int]
    } else {
        !m[l.var as int]
    }
}

/// A clause is satisfied when some literal in it is.
pub open spec fn clause_sat(m: Seq<bool>, c: Seq<Lit>) -> bool {
    exists|i: int| 0 <= i < c.len() && lit_sat(m, #[trigger] c[i])
}

/// A clause set is satisfied when every clause in it is.
pub open spec fn cnf_sat(m: Seq<bool>, cs: Seq<Seq<Lit>>) -> bool {
    forall|j: int| 0 <= j < cs.len() ==> clause_sat(m, #[trigger] cs[j])
}

/// The outcome of one SAT call.
pub enum SatResult {
    /// A model over all solver variables, in variable-index order.
    Sat(Vec<bool>),
    /// The clause set is unsatisfiable.
    Unsat,
    /// The search was interrupted before an answer was found.
    Unknown,
}

/// The CDCL solver together with the clauses added so far. The two spec
/// functions below name what it holds; the wrappers state how each call
/// changes it.
#[verifier::external_body]
pub struct SatSolver {
    inner: batsat::BasicSolver,
}

/// The number of variables allocated in the solver.
pub uninterp spec fn solver_num_vars(s: SatSolver) -> nat;

/// The clauses added to the solver so far, in order of addition.
pub uninterp spec fn solver_clauses(s: SatSolver) -> Seq<Seq<Lit>>;

/// The installed interrupt predicate can never fire, so a search always
/// runs to a definite answer.
pub uninterp spec fn solver_answers(s: SatSolver) -> bool;

impl SatSolver {
    /// Relies on `batsat::Solver::new`: a fresh solver holds no variables
    /// and no clauses.
    #[verifier::external_body]
    pub fn new() -> (s: Self)
        ensures
            solver_num_vars(s) == 0,
            solver_clauses(s) == Seq::<Seq<Lit>>::empty(),
    {
        SatSolver {
            inner: batsat::Solver::new(Default::default(), batsat::BasicCallbacks::new()),
        }
    }

    /// Relies on `batsat::Solver::new_var_default`: allocates the next
    /// variable index and touches no clause.
    #[verifier::external_body]
    pub fn new_var(&mut self) -> (v: u32)
        requires
            solver_num_vars(*old(self)) < VAR_LIMIT,
        ensures
            v == solver_num_vars(*old(self)),
            solver_num_vars(*final (self)) == solver_num_vars(*old(self)) + 1,
            solver_clauses(*final (self)) == solver_clauses(*old(self)),
    {
        self.inner.new_var_default().idx()
    }

    /// Relies on `batsat::Solver::num_vars`.
    #[verifier::external_body]
    pub fn num_vars(&self) -> (r: u32)
        ensures
            r as nat == solver_num_vars(*self),
    {
        self.inner.num_vars()
    }

    /// Relies on `batsat::Solver::add_clause_reuse`: records the clause.
    /// The result is `false` when the solver has already derived that the
    /// clause set is unsatisfiable; nothing is stated of it.
    #[verifier::external_body]
    pub fn add_clause(&mut self, c: &Vec<Lit>) -> (r: bool)
        requires
            forall|i: int|
                0 <= i < c@.len() ==> (#[trigger] c@[i]).var < solver_num_vars(*old(self)),
        ensures
            solver_num_vars(*final (self)) == solver_num_vars(*old(self)),
            solver_clauses(*final (self)) == solver_clauses(*old(self)).push(c@),
    {
        let mut lits: Vec<batsat::Lit> = Vec::with_capacity(c.len());
        for l in c.iter() {
            lits.push(batsat::Lit::new(self.inner.var_of_int(l.var), l.pos));
        }
        self.inner.add_clause_reuse(&mut lits)
    }

    /// Relies on `batsat::callbacks::Basic::set_stop`: the solver polls the
    /// given predicate during the search and gives up (returning `Unknown`)
    /// once more than `limit_ns` nanoseconds have passed since `start`.
    /// With the largest possible budget the installed predicate compares
    /// an elapsed time against `u64::MAX` and so can never fire.
    #[verifier::external_body]
    pub fn set_stop_deadline(&mut self, start: &Instant, limit_ns: u64)
        ensures
            solver_num_vars(*final (self)) == solver_num_vars(*old(self)),
            solver_clauses(*final (self)) == solver_clauses(*old(self)),
            solver_answers(*final (self)) == (limit_ns == u64::MAX),
    {
        let start = *start;
        self.inner.cb_mut().set_stop(move || time_limit_reached(&start, limit_ns));
    }

    /// Relies on `batsat::Solver::solve_limited` and `get_model`: `Sat`
    /// comes with an assignment of every variable that satisfies every
    /// added clause; `Unsat` means no assignment satisfies them all;
    /// `Unknown` means the search was interrupted and claims nothing.
    /// With default options the solver sets no conflict or propagation
    /// budget, so when the interrupt predicate can never fire the search
    /// runs to a definite answer.
    #[verifier::external_body]
    pub fn solve(&mut self) -> (r: SatResult)
        ensures
            solver_num_vars(*final (self)) == solver_num_vars(*old(self)),
            solver_clauses(*final (self)) == solver_clauses(*old(self)),
            solver_answers(*final (self)) == solver_answers(*old(self)),
            solver_answers(*old(self)) ==> !(r is Unknown),
            r matches SatResult::Sat(m) ==> (m@.len() == solver_num_vars(*old(self)) && cnf_sat(
                m@,
                solver_clauses(*old(self)),
            )),
            r is Unsat ==> forall|m: Seq<bool>|
                m.len() == solver_num_vars(*old(self)) ==> !cnf_sat(
                    m,
                    solver_clauses(*old(self)),
                ),
    {
        let res = self.inner.solve_limited(&[]);
        if res == batsat::lbool::TRUE {
            let model = self.inner.get_model().iter().map(|&v| v == batsat::lbool::TRUE).collect();
            SatResult::Sat(model)
        } else if res == batsat::lbool::FALSE {
            SatResult::Unsat
        } else {
            SatResult::Unknown
        }
    }
}

} // verus!
