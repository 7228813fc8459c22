use vstd::prelude::*;

use crate::clause::Clause;
use crate::lbool::{lbool_of_bool, LBool};
use crate::lit::{lit_in_range, lit_neg, lit_sign, lit_truth, lit_var, Lit, MAX_VAR_ID};
use crate::var::Var;
use crate::var_data::VarData;

verus! {

/// The tunable settings of a solver that are not fractions.
#[derive(Clone, Copy, Debug, PartialEq, Eq, Structural)]
pub struct SolverConfig {
    pub verbosity: i32,
    pub luby_restart: bool,
    /// Conflict clause minimization: 0 none, 1 basic, 2 deep.
    pub ccmin_mode: i32,
    /// Phase saving: 0 none, 1 limited, 2 full.
    pub phase_saving: i32,
    pub rnd_pol: bool,
    pub rnd_init_act: bool,
    pub restart_first: i32,
    pub learntsize_adjust_start_confl: i32,
    pub remove_satisfied: bool,
}

/// The solver's counters.
#[derive(Clone, Copy, Debug, PartialEq, Eq, Structural)]
pub struct SolverStats {
    pub solves: u64,
    pub starts: u64,
    pub decisions: u64,
    pub rnd_decisions: u64,
    pub propagations: u64,
    pub conflicts: u64,
    /// The number of variables that take part in branching.
    pub dec_vars: u64,
    pub clauses_literals: u64,
    pub learnts_literals: u64,
    pub max_literals: u64,
    pub tot_literals: u64,
    pub lbd_calls: u64,
}

/// The state of a solver. The per-variable vectors are indexed by variable
/// identifier and grow together, one entry for each variable created.
pub struct Solver {
    pub config: SolverConfig,
    pub stats: SolverStats,
    pub model: Vec<LBool>,
    pub conflict: Vec<Lit>,
    pub lbd_seen: Vec<u64>,
    pub picked: Vec<u64>,
    pub conflicted: Vec<u64>,
    pub almost_conflicted: Vec<u64>,
    pub canceled: Vec<u64>,
    pub last_conflict: Vec<u64>,
    pub total_actual_count: Vec<i32>,
    /// False once the clauses are known to be unsatisfiable.
    pub ok: bool,
    pub assigns: Vec<LBool>,
    pub polarity: Vec<bool>,
    pub decision: Vec<bool>,
    pub trail: Vec<Lit>,
    pub trail_lim: Vec<i32>,
    pub vardata: Vec<VarData>,
    pub qhead: i32,
    pub simp_db_assigns: i32,
    pub simp_db_props: i64,
    pub assumptions: Vec<Lit>,
    pub seen: Vec<char>,
    pub analyze_stack: Vec<Lit>,
    pub analyze_toclear: Vec<Lit>,
    pub add_tmp: Vec<Lit>,
    pub learntsize_adjust_cnt: i32,
    /// -1 means no budget.
    pub conflict_budget: i64,
    /// -1 means no budget.
    pub propagation_budget: i64,
    pub asynch_interrupt: bool,
}

/// The abstract state of a solver: its vectors seen as sequences.
pub struct SolverView {
    pub config: SolverConfig,
    pub stats: SolverStats,
    pub model: Seq<LBool>,
    pub conflict: Seq<Lit>,
    pub lbd_seen: Seq<u64>,
    pub picked: Seq<u64>,
    pub conflicted: Seq<u64>,
    pub almost_conflicted: Seq<u64>,
    pub canceled: Seq<u64>,
    pub last_conflict: Seq<u64>,
    pub total_actual_count: Seq<i32>,
    pub ok: bool,
    pub assigns: Seq<LBool>,
    pub polarity: Seq<bool>,
    pub decision: Seq<bool>,
    pub trail: Seq<Lit>,
    pub trail_lim: Seq<i32>,
    pub vardata: Seq<VarData>,
    pub qhead: i32,
    pub simp_db_assigns: i32,
    pub simp_db_props: i64,
    pub assumptions: Seq<Lit>,
    pub seen: Seq<char>,
    pub analyze_stack: Seq<Lit>,
    pub analyze_toclear: Seq<Lit>,
    pub add_tmp: Seq<Lit>,
    pub learntsize_adjust_cnt: i32,
    pub conflict_budget: i64,
    pub propagation_budget: i64,
    pub asynch_interrupt: bool,
}

impl View for Solver {
    type V = SolverView;

    open spec fn view(&self) -> SolverView {
        SolverView {
            config: self.config,
            stats: self.stats,
            model: self.model@,
            conflict: self.conflict@,
            lbd_seen: self.lbd_seen@,
            picked: self.picked@,
            conflicted: self.conflicted@,
            almost_conflicted: self.almost_conflicted@,
            canceled: self.canceled@,
            last_conflict: self.last_conflict@,
            total_actual_count: self.total_actual_count@,
            ok: self.ok,
            assigns: self.assigns@,
            polarity: self.polarity@,
            decision: self.decision@,
            trail: self.trail@,
            trail_lim: self.trail_lim@,
            vardata: self.vardata@,
            qhead: self.qhead,
            simp_db_assigns: self.simp_db_assigns,
            simp_db_props: self.simp_db_props,
            assumptions: self.assumptions@,
            seen: self.seen@,
            analyze_stack: self.analyze_stack@,
            analyze_toclear: self.analyze_toclear@,
            add_tmp: self.add_tmp@,
            learntsize_adjust_cnt: self.learntsize_adjust_cnt,
            conflict_budget: self.conflict_budget,
            propagation_budget: self.propagation_budget,
            asynch_interrupt: self.asynch_interrupt,
        }
    }
}

/// The number of `true` entries of `s`.
pub open spec fn count_true(s: Seq<bool>) -> nat
    decreases s.len(),
{
    if s.len() == 0 {
        0
    } else {
        count_true(s.drop_last()) + if s.last() { 1nat } else { 0nat }
    }
}

pub proof fn lemma_count_true_push(s: Seq<bool>, b: bool)
    ensures
        count_true(s.push(b)) == count_true(s) + if b { 1nat } else { 0nat },
{
    assert(s.push(b).drop_last() =~= s);
}

pub proof fn lemma_count_true_le(s: Seq<bool>)
    ensures
        count_true(s) <= s.len(),
    decreases s.len(),
{
    if s.len() > 0 {
        lemma_count_true_le(s.drop_last());
    }
}

pub proof fn lemma_count_true_update(s: Seq<bool>, i: int, b: bool)
    requires
        0 <= i < s.len(),
    ensures
        count_true(s.update(i, b)) + (if s[i] { 1int } else { 0int })
            == count_true(s) + (if b { 1int } else { 0int }),
    decreases s.len(),
{
    if i == s.len() - 1 {
        assert(s.update(i, b).drop_last() =~= s.drop_last());
    } else {
        lemma_count_true_update(s.drop_last(), i, b);
        assert(s.update(i, b).drop_last() =~= s.drop_last().update(i, b));
    }
}

pub proof fn lemma_simplify_none_stays(ps: Seq<Lit>, assigns: Seq<LBool>, i: nat, n: nat)
    requires
        i <= n,
        simplify_prefix(ps, assigns, i) is None,
    ensures
        simplify_prefix(ps, assigns, n) is None,
    decreases n - i,
{
    if i < n {
        lemma_simplify_none_stays(ps, assigns, i + 1, n);
    }
}

/// Creating a variable or changing whether one takes part in branching keeps
/// the bookkeeping: every per-variable sequence has one entry per variable,
/// and `dec_vars` counts the variables that take part in branching.
pub proof fn lemma_bookkeeping_kept(s: SolverView, sign: bool, dvar: bool, v: int, b: bool)
    requires
        s.wf(),
    ensures
        s.num_vars() <= MAX_VAR_ID ==> s.new_var(sign, dvar).wf(),
        s.num_vars() <= MAX_VAR_ID ==> s.new_var(sign, dvar).num_vars() == s.num_vars() + 1,
        0 <= v < s.num_vars() ==> s.set_decision_var(v, b).wf(),
        0 <= v < s.num_vars() ==> s.set_decision_var(v, b).num_vars() == s.num_vars(),
{
    lemma_count_true_le(s.decision);
    if 0 <= v < s.num_vars() {
        lemma_count_true_update(s.decision, v, b);
    }
    if s.num_vars() <= MAX_VAR_ID {
        let d = s.decision.push(false);
        lemma_count_true_push(s.decision, false);
        lemma_count_true_le(d);
        lemma_count_true_update(d, s.num_vars() as int, dvar);
    }
}

/// The literal of a defined variable is true or false, its negation has the
/// same variable and the opposite value; an undefined variable gives
/// undefined literals.
pub proof fn lemma_lit_truth_neg(l: Lit, assigns: Seq<LBool>)
    ensures
        lit_var(lit_neg(l)) == lit_var(l),
        lit_neg(lit_neg(l)) == l,
        lit_neg(l) != l,
        assigns[lit_var(l) as int] == LBool::Undefined ==> lit_truth(l, assigns) == LBool::Undefined
            && lit_truth(lit_neg(l), assigns) == LBool::Undefined,
        assigns[lit_var(l) as int] != LBool::Undefined ==> (lit_truth(l, assigns) == LBool::True
            <==> lit_truth(lit_neg(l), assigns) == LBool::False),
        assigns[lit_var(l) as int] != LBool::Undefined ==> lit_truth(l, assigns) != LBool::Undefined,
{
    let x = l.value;
    assert((x ^ 1) >> 1 == x >> 1) by (bit_vector);
    assert((x ^ 1) ^ 1 == x) by (bit_vector);
    assert(x ^ 1 != x) by (bit_vector);
    assert(((x ^ 1) & 1 == 1) == !(x & 1 == 1)) by (bit_vector);
    assert(0i32 ^ 0 == 0 && 0i32 ^ 1 == 1 && 1i32 ^ 0 == 1 && 1i32 ^ 1 == 0) by (bit_vector);
    assert(2i32 ^ 0 == 2 && 2i32 ^ 1 == 3) by (bit_vector);
}

/// Once simplification has kept a literal, it either finds the clause
/// satisfied or keeps at least one literal.
pub proof fn lemma_kept_stays_nonempty(ps: Seq<Lit>, assigns: Seq<LBool>, m: nat, n: nat)
    requires
        m <= n <= ps.len(),
        simplify_prefix(ps, assigns, m) matches Some(k) && k.len() > 0,
    ensures
        simplify_prefix(ps, assigns, n) matches Some(k) ==> k.len() > 0,
    decreases n - m,
{
    if m < n {
        lemma_kept_stays_nonempty(ps, assigns, m, (n - 1) as nat);
        if simplify_prefix(ps, assigns, (n - 1) as nat) is None {
            lemma_simplify_none_stays(ps, assigns, (n - 1) as nat, n);
        }
    }
}

/// A clause that holds a literal and its negation is satisfied: a consistent
/// solver takes it with result true and stays as it was.
pub proof fn lemma_tautology_is_satisfied(s: SolverView, ps: Seq<Lit>, i: int, j: int)
    requires
        s.ok,
        0 <= i < ps.len(),
        0 <= j < ps.len(),
        ps[j] == lit_neg(ps[i]),
    ensures
        s.add_clause(ps) == (true, s),
{
    let a = s.assigns;
    lemma_lit_truth_neg(ps[i], a);
    let (i1, i2) = if i < j { (i, j) } else { (j, i) };
    let l1 = ps[i1];
    let l2 = ps[i2];
    lemma_lit_truth_neg(l1, a);
    assert(l2 == lit_neg(l1));
    lemma_lit_truth_neg(l2, a);
    let n = ps.len();
    if simplify_prefix(ps, a, i1 as nat) is None {
        lemma_simplify_none_stays(ps, a, i1 as nat, n);
    } else {
        let k1 = simplify_prefix(ps, a, i1 as nat)->Some_0;
        let r1 = simplify_prefix(ps, a, (i1 + 1) as nat);
        if r1 is None {
            lemma_simplify_none_stays(ps, a, (i1 + 1) as nat, n);
        } else if r1->Some_0.len() > 0 {
            lemma_kept_stays_nonempty(ps, a, (i1 + 1) as nat, n);
            if simplify_prefix(ps, a, i2 as nat) is Some {
                lemma_kept_stays_nonempty(ps, a, (i1 + 1) as nat, i2 as nat);
                if a[lit_var(l1) as int] != LBool::Undefined {
                    assert(lit_truth(l2, a) == LBool::True);
                    assert(simplify_prefix(ps, a, (i2 + 1) as nat) is None);
                    lemma_simplify_none_stays(ps, a, (i2 + 1) as nat, n);
                }
            }
        } else {
            assert(k1.len() == 0);
            assert(r1->Some_0 =~= Seq::<Lit>::empty());
            assert(k1 =~= Seq::<Lit>::empty());
            lemma_kept_empty_until(ps, a, (i1 + 1) as nat, i2 as nat, n);
        }
    }
}

/// Helper of `lemma_tautology_is_satisfied`: after the first of the two
/// literals nothing is kept, so the second one is the negation of the
/// default literal, or is true.
proof fn lemma_kept_empty_until(ps: Seq<Lit>, a: Seq<LBool>, m: nat, i2: nat, n: nat)
    requires
        0 < m <= i2 < n == ps.len(),
        simplify_prefix(ps, a, m) == Some(Seq::<Lit>::empty()),
        simplify_prefix(ps, a, (m - 1) as nat) == Some(Seq::<Lit>::empty()),
        ps[i2 as int] == lit_neg(ps[m - 1]),
        lit_truth(ps[m - 1], a) != LBool::True,
    ensures
        simplify(ps, a) matches Some(k) ==> k.len() > 0,
    decreases i2 - m,
{
    let l1 = ps[m - 1];
    let l2 = ps[i2 as int];
    lemma_lit_truth_neg(l1, a);
    lemma_lit_truth_neg(l2, a);
    let r = simplify_prefix(ps, a, i2 as nat);
    if r is None {
        lemma_simplify_none_stays(ps, a, i2 as nat, n);
    } else if r->Some_0.len() > 0 {
        lemma_kept_stays_nonempty(ps, a, i2 as nat, n);
    } else {
        // Nothing kept before the second literal: the first was dropped, so
        // it is false or the default literal.
        if a[lit_var(l1) as int] != LBool::Undefined {
            assert(lit_truth(l1, a) == LBool::False);
            assert(lit_truth(l2, a) == LBool::True);
        } else {
            assert(l1 == Lit { value: 0 });
            assert(l2 == lit_neg(last_kept(Seq::<Lit>::empty())));
        }
        assert(simplify_prefix(ps, a, (i2 + 1) as nat) is None);
        lemma_simplify_none_stays(ps, a, (i2 + 1) as nat, n);
    }
}

/// A clause whose literals are all false, and none the literal of packed
/// value 1 (the negation of the default literal), keeps nothing.
proof fn lemma_all_false_keeps_nothing(ps: Seq<Lit>, a: Seq<LBool>, m: nat)
    requires
        m <= ps.len(),
        forall|k: int| 0 <= k < ps.len() ==> lit_truth(#[trigger] ps[k], a) == LBool::False
            && ps[k] != (Lit { value: 1 }),
    ensures
        simplify_prefix(ps, a, m) == Some(Seq::<Lit>::empty()),
    decreases m,
{
    if m > 0 {
        lemma_all_false_keeps_nothing(ps, a, (m - 1) as nat);
        assert(0i32 ^ 1 == 1) by (bit_vector);
        assert(ps[m - 1] != lit_neg(Lit { value: 0 }));
    }
}

/// An empty clause, or one whose literals are all false (none of them the
/// literal of packed value 1, which the scan takes for the negation of its
/// starting literal), makes a consistent solver inconsistent with result
/// false; after that every clause is refused with result false and no
/// change.
pub proof fn lemma_empty_clause_is_final(s: SolverView, ps: Seq<Lit>, qs: Seq<Lit>)
    requires
        s.ok,
        forall|k: int| 0 <= k < ps.len() ==> lit_truth(#[trigger] ps[k], s.assigns) == LBool::False
            && ps[k] != (Lit { value: 1 }),
    ensures
        s.add_clause(ps) == (false, SolverView { ok: false, ..s }),
        s.add_clause(ps).1.add_clause(qs) == (false, s.add_clause(ps).1),
{
    lemma_all_false_keeps_nothing(ps, s.assigns, ps.len());
}

/// The settings and counters of a fresh solver.
pub open spec fn initial_config() -> SolverConfig {
    SolverConfig {
        verbosity: 0,
        luby_restart: true,
        ccmin_mode: 2,
        phase_saving: 2,
        rnd_pol: false,
        rnd_init_act: false,
        restart_first: 100,
        learntsize_adjust_start_confl: 100,
        remove_satisfied: true,
    }
}

pub open spec fn initial_stats() -> SolverStats {
    SolverStats {
        solves: 0,
        starts: 0,
        decisions: 0,
        rnd_decisions: 0,
        propagations: 0,
        conflicts: 0,
        dec_vars: 0,
        clauses_literals: 0,
        learnts_literals: 0,
        max_literals: 0,
        tot_literals: 0,
        lbd_calls: 0,
    }
}

/// A fresh solver: every sequence empty, the settings at their defaults,
/// no counted event, no known conflict, and no budget.
pub open spec fn initial_view() -> SolverView {
    SolverView {
        config: initial_config(),
        stats: initial_stats(),
        model: Seq::empty(),
        conflict: Seq::empty(),
        lbd_seen: Seq::empty(),
        picked: Seq::empty(),
        conflicted: Seq::empty(),
        almost_conflicted: Seq::empty(),
        canceled: Seq::empty(),
        last_conflict: Seq::empty(),
        total_actual_count: Seq::empty(),
        ok: true,
        assigns: Seq::empty(),
        polarity: Seq::empty(),
        decision: Seq::empty(),
        trail: Seq::empty(),
        trail_lim: Seq::empty(),
        vardata: Seq::empty(),
        qhead: 0,
        simp_db_assigns: -1i32,
        simp_db_props: 0,
        assumptions: Seq::empty(),
        seen: Seq::empty(),
        analyze_stack: Seq::empty(),
        analyze_toclear: Seq::empty(),
        add_tmp: Seq::empty(),
        learntsize_adjust_cnt: 0,
        conflict_budget: -1i64,
        propagation_budget: -1i64,
        asynch_interrupt: false,
    }
}

/// The last literal kept so far, or the default literal where none was.
pub open spec fn last_kept(k: Seq<Lit>) -> Lit {
    if k.len() == 0 {
        Lit { value: 0 }
    } else {
        k.last()
    }
}

/// Simplification of the first `n` literals of `ps` under `assigns`, taken
/// in order. `None`: one of them is true, or is the negation of the last
/// literal kept before it, so the clause is satisfied. Otherwise the literals
/// kept: those that are not false and not equal to the last literal kept
/// before them.
pub open spec fn simplify_prefix(ps: Seq<Lit>, assigns: Seq<LBool>, n: nat) -> Option<Seq<Lit>>
    decreases n,
{
    if n == 0 {
        Some(Seq::empty())
    } else {
        match simplify_prefix(ps, assigns, (n - 1) as nat) {
            None => None,
            Some(k) => {
                let l = ps[n - 1];
                let p = last_kept(k);
                if lit_truth(l, assigns) == LBool::True || l == lit_neg(p) {
                    None
                } else if lit_truth(l, assigns) != LBool::False && l != p {
                    Some(k.push(l))
                } else {
                    Some(k)
                }
            },
        }
    }
}

pub open spec fn simplify(ps: Seq<Lit>, assigns: Seq<LBool>) -> Option<Seq<Lit>> {
    simplify_prefix(ps, assigns, ps.len())
}

impl SolverView {
    /// The result and the state after `add_clause(ps)`. Nothing changes
    /// where the solver is already inconsistent (result false) or the clause
    /// is satisfied (result true). A clause that simplifies to nothing makes
    /// the solver inconsistent (result false); any other clause leaves it
    /// consistent (result true).
    pub open spec fn add_clause(self, ps: Seq<Lit>) -> (bool, SolverView) {
        if !self.ok {
            (false, self)
        } else {
            match simplify(ps, self.assigns) {
                None => (true, self),
                Some(k) => if k.len() == 0 {
                    (false, SolverView { ok: false, ..self })
                } else {
                    (true, self)
                },
            }
        }
    }

    pub open spec fn num_vars(self) -> nat {
        self.vardata.len()
    }

    /// Every per-variable sequence has one entry per variable, the number of
    /// variables fits a literal, and `dec_vars` counts the variables that
    /// take part in branching.
    pub open spec fn wf(self) -> bool {
        let n = self.num_vars();
        &&& n <= MAX_VAR_ID + 1
        &&& self.lbd_seen.len() == n
        &&& self.picked.len() == n
        &&& self.conflicted.len() == n
        &&& self.almost_conflicted.len() == n
        &&& self.canceled.len() == n
        &&& self.last_conflict.len() == n
        &&& self.total_actual_count.len() == n
        &&& self.assigns.len() == n
        &&& self.polarity.len() == n
        &&& self.decision.len() == n
        &&& self.seen.len() == n
        &&& self.stats.dec_vars == count_true(self.decision)
    }

    /// The state after `set_decision_var(v, b)`.
    pub open spec fn set_decision_var(self, v: int, b: bool) -> SolverView {
        let was = self.decision[v];
        let d = self.stats.dec_vars;
        SolverView {
            decision: self.decision.update(v, b),
            stats: SolverStats {
                dec_vars: if b && !was {
                    (d + 1) as u64
                } else if !b && was {
                    (d - 1) as u64
                } else {
                    d
                },
                ..self.stats
            },
            ..self
        }
    }

    /// The state after `new_var(sign, dvar)`: one entry more in each
    /// per-variable sequence, unassigned, with no reason, at level 0,
    /// preferring `sign`, and taking part in branching if `dvar`.
    pub open spec fn new_var(self, sign: bool, dvar: bool) -> SolverView {
        SolverView {
            assigns: self.assigns.push(LBool::Undefined),
            vardata: self.vardata.push(VarData { reason: None, level: 0 }),
            seen: self.seen.push('\0'),
            polarity: self.polarity.push(sign),
            decision: self.decision.push(false),
            lbd_seen: self.lbd_seen.push(0),
            picked: self.picked.push(0),
            conflicted: self.conflicted.push(0),
            almost_conflicted: self.almost_conflicted.push(0),
            canceled: self.canceled.push(0),
            last_conflict: self.last_conflict.push(0),
            total_actual_count: self.total_actual_count.push(0),
            ..self
        }.set_decision_var(self.num_vars() as int, dvar)
    }

    /// The truth value of `p` as the solver reads it: undefined where its
    /// variable is; otherwise the variable's value, negated where the sign
    /// bit of `p` is clear.
    pub open spec fn lit_value(self, p: Lit) -> LBool {
        let a = self.assigns[lit_var(p) as int];
        if a == LBool::Undefined {
            LBool::Undefined
        } else if !lit_sign(p) {
            lbool_of_bool(!(a == LBool::True))
        } else {
            lbool_of_bool(a == LBool::True)
        }
    }

    pub open spec fn all_in_range(self, ps: Seq<Lit>) -> bool {
        forall|i: int| 0 <= i < ps.len() ==> lit_in_range(#[trigger] ps[i], self.assigns.len() as int)
    }
}

impl Solver {
    pub fn new() -> (r: Solver)
        ensures
            r@ == initial_view(),
            r@.wf(),
    {
        let r = Solver {
            config: SolverConfig {
                verbosity: 0,
                luby_restart: true,
                ccmin_mode: 2,
                phase_saving: 2,
                rnd_pol: false,
                rnd_init_act: false,
                restart_first: 100,
                learntsize_adjust_start_confl: 100,
                remove_satisfied: true,
            },
            stats: SolverStats {
                solves: 0,
                starts: 0,
                decisions: 0,
                rnd_decisions: 0,
                propagations: 0,
                conflicts: 0,
                dec_vars: 0,
                clauses_literals: 0,
                learnts_literals: 0,
                max_literals: 0,
                tot_literals: 0,
                lbd_calls: 0,
            },
            model: Vec::new(),
            conflict: Vec::new(),
            lbd_seen: Vec::new(),
            picked: Vec::new(),
            conflicted: Vec::new(),
            almost_conflicted: Vec::new(),
            canceled: Vec::new(),
            last_conflict: Vec::new(),
            total_actual_count: Vec::new(),
            ok: true,
            assigns: Vec::new(),
            polarity: Vec::new(),
            decision: Vec::new(),
            trail: Vec::new(),
            trail_lim: Vec::new(),
            vardata: Vec::new(),
            qhead: 0,
            simp_db_assigns: -1,
            simp_db_props: 0,
            assumptions: Vec::new(),
            seen: Vec::new(),
            analyze_stack: Vec::new(),
            analyze_toclear: Vec::new(),
            add_tmp: Vec::new(),
            learntsize_adjust_cnt: 0,
            conflict_budget: -1,
            propagation_budget: -1,
            asynch_interrupt: false,
        };
        assert(r@.decision =~= Seq::<bool>::empty());
        assert(r@ =~= initial_view());
        r
    }

    /// The current decision level: the number of entries of `trail_lim`.
    pub fn decision_level(&self) -> (r: i32)
        requires
            self.trail_lim@.len() <= i32::MAX,
        ensures
            r == self.trail_lim@.len(),
    {
        self.trail_lim.len() as i32
    }

    pub fn num_vars(&self) -> (r: usize)
        ensures
            r == self@.num_vars(),
    {
        self.vardata.len()
    }

    pub fn lit_value(&self, p: &Lit) -> (r: LBool)
        requires
            lit_in_range(*p, self.assigns@.len() as int),
        ensures
            r == self@.lit_value(*p),
    {
        let value = p.var().value(&self.assigns);
        if value == LBool::Undefined {
            LBool::Undefined
        } else {
            let value = value == LBool::True;
            if !p.sign() {
                LBool::from(!value)
            } else {
                LBool::from(value)
            }
        }
    }

    /// Whether some literal of `c` is true under `lit_value`.
    pub fn satisfied(&self, c: &Clause) -> (r: bool)
        requires
            self@.all_in_range(c@),
        ensures
            r == exists|i: int| 0 <= i < c@.len() && self@.lit_value(#[trigger] c@[i]) == LBool::True,
    {
        let n = c.len();
        let mut i: usize = 0;
        while i < n
            invariant
                n == c@.len(),
                i <= n,
                self@.all_in_range(c@),
                forall|k: int| 0 <= k < i ==> self@.lit_value(#[trigger] c@[k]) != LBool::True,
            decreases n - i,
        {
            let l = c[i];
            assert(lit_in_range(c@[i as int], self.assigns@.len() as int));
            if self.lit_value(&l) == LBool::True {
                return true;
            }
            i = i + 1;
        }
        false
    }

    /// Makes variable `v` take part in branching or not, keeping `dec_vars`
    /// equal to the number of variables that do.
    pub fn set_decision_var(&mut self, v: Var, b: bool)
        requires
            old(self)@.wf(),
            0 <= v.id < old(self)@.num_vars(),
        ensures
            final(self)@ == old(self)@.set_decision_var(v.id as int, b),
            final(self)@.wf(),
    {
        let v_usize: usize = v.into();
        proof {
            lemma_count_true_le(self.decision@);
            lemma_count_true_update(self.decision@, v.id as int, b);
        }
        if b && !self.decision[v_usize] {
            self.stats.dec_vars = self.stats.dec_vars + 1;
        } else if !b && self.decision[v_usize] {
            self.stats.dec_vars = self.stats.dec_vars - 1;
        }
        self.decision.set(v_usize, b);
        assert(self@ =~= old(self)@.set_decision_var(v.id as int, b));
    }

    /// Adds a problem clause at decision level 0; see
    /// `SolverView::add_clause`.
    pub fn add_clause(&mut self, ps: Vec<Lit>) -> (r: bool)
        requires
            old(self).trail_lim@.len() == 0,
            old(self)@.all_in_range(ps@),
        ensures
            (r, final(self)@) == old(self)@.add_clause(ps@),
    {
        let ghost ps0 = ps@;
        let mut lits = ps;
        if !self.ok {
            return false;
        }
        let n = lits.len();
        let mut p = Lit::default();
        let mut j: usize = 0;
        let mut i: usize = 0;
        while i < n
            invariant
                self.ok,
                self@ == old(self)@,
                ps0 == ps@,
                n == ps0.len(),
                lits@.len() == n,
                j <= i <= n,
                self@.all_in_range(ps0),
                forall|k: int| i <= k < n ==> lits@[k] == ps0[k],
                simplify_prefix(ps0, self.assigns@, i as nat) == Some(lits@.subrange(0, j as int)),
                p == last_kept(lits@.subrange(0, j as int)),
            decreases n - i,
        {
            let l = lits[i];
            assert(lit_in_range(ps0[i as int], self.assigns@.len() as int));
            assert(ps0.subrange(0, i as int + 1).drop_last() =~= ps0.subrange(0, i as int));
            if l.value(&self.assigns) == LBool::True || l == core::ops::Not::not(p) {
                assert(simplify_prefix(ps0, self.assigns@, (i + 1) as nat) is None);
                proof {
                    lemma_simplify_none_stays(ps0, self.assigns@, (i + 1) as nat, n as nat);
                }
                return true;
            } else if l.value(&self.assigns) != LBool::False && l != p {
                let ghost kept = lits@.subrange(0, j as int);
                lits.set(j, l);
                assert(lits@.subrange(0, j as int + 1) =~= kept.push(l));
                p = l;
                j = j + 1;
            }
            i = i + 1;
        }
        lits.truncate(j);
        if lits.len() == 0 {
            self.ok = false;
            return false;
        } else if lits.len() == 1 {
            return self.ok;
        }
        true
    }

    /// Creates the next variable; see `SolverView::new_var`.
    pub fn new_var(&mut self, sign: bool, dvar: bool) -> (r: Var)
        requires
            old(self)@.wf(),
            old(self)@.num_vars() <= MAX_VAR_ID,
        ensures
            r.id == old(self)@.num_vars(),
            final(self)@ == old(self)@.new_var(sign, dvar),
            final(self)@.wf(),
    {
        let new_var = Var::from(self.num_vars());
        self.assigns.push(LBool::Undefined);
        self.vardata.push(VarData::new(None, 0));
        self.seen.push('\0');
        self.polarity.push(sign);
        self.decision.push(false);
        self.lbd_seen.push(0);
        self.picked.push(0);
        self.conflicted.push(0);
        self.almost_conflicted.push(0);
        self.canceled.push(0);
        self.last_conflict.push(0);
        self.total_actual_count.push(0);
        proof {
            lemma_count_true_push(old(self).decision@, false);
        }
        let ghost mid = self@;
        self.set_decision_var(new_var, dvar);
        assert(mid =~= SolverView {
            assigns: old(self)@.assigns.push(LBool::Undefined),
            vardata: old(self)@.vardata.push(VarData { reason: None, level: 0 }),
            seen: old(self)@.seen.push('\0'),
            polarity: old(self)@.polarity.push(sign),
            decision: old(self)@.decision.push(false),
            lbd_seen: old(self)@.lbd_seen.push(0),
            picked: old(self)@.picked.push(0),
            conflicted: old(self)@.conflicted.push(0),
            almost_conflicted: old(self)@.almost_conflicted.push(0),
            canceled: old(self)@.canceled.push(0),
            last_conflict: old(self)@.last_conflict.push(0),
            total_actual_count: old(self)@.total_actual_count.push(0),
            ..old(self)@
        });
        new_var
    }
}

} // verus!
