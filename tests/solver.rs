use cdcl::clause::Clause;
use cdcl::heuristic::{ensure_one_bh_enabled, BranchingHeuristic, HeuristicError};
use cdcl::lbool::LBool;
use cdcl::lit::Lit;
use cdcl::solver::Solver;
use cdcl::var::Var;
use cdcl::var_data::VarData;

fn lit(v: i32, neg: bool) -> Lit {
    Lit::new(Var::new(v), neg)
}

#[test]
fn fresh_solver_defaults() {
    let s = Solver::new();
    assert_eq!(s.num_vars(), 0);
    assert!(s.ok);
    assert_eq!(s.decision_level(), 0);
    assert_eq!(s.config.ccmin_mode, 2);
    assert_eq!(s.config.phase_saving, 2);
    assert!(s.config.luby_restart);
    assert!(!s.config.rnd_pol);
    assert!(!s.config.rnd_init_act);
    assert_eq!(s.config.restart_first, 100);
    assert_eq!(s.config.learntsize_adjust_start_confl, 100);
    assert!(s.config.remove_satisfied);
    assert_eq!(s.simp_db_assigns, -1);
    assert_eq!(s.conflict_budget, -1);
    assert_eq!(s.propagation_budget, -1);
    assert_eq!(s.stats.dec_vars, 0);
    assert!(s.trail.is_empty());
}

#[test]
fn new_var_grows_every_array() {
    let mut s = Solver::new();
    let a = s.new_var(false, true);
    let b = s.new_var(true, false);
    let c = s.new_var(true, true);
    assert!(a == 0 && b == 1 && c == 2);
    assert_eq!(s.num_vars(), 3);
    for len in [
        s.assigns.len(),
        s.polarity.len(),
        s.decision.len(),
        s.seen.len(),
        s.lbd_seen.len(),
        s.picked.len(),
        s.conflicted.len(),
        s.almost_conflicted.len(),
        s.canceled.len(),
        s.last_conflict.len(),
        s.total_actual_count.len(),
    ] {
        assert_eq!(len, 3);
    }
    assert_eq!(s.polarity, vec![false, true, true]);
    assert_eq!(s.decision, vec![true, false, true]);
    assert_eq!(s.assigns[1], LBool::Undefined);
    assert_eq!(s.vardata[2], VarData::new(None, 0));
    assert_eq!(s.seen[0], '\0');
    assert_eq!(s.stats.dec_vars, 2);
}

#[test]
fn set_decision_var_keeps_count() {
    let mut s = Solver::new();
    for _ in 0..4 {
        s.new_var(false, false);
    }
    assert_eq!(s.stats.dec_vars, 0);
    s.set_decision_var(Var::new(1), true);
    s.set_decision_var(Var::new(1), true);
    s.set_decision_var(Var::new(3), true);
    assert_eq!(s.stats.dec_vars, 2);
    s.set_decision_var(Var::new(1), false);
    s.set_decision_var(Var::new(0), false);
    assert_eq!(s.stats.dec_vars, 1);
    let count = s.decision.iter().filter(|d| **d).count() as u64;
    assert_eq!(s.stats.dec_vars, count);
}

#[test]
fn tautology_is_accepted() {
    let mut s = Solver::new();
    for _ in 0..3 {
        s.new_var(false, true);
    }
    assert!(s.add_clause(vec![lit(1, false), lit(1, true)]));
    assert!(s.ok);
    assert!(s.add_clause(vec![lit(1, false), lit(2, false), lit(1, true)]));
    assert!(s.ok);
}

#[test]
fn empty_clause_makes_solver_inconsistent() {
    let mut s = Solver::new();
    s.new_var(false, true);
    assert!(!s.add_clause(vec![]));
    assert!(!s.ok);
    assert!(!s.add_clause(vec![lit(0, true), lit(0, false)]));
    assert!(!s.ok);
}

#[test]
fn all_false_clause_makes_solver_inconsistent() {
    let mut s = Solver::new();
    for _ in 0..3 {
        s.new_var(false, true);
    }
    s.assigns[1] = LBool::False;
    s.assigns[2] = LBool::True;
    assert!(!s.add_clause(vec![lit(1, false), lit(2, true)]));
    assert!(!s.ok);
}

#[test]
fn true_literal_satisfies_clause() {
    let mut s = Solver::new();
    for _ in 0..3 {
        s.new_var(false, true);
    }
    s.assigns[2] = LBool::False;
    assert!(s.add_clause(vec![lit(1, false), lit(2, true)]));
    assert!(s.ok);
}

#[test]
fn false_and_duplicate_literals_are_dropped() {
    let mut s = Solver::new();
    for _ in 0..3 {
        s.new_var(false, true);
    }
    s.assigns[2] = LBool::False;
    // What stays is one literal: the unit case leaves the solver as it was.
    assert!(s.add_clause(vec![lit(1, false), lit(1, false), lit(2, false)]));
    assert!(s.ok);
}

#[test]
fn default_literal_first_is_dropped() {
    let mut s = Solver::new();
    s.new_var(false, true);
    // The scan starts from the default literal, so a lone positive literal of
    // variable 0 counts as a duplicate and nothing is kept.
    assert!(!s.add_clause(vec![lit(0, false)]));
    assert!(!s.ok);
}

#[test]
fn lit_value_and_satisfied() {
    let mut s = Solver::new();
    for _ in 0..2 {
        s.new_var(false, true);
    }
    s.assigns[0] = LBool::True;
    assert_eq!(s.lit_value(&lit(0, true)), LBool::True);
    assert_eq!(s.lit_value(&lit(0, false)), LBool::False);
    assert_eq!(s.lit_value(&lit(1, false)), LBool::Undefined);
    let c = Clause::new(vec![lit(1, false), lit(0, true)], false);
    assert!(s.satisfied(&c));
    let d = Clause::new(vec![lit(1, false), lit(0, false)], false);
    assert!(!s.satisfied(&d));
    assert!(!s.satisfied(&Clause::undef()));
}

#[test]
fn clause_access() {
    let c = Clause::new(vec![lit(0, false), lit(3, true), lit(1, false)], true);
    assert_eq!(c.len(), 3);
    assert!(c.learnt());
    assert_eq!(c[1].value, 7);
    let values: Vec<i32> = c.iter().map(|l| l.value).collect();
    assert_eq!(values, vec![0, 7, 2]);
    let mut again: Vec<i32> = vec![];
    for l in &c {
        again.push(l.value);
    }
    assert_eq!(again, values);
    let u = Clause::undef();
    assert_eq!(u.len(), 0);
    assert!(!u.learnt());
    assert_eq!(u.iter().count(), 0);
}

#[test]
fn exactly_one_heuristic() {
    assert_eq!(ensure_one_bh_enabled(true, false, false), Ok(BranchingHeuristic::Chb));
    assert_eq!(ensure_one_bh_enabled(false, true, false), Ok(BranchingHeuristic::Lrb));
    assert_eq!(ensure_one_bh_enabled(false, false, true), Ok(BranchingHeuristic::Vsids));
    assert_eq!(ensure_one_bh_enabled(false, false, false), Err(HeuristicError::NoneEnabled));
    assert_eq!(ensure_one_bh_enabled(true, true, false), Err(HeuristicError::SeveralEnabled));
    assert_eq!(ensure_one_bh_enabled(true, false, true), Err(HeuristicError::SeveralEnabled));
    assert_eq!(ensure_one_bh_enabled(true, true, true), Err(HeuristicError::SeveralEnabled));
}
