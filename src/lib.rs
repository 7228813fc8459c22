use vstd::prelude::*;

pub mod lbool;
pub mod var;
pub mod lit;
pub mod clause;
pub mod var_data;
pub mod solver;
pub mod heuristic;
pub mod text;
pub mod dimacs;

verus! {

} // verus!
