use vstd::prelude::*;

verus! {

/// The rule by which the solver picks the next branching variable.
#[derive(Clone, Copy, Debug, PartialEq, Eq, Structural)]
pub enum BranchingHeuristic {
    Chb,
    Lrb,
    Vsids,
}

/// Why a selection of branching heuristics was refused.
#[derive(Clone, Copy, Debug, PartialEq, Eq, Structural)]
pub enum HeuristicError {
    NoneEnabled,
    SeveralEnabled,
}

pub open spec fn enabled_count(chb: bool, lrb: bool, vsids: bool) -> int {
    (if chb { 1int } else { 0int }) + (if lrb { 1int } else { 0int }) + (if vsids { 1int } else { 0int })
}

/// Checks that exactly one branching heuristic is enabled, and returns it.
pub fn ensure_one_bh_enabled(chb: bool, lrb: bool, vsids: bool) -> (r: Result<BranchingHeuristic, HeuristicError>)
    ensures
        enabled_count(chb, lrb, vsids) == 0 <==> r == Err::<BranchingHeuristic, HeuristicError>(HeuristicError::NoneEnabled),
        enabled_count(chb, lrb, vsids) > 1 <==> r == Err::<BranchingHeuristic, HeuristicError>(HeuristicError::SeveralEnabled),
        r == Ok::<BranchingHeuristic, HeuristicError>(BranchingHeuristic::Chb) <==> chb && !lrb && !vsids,
        r == Ok::<BranchingHeuristic, HeuristicError>(BranchingHeuristic::Lrb) <==> !chb && lrb && !vsids,
        r == Ok::<BranchingHeuristic, HeuristicError>(BranchingHeuristic::Vsids) <==> !chb && !lrb && vsids,
{
    let features = [chb, lrb, vsids];
    let mut enabled: usize = 0;
    let mut i: usize = 0;
    while i < 3
        invariant
            i <= 3,
            features@ == seq![chb, lrb, vsids],
            enabled == enabled_count(
                chb && i > 0,
                lrb && i > 1,
                vsids && i > 2,
            ),
        decreases 3 - i,
    {
        if features[i] {
            enabled = enabled + 1;
        }
        i = i + 1;
    }
    if enabled == 0 {
        Err(HeuristicError::NoneEnabled)
    } else if enabled > 1 {
        Err(HeuristicError::SeveralEnabled)
    } else if chb {
        Ok(BranchingHeuristic::Chb)
    } else if lrb {
        Ok(BranchingHeuristic::Lrb)
    } else {
        Ok(BranchingHeuristic::Vsids)
    }
}

} // verus!
