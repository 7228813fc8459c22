use vstd::prelude::*;

verus! {

/// What is known of how a variable got its value: the clause that forced it
/// (`None` where no clause did, the "no clause" reason) and the decision level
/// at which it was assigned.
#[derive(Clone, Copy, Debug, PartialEq, Eq, Structural)]
pub struct VarData {
    pub reason: Option<usize>,
    pub level: i32,
}

impl VarData {
    pub fn new(reason: Option<usize>, level: i32) -> (r: VarData)
        ensures
            r == (VarData { reason, level }),
    {
        VarData { reason, level }
    }
}

} // verus!
