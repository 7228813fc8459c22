use vstd::prelude::*;

use crate::lbool::LBool;

verus! {

/// A propositional variable, named by a non-negative identifier.
#[derive(Clone, Copy, Debug)]
pub struct Var {
    pub id: i32,
}

impl Var {
    pub fn new(id: i32) -> (r: Var)
        ensures
            r.id == id,
    {
        Var { id }
    }

    pub fn into_usize(&self) -> (r: usize)
        requires
            self.id >= 0,
        ensures
            r == self.id,
    {
        self.id as usize
    }

    /// The assignment of this variable in `values`, which is indexed by
    /// variable identifier.
    pub fn value(&self, values: &Vec<LBool>) -> (r: LBool)
        requires
            0 <= self.id < values@.len(),
        ensures
            r == values@[self.id as int],
    {
        values[self.id as usize]
    }
}

impl PartialEq<i32> for Var {
    fn eq(&self, other: &i32) -> (r: bool)
        ensures
            r == (self.id == *other),
    {
        self.id == *other
    }
}

impl vstd::std_specs::cmp::PartialEqSpecImpl<i32> for Var {
    open spec fn obeys_eq_spec() -> bool {
        true
    }

    open spec fn eq_spec(&self, other: &i32) -> bool {
        self.id == *other
    }
}

pub open spec fn int_order(a: int, b: int) -> Option<core::cmp::Ordering> {
    if a < b {
        Some(core::cmp::Ordering::Less)
    } else if a > b {
        Some(core::cmp::Ordering::Greater)
    } else {
        Some(core::cmp::Ordering::Equal)
    }
}

impl PartialOrd<i32> for Var {
    fn partial_cmp(&self, other: &i32) -> (r: Option<core::cmp::Ordering>)
        ensures
            r == int_order(self.id as int, *other as int),
    {
        if self.id < *other {
            Some(core::cmp::Ordering::Less)
        } else if self.id > *other {
            Some(core::cmp::Ordering::Greater)
        } else {
            Some(core::cmp::Ordering::Equal)
        }
    }
}

impl vstd::std_specs::cmp::PartialOrdSpecImpl<i32> for Var {
    open spec fn obeys_partial_cmp_spec() -> bool {
        true
    }

    open spec fn partial_cmp_spec(&self, other: &i32) -> Option<core::cmp::Ordering> {
        int_order(self.id as int, *other as int)
    }
}

impl From<i32> for Var {
    fn from(id: i32) -> (r: Var)
        ensures
            r.id == id,
    {
        Var::new(id)
    }
}

impl vstd::std_specs::convert::FromSpecImpl<i32> for Var {
    open spec fn obeys_from_spec() -> bool {
        true
    }

    open spec fn from_spec(v: i32) -> Var {
        Var { id: v }
    }
}

impl From<usize> for Var {
    fn from(id: usize) -> (r: Var)
        ensures
            r.id == id as i32,
    {
        Var::new(id as i32)
    }
}

impl vstd::std_specs::convert::FromSpecImpl<usize> for Var {
    open spec fn obeys_from_spec() -> bool {
        true
    }

    open spec fn from_spec(v: usize) -> Var {
        Var { id: v as i32 }
    }
}

impl From<Var> for usize {
    fn from(v: Var) -> (r: usize)
        ensures
            r == v.id as usize,
    {
        v.id as usize
    }
}

impl vstd::std_specs::convert::FromSpecImpl<Var> for usize {
    open spec fn obeys_from_spec() -> bool {
        true
    }

    open spec fn from_spec(v: Var) -> usize {
        v.id as usize
    }
}

} // verus!
