use vstd::prelude::*;

verus! {

/// Lifted boolean: a truth value that may also be undefined.
#[derive(Clone, Copy, Debug, PartialEq, Eq, Structural)]
pub enum LBool {
    True,
    False,
    Undefined,
}

/// The integer code of a lifted boolean: `True` is 0, `False` is 1 and
/// `Undefined` is 2.
pub open spec fn lbool_code(b: LBool) -> i32 {
    match b {
        LBool::True => 0,
        LBool::False => 1,
        LBool::Undefined => 2,
    }
}

/// The lifted boolean of an integer code: 0 is `True`, 1 is `False`, any
/// other code is `Undefined`.
pub open spec fn lbool_of_code(c: i32) -> LBool {
    if c == 0 {
        LBool::True
    } else if c == 1 {
        LBool::False
    } else {
        LBool::Undefined
    }
}

pub open spec fn lbool_of_bool(b: bool) -> LBool {
    if b {
        LBool::True
    } else {
        LBool::False
    }
}

impl LBool {
    /// The integer code of this value (see `lbool_code`).
    pub fn code(&self) -> (r: i32)
        ensures
            r == lbool_code(*self),
    {
        match self {
            LBool::True => 0,
            LBool::False => 1,
            LBool::Undefined => 2,
        }
    }
}

impl From<bool> for LBool {
    fn from(value: bool) -> (r: LBool)
        ensures
            r == lbool_of_bool(value),
    {
        if value {
            LBool::True
        } else {
            LBool::False
        }
    }
}

impl vstd::std_specs::convert::FromSpecImpl<bool> for LBool {
    open spec fn obeys_from_spec() -> bool {
        true
    }

    open spec fn from_spec(v: bool) -> LBool {
        lbool_of_bool(v)
    }
}

impl From<i32> for LBool {
    fn from(value: i32) -> (r: LBool)
        ensures
            r == lbool_of_code(value),
    {
        if value == 0 {
            LBool::True
        } else if value == 1 {
            LBool::False
        } else {
            LBool::Undefined
        }
    }
}

impl vstd::std_specs::convert::FromSpecImpl<i32> for LBool {
    open spec fn obeys_from_spec() -> bool {
        true
    }

    open spec fn from_spec(v: i32) -> LBool {
        lbool_of_code(v)
    }
}

} // verus!
