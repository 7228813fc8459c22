use vstd::prelude::*;

use crate::lit::Lit;

verus! {

/// An ordered list of literals with its bookkeeping flags.
pub struct Clause {
    pub mark: u32,
    pub learnt: u32,
    pub has_extra: u32,
    pub reloced: u32,
    pub size: u32,
    pub data: Vec<Lit>,
}

impl View for Clause {
    type V = Seq<Lit>;

    open spec fn view(&self) -> Seq<Lit> {
        self.data@
    }
}

impl Clause {
    /// The cached size equals the number of literals.
    pub open spec fn wf(&self) -> bool {
        self.size == self.data@.len()
    }

    pub open spec fn spec_learnt(&self) -> bool {
        self.learnt != 0
    }

    pub open spec fn is_undef(&self) -> bool {
        &&& self.data@.len() == 0
        &&& self.mark == 0
        &&& self.learnt == 0
        &&& self.has_extra == 0
        &&& self.reloced == 0
        &&& self.size == 0
    }

    /// A clause with the given literals, in that order, and all flags clear
    /// but `learnt`.
    pub fn new(lits: Vec<Lit>, learnt: bool) -> (r: Clause)
        requires
            lits@.len() <= u32::MAX,
        ensures
            r@ == lits@,
            r.wf(),
            r.spec_learnt() == learnt,
    {
        let size = lits.len() as u32;
        Clause { mark: 0, learnt: if learnt { 1 } else { 0 }, has_extra: 0, reloced: 0, size, data: lits }
    }

    /// The "no clause" value: no literals and every field zero. It stands for
    /// the reason of a variable that was not propagated.
    pub fn undef() -> (r: Clause)
        ensures
            r.is_undef(),
            r.wf(),
    {
        Clause { mark: 0, learnt: 0, has_extra: 0, reloced: 0, size: 0, data: Vec::new() }
    }

    pub fn len(&self) -> (r: usize)
        ensures
            r == self@.len(),
    {
        self.data.len()
    }

    pub fn learnt(&self) -> (r: bool)
        ensures
            r == self.spec_learnt(),
    {
        self.learnt != 0
    }

    /// The literals in stored order.
    pub fn iter(&self) -> (r: std::slice::Iter<'_, Lit>)
        ensures
            vstd::std_specs::slice::into_iter_elts(r) == self@,
    {
        let it = self.data.as_slice().iter();
        proof {
            broadcast use vstd::std_specs::slice::axiom_spec_slice_iter;

            assert(self.data@.as_ref().unref() =~= self.data@);
        }
        it
    }
}

impl core::ops::Index<usize> for Clause {
    type Output = Lit;

    /// The literal at position `index`.
    fn index(&self, index: usize) -> (r: &Lit)
        ensures
            *r == self@[index as int],
    {
        &self.data[index]
    }
}

impl vstd::std_specs::core::IndexSpecImpl<usize> for Clause {
    open spec fn index_req(&self, index: &usize) -> bool {
        *index < self@.len()
    }
}

impl<'a> IntoIterator for &'a Clause {
    type Item = &'a Lit;
    type IntoIter = std::slice::Iter<'a, Lit>;

    /// The literals in stored order.
    fn into_iter(self) -> (r: std::slice::Iter<'a, Lit>)
        ensures
            vstd::std_specs::slice::into_iter_elts(r) == self@,
    {
        self.iter()
    }
}

} // verus!
