use vstd::prelude::*;

use crate::lit::{pack, Lit, MAX_VAR_ID};
use crate::solver::{Solver, SolverView};
use crate::text::{
    copy_range, parse_i32, parse_i32_at, parse_usize, parse_usize_at, range_texts, skip_ws,
    skip_ws_at, trim, trim_copy, word_ranges, words,
};
use crate::var::Var;

verus! {

/// Why a DIMACS text was refused.
#[derive(Debug)]
pub enum DimacsError {
    /// A header line that is not four words; it holds the line, trimmed.
    UnexpectedHeader(Vec<u8>),
    /// The header's variable count is no number.
    BadVarCount,
    /// The header's clause count is no number.
    BadClauseCount,
    /// A word of a clause line is no number.
    BadLiteral,
    /// A clause names a variable beyond `MAX_VAR_ID + 1`.
    VarOutOfRange,
    /// After the whole text, the solver holds another number of variables
    /// than the header declared.
    VarCountMismatch { found: usize, declared: usize },
    /// After the whole text, another number of clause lines was read than
    /// the header declared.
    ClauseCountMismatch { found: usize, declared: usize },
}

/// `DimacsError` with its text as a sequence.
pub enum DimacsFault {
    UnexpectedHeader(Seq<u8>),
    BadVarCount,
    BadClauseCount,
    BadLiteral,
    VarOutOfRange,
    VarCountMismatch { found: usize, declared: usize },
    ClauseCountMismatch { found: usize, declared: usize },
}

impl View for DimacsError {
    type V = DimacsFault;

    open spec fn view(&self) -> DimacsFault {
        match self {
            DimacsError::UnexpectedHeader(l) => DimacsFault::UnexpectedHeader(l@),
            DimacsError::BadVarCount => DimacsFault::BadVarCount,
            DimacsError::BadClauseCount => DimacsFault::BadClauseCount,
            DimacsError::BadLiteral => DimacsFault::BadLiteral,
            DimacsError::VarOutOfRange => DimacsFault::VarOutOfRange,
            DimacsError::VarCountMismatch { found, declared } => DimacsFault::VarCountMismatch {
                found: *found,
                declared: *declared,
            },
            DimacsError::ClauseCountMismatch { found, declared } => DimacsFault::ClauseCountMismatch {
                found: *found,
                declared: *declared,
            },
        }
    }
}

pub open spec fn outcome_view(r: Result<(), DimacsError>) -> Result<(), DimacsFault> {
    match r {
        Ok(()) => Ok(()),
        Err(e) => Err(e@),
    }
}

/// What loading has gathered so far: the solver, the header's counts (0
/// before any header) and the number of clause lines read.
pub struct LoadState {
    pub solver: SolverView,
    pub declared_vars: usize,
    pub declared_clauses: usize,
    pub found: nat,
}

pub open spec fn start_state(s: SolverView) -> LoadState {
    LoadState { solver: s, declared_vars: 0, declared_clauses: 0, found: 0 }
}

/// The numbers of a clause line's words, up to the first 0; `None` where a
/// word before it is no number.
pub open spec fn clause_values(toks: Seq<Seq<u8>>) -> Option<Seq<i32>>
    decreases toks.len(),
{
    if toks.len() == 0 {
        Some(Seq::empty())
    } else {
        match parse_i32(toks[0]) {
            None => None,
            Some(n) => if n == 0 {
                Some(Seq::empty())
            } else {
                match clause_values(toks.drop_first()) {
                    None => None,
                    Some(c) => Some(seq![n] + c),
                }
            },
        }
    }
}

pub open spec fn abs_i32(n: i32) -> int {
    if n < 0 {
        -n
    } else {
        n as int
    }
}

/// A DIMACS literal names a variable whose identifier a literal can hold.
pub open spec fn dimacs_fits(n: i32) -> bool {
    abs_i32(n) <= MAX_VAR_ID + 1
}

/// The literal of DIMACS number `n`: variable `|n| - 1`, negative where `n`
/// is.
pub open spec fn dimacs_lit(n: i32) -> Lit {
    Lit { value: pack((abs_i32(n) - 1) as i32, n < 0) }
}

/// The largest variable number of a clause, 0 for an empty one.
pub open spec fn max_abs(c: Seq<i32>) -> int
    decreases c.len(),
{
    if c.len() == 0 {
        0
    } else {
        let m = max_abs(c.drop_last());
        if abs_i32(c.last()) > m {
            abs_i32(c.last())
        } else {
            m
        }
    }
}

/// The solver after creating variables until there are at least `k`.
pub open spec fn grow(s: SolverView, k: int) -> SolverView
    decreases k - s.num_vars(),
{
    if s.num_vars() >= k {
        s
    } else {
        grow(s.new_var(true, true), k)
    }
}

/// Loading one clause: its variables are created, then it is added.
pub open spec fn load_clause(st: LoadState, c: Seq<i32>) -> Result<LoadState, DimacsFault> {
    if exists|k: int| 0 <= k < c.len() && !dimacs_fits(#[trigger] c[k]) {
        Err(DimacsFault::VarOutOfRange)
    } else {
        let s = grow(st.solver, max_abs(c));
        Ok(LoadState { solver: s.add_clause(c.map_values(|n: i32| dimacs_lit(n))).1, found: st.found + 1, ..st })
    }
}

/// The text "p cnf".
pub open spec fn header_tag() -> Seq<u8> {
    seq![112u8, 32u8, 99u8, 110u8, 102u8]
}

/// Loading one line. A blank line or a comment (first byte `c` after
/// whitespace) changes nothing; a line that begins with "p cnf" after
/// whitespace is the header; any other is a clause.
pub open spec fn load_line(st: LoadState, line: Seq<u8>) -> Result<LoadState, DimacsFault> {
    let a = skip_ws(line, 0);
    if a >= line.len() || line[a] == 99 {
        Ok(st)
    } else if a + 5 <= line.len() && line.subrange(a, a + 5) == header_tag() {
        let t = words(line);
        if t.len() != 4 {
            Err(DimacsFault::UnexpectedHeader(trim(line)))
        } else {
            match parse_usize(t[2]) {
                None => Err(DimacsFault::BadVarCount),
                Some(v) => match parse_usize(t[3]) {
                    None => Err(DimacsFault::BadClauseCount),
                    Some(c) => Ok(LoadState { declared_vars: v, declared_clauses: c, ..st }),
                },
            }
        }
    } else {
        match clause_values(words(line)) {
            None => Err(DimacsFault::BadLiteral),
            Some(c) => load_clause(st, c),
        }
    }
}

/// Loading the text `s` from position `i` on, where the current line began
/// at `ls`: the state reached and the fault that stopped loading, if any.
/// Lines end at a line feed or at the end of the text.
pub open spec fn load_scan(st: LoadState, s: Seq<u8>, i: int, ls: int) -> (LoadState, Option<DimacsFault>)
    decreases s.len() - i,
{
    if i < 0 || i >= s.len() {
        match load_line(st, s.subrange(ls, s.len() as int)) {
            Err(f) => (st, Some(f)),
            Ok(st2) => (st2, None),
        }
    } else if s[i] == 10 {
        match load_line(st, s.subrange(ls, i)) {
            Err(f) => (st, Some(f)),
            Ok(st2) => load_scan(st2, s, i + 1, i + 1),
        }
    } else {
        load_scan(st, s, i + 1, ls)
    }
}

/// The checks after the whole text: the header's counts against the
/// variables created and the clause lines read.
pub open spec fn finish(st: LoadState) -> Result<(), DimacsFault> {
    if st.solver.num_vars() != st.declared_vars {
        Err(DimacsFault::VarCountMismatch { found: st.solver.num_vars() as usize, declared: st.declared_vars })
    } else if st.found != st.declared_clauses {
        Err(DimacsFault::ClauseCountMismatch { found: st.found as usize, declared: st.declared_clauses })
    } else {
        Ok(())
    }
}

/// The outcome of loading `s` into solver `sv`.
pub open spec fn load_outcome(sv: SolverView, s: Seq<u8>) -> Result<(), DimacsFault> {
    match load_scan(start_state(sv), s, 0, 0) {
        (_, Some(f)) => Err(f),
        (st, None) => finish(st),
    }
}

struct Counts {
    declared_vars: usize,
    declared_clauses: usize,
    found: usize,
}

spec fn state_of(s: SolverView, c: Counts) -> LoadState {
    LoadState { solver: s, declared_vars: c.declared_vars, declared_clauses: c.declared_clauses, found: c.found as nat }
}

spec fn prefixed(v: Seq<i32>, o: Option<Seq<i32>>) -> Option<Seq<i32>> {
    match o {
        None => None,
        Some(c) => Some(v + c),
    }
}

proof fn lemma_max_abs(c: Seq<i32>, k: int)
    requires
        0 <= k < c.len(),
    ensures
        abs_i32(c[k]) <= max_abs(c),
    decreases c.len(),
{
    if k < c.len() - 1 {
        lemma_max_abs(c.drop_last(), k);
    }
}

/// The numbers of the clause line `line`; see `clause_values`.
fn clause_numbers(line: &[u8]) -> (r: Option<Vec<i32>>)
    ensures
        match clause_values(words(line@)) {
            None => r is None,
            Some(c) => r matches Some(v) && v@ == c,
        },
        r matches Some(v) ==> forall|k: int| 0 <= k < v@.len() ==> v@[k] != 0,
{
    let rs = word_ranges(line);
    let ghost toks = words(line@);
    let mut vals: Vec<i32> = Vec::new();
    let mut k: usize = 0;
    assert(toks.subrange(0, toks.len() as int) =~= toks);
    assert(vals@ + Seq::<i32>::empty() =~= vals@);
    while k < rs.len()
        invariant
            toks == words(line@),
            toks == range_texts(line@, rs@),
            forall|j: int| 0 <= j < rs@.len() ==> (#[trigger] rs@[j]).0 <= rs@[j].1 <= line@.len(),
            k <= rs@.len(),
            clause_values(toks) == prefixed(vals@, clause_values(toks.subrange(k as int, toks.len() as int))),
            forall|j: int| 0 <= j < vals@.len() ==> vals@[j] != 0,
        decreases rs@.len() - k,
    {
        let (a, b) = rs[k];
        let ghost rest = toks.subrange(k as int, toks.len() as int);
        assert(rest[0] == line@.subrange(a as int, b as int));
        assert(rest.drop_first() =~= toks.subrange(k + 1, toks.len() as int));
        match parse_i32_at(line, a, b) {
            None => {
                return None;
            },
            Some(n) => {
                if n == 0 {
                    assert(vals@ + Seq::<i32>::empty() =~= vals@);
                    return Some(vals);
                }
                let ghost before = vals@;
                vals.push(n);
                proof {
                    match clause_values(toks.subrange(k + 1, toks.len() as int)) {
                        None => {},
                        Some(c) => {
                            assert(before + (seq![n] + c) =~= vals@ + c);
                        },
                    }
                }
            },
        }
        k = k + 1;
    }
    assert(vals@ + Seq::<i32>::empty() =~= vals@);
    Some(vals)
}

impl Solver {
    /// Creates the variables of the clause `vals` and adds it; see
    /// `load_clause`.
    fn load_clause(&mut self, vals: Vec<i32>, counts: &mut Counts) -> (r: Result<(), DimacsError>)
        requires
            old(self)@.wf(),
            old(self).trail_lim@.len() == 0,
            old(counts).found < usize::MAX,
            forall|k: int| 0 <= k < vals@.len() ==> vals@[k] != 0,
        ensures
            final(self)@.wf(),
            final(self).trail_lim@.len() == 0,
            match load_clause(state_of(old(self)@, *old(counts)), vals@) {
                Ok(st) => r is Ok && state_of(final(self)@, *final(counts)) == st,
                Err(f) => r matches Err(e) && e@ == f && final(self)@ == old(self)@
                    && *final(counts) == *old(counts),
            },
    {
        let n = vals.len();
        let mut k: usize = 0;
        while k < n
            invariant
                self@ == old(self)@,
                self@.wf(),
                self.trail_lim@.len() == 0,
                *counts == *old(counts),
                n == vals@.len(),
                k <= n,
                forall|j: int| 0 <= j < k ==> dimacs_fits(#[trigger] vals@[j]),
            decreases n - k,
        {
            let v = vals[k];
            if v < -0x4000_0000 || v > 0x4000_0000 {
                assert(!dimacs_fits(vals@[k as int]));
                return Err(DimacsError::VarOutOfRange);
            }
            k = k + 1;
        }
        let mut m: i32 = 0;
        k = 0;
        while k < n
            invariant
                self@ == old(self)@,
                self@.wf(),
                self.trail_lim@.len() == 0,
                *counts == *old(counts),
                n == vals@.len(),
                k <= n,
                forall|j: int| 0 <= j < n ==> dimacs_fits(#[trigger] vals@[j]),
                m == max_abs(vals@.subrange(0, k as int)),
                0 <= m <= MAX_VAR_ID + 1,
            decreases n - k,
        {
            let v = vals[k];
            assert(dimacs_fits(vals@[k as int]));
            let a = if v < 0 { -v } else { v };
            assert(vals@.subrange(0, k + 1).drop_last() =~= vals@.subrange(0, k as int));
            if a > m {
                m = a;
            }
            k = k + 1;
        }
        assert(vals@.subrange(0, n as int) =~= vals@);
        let ghost s1 = self@;
        while self.num_vars() < m as usize
            invariant
                *counts == *old(counts),
                self@.wf(),
                self.trail_lim@.len() == 0,
                0 <= m <= MAX_VAR_ID + 1,
                grow(self@, m as int) == grow(s1, m as int),
            decreases m - self@.num_vars(),
        {
            self.new_var(true, true);
        }
        let mut lits: Vec<Lit> = Vec::new();
        k = 0;
        while k < n
            invariant
                n == vals@.len(),
                k <= n,
                forall|j: int| 0 <= j < n ==> dimacs_fits(#[trigger] vals@[j]),
                forall|j: int| 0 <= j < n ==> #[trigger] vals@[j] != 0,
                m == max_abs(vals@),
                *counts == *old(counts),
                self@ == grow(s1, m as int),
                self.trail_lim@.len() == 0,
                self@.num_vars() >= m,
                self@.wf(),
                lits@ == vals@.subrange(0, k as int).map_values(|x: i32| dimacs_lit(x)),
                self@.all_in_range(lits@),
            decreases n - k,
        {
            let v = vals[k];
            assert(dimacs_fits(vals@[k as int]));
            assert(vals@[k as int] != 0);
            proof {
                lemma_max_abs(vals@, k as int);
            }
            let id = if v < 0 { -v - 1 } else { v - 1 };
            let l = Lit::new(Var::new(id), v < 0);
            proof {
                crate::lit::lemma_lit_round_trip(id, v < 0, l);
            }
            lits.push(l);
            assert(lits@ =~= vals@.subrange(0, k + 1).map_values(|x: i32| dimacs_lit(x)));
            k = k + 1;
        }
        assert(vals@.subrange(0, n as int) =~= vals@);
        self.add_clause(lits);
        counts.found = counts.found + 1;
        Ok(())
    }

    /// Loads the line `s[a..b]`; see `load_line`.
    fn load_line(&mut self, s: &[u8], a: usize, b: usize, counts: &mut Counts) -> (r: Result<(), DimacsError>)
        requires
            a <= b <= s@.len(),
            old(self)@.wf(),
            old(self).trail_lim@.len() == 0,
            old(counts).found <= a,
        ensures
            final(self)@.wf(),
            final(self).trail_lim@.len() == 0,
            final(counts).found <= b,
            match load_line(state_of(old(self)@, *old(counts)), s@.subrange(a as int, b as int)) {
                Ok(st) => r is Ok && state_of(final(self)@, *final(counts)) == st,
                Err(f) => r matches Err(e) && e@ == f && final(self)@ == old(self)@
                    && *final(counts) == *old(counts),
            },
    {
        let line = copy_range(s, a, b);
        let ls = line.as_slice();
        let p = skip_ws_at(ls, 0);
        proof {
            crate::text::lemma_skip_bounds(line@, 0);
        }
        if p >= ls.len() || ls[p] == 99 {
            return Ok(());
        }
        let is_header = ls.len() - p >= 5 && ls[p] == 112 && ls[p + 1] == 32 && ls[p + 2] == 99
            && ls[p + 3] == 110 && ls[p + 4] == 102;
        proof {
            let t = line@.subrange(p as int, p + 5);
            if p + 5 <= line@.len() {
                if is_header {
                    assert(t =~= header_tag());
                } else if t == header_tag() {
                    assert(t[0] == 112 && t[1] == 32 && t[2] == 99 && t[3] == 110 && t[4] == 102);
                }
            }
        }
        if is_header {
            let rs = word_ranges(ls);
            if rs.len() != 4 {
                return Err(DimacsError::UnexpectedHeader(trim_copy(ls)));
            }
            let (a2, b2) = rs[2];
            let (a3, b3) = rs[3];
            match parse_usize_at(ls, a2, b2) {
                None => Err(DimacsError::BadVarCount),
                Some(v) => match parse_usize_at(ls, a3, b3) {
                    None => Err(DimacsError::BadClauseCount),
                    Some(c) => {
                        counts.declared_vars = v;
                        counts.declared_clauses = c;
                        Ok(())
                    },
                },
            }
        } else {
            match clause_numbers(ls) {
                None => Err(DimacsError::BadLiteral),
                Some(vals) => self.load_clause(vals, counts),
            }
        }
    }

    /// Loads a DIMACS CNF text into this solver: its variables are created
    /// and its clauses added, line by line (see `load_scan`). Loading stops
    /// at the first line that cannot be read; after the whole text, the
    /// header's counts are checked (see `finish`).
    pub fn load_dimacs(&mut self, input: &[u8]) -> (r: Result<(), DimacsError>)
        requires
            old(self)@.wf(),
            old(self).trail_lim@.len() == 0,
        ensures
            final(self)@ == load_scan(start_state(old(self)@), input@, 0, 0).0.solver,
            outcome_view(r) == load_outcome(old(self)@, input@),
            final(self)@.wf(),
    {
        let mut counts = Counts { declared_vars: 0, declared_clauses: 0, found: 0 };
        let mut ls: usize = 0;
        let mut i: usize = 0;
        assert(state_of(self@, counts) == start_state(old(self)@));
        while i < input.len()
            invariant
                ls <= i <= input@.len(),
                counts.found <= ls,
                self@.wf(),
                self.trail_lim@.len() == 0,
                load_scan(start_state(old(self)@), input@, 0, 0) == load_scan(state_of(self@, counts), input@, i as int, ls as int),
            decreases input@.len() - i,
        {
            if input[i] == 10 {
                match self.load_line(input, ls, i, &mut counts) {
                    Err(e) => {
                        return Err(e);
                    },
                    Ok(()) => {},
                }
                ls = i + 1;
            }
            i = i + 1;
        }
        match self.load_line(input, ls, input.len(), &mut counts) {
            Err(e) => {
                return Err(e);
            },
            Ok(()) => {},
        }
        if self.num_vars() != counts.declared_vars {
            return Err(DimacsError::VarCountMismatch { found: self.num_vars(), declared: counts.declared_vars });
        }
        if counts.found != counts.declared_clauses {
            return Err(DimacsError::ClauseCountMismatch { found: counts.found, declared: counts.declared_clauses });
        }
        Ok(())
    }
}

} // verus!
