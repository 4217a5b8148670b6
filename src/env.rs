use vstd::prelude::*;
use crate::grammar::{
    place_prefix, Kind, Parameter, ParameterPredicate, Perm, Place, PlaceV, Predicate, Program,
    Ty, Var, Variable,
};

verus! {

/// The typing context of a query: the program, the universe of in-scope
/// universal variables, the declared local variables and the assumed
/// predicates. It is extended, never mutated across branches of a search.
#[derive(Debug)]
pub struct Env {
    pub program: Program,
    /// The number of universal variables in scope; they are numbered from 0.
    pub universe: u64,
    /// The declared local variables with their types, in declaration order.
    pub local_variables: Vec<(Var, Ty)>,
    /// The predicates assumed from `where` clauses.
    pub assumptions: Vec<Predicate>,
    /// A counter for fresh variables.
    pub fresh: u64,
}

/// `p` is exactly the variable `v`, as a type or as a permission.
pub open spec fn param_is_var(p: Parameter, v: Variable) -> bool {
    p == Parameter::Ty(Ty::Var(v)) || p == Parameter::Perm(Perm::Var(v))
}

impl Env {
    /// `kind(v)` is among the assumptions.
    pub open spec fn assumes(&self, kind: ParameterPredicate, v: Variable) -> bool {
        exists|i: int|
            0 <= i < self.assumptions@.len() && (#[trigger] self.assumptions@[i] matches Predicate::Parameter(
                k,
                p,
            ) && k == kind && param_is_var(p, v))
    }

    /// An empty environment over `program`.
    pub fn new(program: Program) -> (r: Env)
        ensures
            r.program == program,
            r.universe == 0,
            r.local_variables@.len() == 0,
            r.assumptions@.len() == 0,
            r.fresh == 0,
    {
        Env {
            program,
            universe: 0,
            local_variables: Vec::new(),
            assumptions: Vec::new(),
            fresh: 0,
        }
    }

    /// Declares the local variable `var` with type `ty`.
    pub fn push_local_variable(&mut self, var: Var, ty: Ty)
        ensures
            final(self).local_variables@ == old(self).local_variables@.push((var, ty)),
            final(self).program == old(self).program,
            final(self).universe == old(self).universe,
            final(self).assumptions@ == old(self).assumptions@,
            final(self).fresh == old(self).fresh,
    {
        self.local_variables.push((var, ty));
    }

    /// Adds `predicate` to the assumptions.
    pub fn push_assumption(&mut self, predicate: Predicate)
        ensures
            final(self).assumptions@ == old(self).assumptions@.push(predicate),
            final(self).program == old(self).program,
            final(self).universe == old(self).universe,
            final(self).local_variables@ == old(self).local_variables@,
            final(self).fresh == old(self).fresh,
    {
        self.assumptions.push(predicate);
    }

    /// Brings a new universal variable of the given kind into scope.
    pub fn push_universal(&mut self, kind: Kind) -> (r: Variable)
        requires
            old(self).universe < u64::MAX,
        ensures
            r == Variable::UniversalVar(kind, old(self).universe),
            final(self).universe == old(self).universe + 1,
            final(self).program == old(self).program,
            final(self).local_variables@ == old(self).local_variables@,
            final(self).assumptions@ == old(self).assumptions@,
            final(self).fresh == old(self).fresh,
    {
        let v = Variable::UniversalVar(kind, self.universe);
        self.universe = self.universe + 1;
        v
    }

    /// A fresh variable, not handed out before by this environment.
    pub fn fresh_var(&mut self) -> (r: Var)
        requires
            old(self).fresh < u64::MAX,
        ensures
            r == Var::Fresh(old(self).fresh),
            final(self).fresh == old(self).fresh + 1,
            final(self).program == old(self).program,
            final(self).universe == old(self).universe,
            final(self).local_variables@ == old(self).local_variables@,
            final(self).assumptions@ == old(self).assumptions@,
    {
        let v = Var::Fresh(self.fresh);
        self.fresh = self.fresh + 1;
        v
    }

    /// True if `kind(v)` is among the assumptions.
    pub fn contains_assumption(&self, kind: ParameterPredicate, v: Variable) -> (r: bool)
        ensures
            r == self.assumes(kind, v),
    {
        let mut i: usize = 0;
        while i < self.assumptions.len()
            invariant
                0 <= i <= self.assumptions@.len(),
                forall|j: int|
                    0 <= j < i ==> !(#[trigger] self.assumptions@[j] matches Predicate::Parameter(
                        k,
                        p,
                    ) && k == kind && param_is_var(p, v)),
            decreases self.assumptions.len() - i,
        {
            match &self.assumptions[i] {
                Predicate::Parameter(k, p) => {
                    if *k == kind && p.is_var(v) {
                        return true;
                    }
                },
                _ => {},
            }
            i += 1;
        }
        false
    }

    /// The local variables, in declaration order.
    pub fn local_variables(&self) -> (r: &Vec<(Var, Ty)>)
        ensures
            r@ == self.local_variables@,
    {
        &self.local_variables
    }
}

/// The places moved out along the current control path.
#[derive(Debug)]
pub struct Flow {
    pub moved: Vec<Place>,
}

impl Flow {
    /// `place` is moved out: it, or a prefix of it, is recorded as moved.
    pub open spec fn moved_spec(&self, place: PlaceV) -> bool {
        exists|i: int| 0 <= i < self.moved@.len() && place_prefix(#[trigger] self.moved@[i]@, place)
    }

    /// A flow in which nothing has been moved.
    pub fn new() -> (r: Flow)
        ensures
            r.moved@.len() == 0,
    {
        Flow { moved: Vec::new() }
    }

    /// Records `place` as moved out.
    pub fn move_place(&mut self, place: Place)
        ensures
            final(self).moved@ == old(self).moved@.push(place),
    {
        self.moved.push(place);
    }

    /// True if `place`, or a place that is a prefix of it, was moved out.
    pub fn is_moved(&self, place: &Place) -> (r: bool)
        ensures
            r == self.moved_spec(place@),
    {
        let mut i: usize = 0;
        while i < self.moved.len()
            invariant
                0 <= i <= self.moved@.len(),
                forall|j: int| 0 <= j < i ==> !place_prefix(#[trigger] self.moved@[j]@, place@),
            decreases self.moved.len() - i,
        {
            if self.moved[i].is_prefix_of(place) {
                return true;
            }
            i += 1;
        }
        false
    }
}

} // verus!
