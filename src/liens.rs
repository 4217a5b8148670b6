use vstd::prelude::*;
use crate::env::Env;
use crate::grammar::{
    place_prefix, places_view, FieldId, Parameter, Projection, ParameterPredicate, Perm, Place, PlaceV, Predicate, Ty,
    Variable,
};

verus! {

/// A primitive ownership fact extracted from a permission.
#[derive(Debug)]
pub enum Lien {
    /// Owned and shared.
    Our,
    /// Shared from one of the places.
    Shared(Vec<Place>),
    /// Leased from one of the places.
    Leased(Vec<Place>),
    /// A permission variable.
    Var(Variable),
}

/// The mathematical value of a lien.
pub enum LienV {
    Our,
    Shared(Seq<PlaceV>),
    Leased(Seq<PlaceV>),
    Var(Variable),
}

impl View for Lien {
    type V = LienV;

    open spec fn view(&self) -> LienV {
        match self {
            Lien::Our => LienV::Our,
            Lien::Shared(ps) => LienV::Shared(places_view(ps@)),
            Lien::Leased(ps) => LienV::Leased(places_view(ps@)),
            Lien::Var(v) => LienV::Var(*v),
        }
    }
}

/// The views of a sequence of liens.
pub open spec fn liens_view(s: Seq<Lien>) -> Seq<LienV> {
    s.map_values(|l: Lien| l@)
}

/// An ordered sequence of liens: one path through a permission's
/// structure. `my` is the empty chain.
#[derive(Debug)]
pub struct LienChain {
    pub liens: Vec<Lien>,
}

impl View for LienChain {
    type V = Seq<LienV>;

    open spec fn view(&self) -> Seq<LienV> {
        liens_view(self.liens@)
    }
}

/// The liens that a permission contributes, outermost first. `my` and
/// `moved[..]` contribute none: the types of the moved places are not
/// looked up, so `moved[d] T` relates as `my T` whatever `d`'s type is.
pub open spec fn perm_liens(p: Perm) -> Seq<LienV>
    decreases p,
{
    match p {
        Perm::My => seq![],
        Perm::Our => seq![LienV::Our],
        Perm::Mv(_) => seq![],
        Perm::Rf(ps) => seq![LienV::Shared(places_view(ps@))],
        Perm::Mt(ps) => seq![LienV::Leased(places_view(ps@))],
        Perm::Var(v) => seq![LienV::Var(v)],
        Perm::Apply(p1, p2) => perm_liens(*p1) + perm_liens(*p2),
    }
}

/// The liens of a type: those of its permission qualifiers, then the
/// variable itself when the type is a type variable.
pub open spec fn ty_liens(t: Ty) -> Seq<LienV>
    decreases t,
{
    match t {
        Ty::NamedTy(_) => seq![],
        Ty::Var(v) => seq![LienV::Var(v)],
        Ty::ApplyPerm(p, inner) => perm_liens(p) + ty_liens(*inner),
    }
}

/// `place` is covered by (has as a prefix) one of `covering`.
pub open spec fn covered_by_one(place: PlaceV, covering: Seq<PlaceV>) -> bool {
    exists|j: int| 0 <= j < covering.len() && place_prefix(#[trigger] covering[j], place)
}

/// Every place in `places` is covered by one of `covering`.
pub open spec fn all_covered(places: Seq<PlaceV>, covering: Seq<PlaceV>) -> bool {
    forall|i: int| 0 <= i < places.len() ==> covered_by_one(#[trigger] places[i], covering)
}

/// Lien `a` is covered by lien `b`: `b` makes a claim at least as broad.
pub open spec fn lien_covered(a: LienV, b: LienV) -> bool {
    match (a, b) {
        (LienV::Our, LienV::Our) => true,
        (LienV::Leased(pa), LienV::Leased(pb)) => all_covered(pa, pb),
        (LienV::Shared(pa), LienV::Shared(pb)) => all_covered(pa, pb),
        (LienV::Var(x), LienV::Var(y)) => x == y,
        _ => false,
    }
}

/// Every lien of `a` is covered by some lien of `b`, in any order.
pub open spec fn lien_set_covered(a: Seq<LienV>, b: Seq<LienV>) -> bool {
    forall|i: int| 0 <= i < a.len() ==> lien_covered_by_one(#[trigger] a[i], b)
}

/// Lien `a` is covered by some lien of `b`.
pub open spec fn lien_covered_by_one(a: LienV, b: Seq<LienV>) -> bool {
    exists|j: int| 0 <= j < b.len() && lien_covered(a, #[trigger] b[j])
}

/// `a` and `b` have the same length and each lien of `a` is covered by the
/// lien of `b` at the same position.
pub open spec fn chain_strictly_covered(a: Seq<LienV>, b: Seq<LienV>) -> bool {
    &&& a.len() == b.len()
    &&& forall|i: int| 0 <= i < a.len() ==> lien_covered(#[trigger] a[i], b[i])
}

/// After skipping leading leases of `a`, the rest is strictly covered by `b`.
pub open spec fn chain_covered(a: Seq<LienV>, b: Seq<LienV>) -> bool
    decreases a.len(),
{
    ||| chain_strictly_covered(a, b)
    ||| (a.len() > 0 && a[0] is Leased && chain_covered(a.drop_first(), b))
}

/// The lien is copyable: `our`, a share, or a variable assumed `copy`.
pub open spec fn lien_copy(env: Env, l: LienV) -> bool {
    match l {
        LienV::Our | LienV::Shared(_) => true,
        LienV::Leased(_) => false,
        LienV::Var(v) => v is UniversalVar && env.assumes(ParameterPredicate::Shared, v),
    }
}

/// The lien is owned: `our`, or a variable assumed `owned`.
pub open spec fn lien_owned(env: Env, l: LienV) -> bool {
    match l {
        LienV::Our => true,
        LienV::Shared(_) | LienV::Leased(_) => false,
        LienV::Var(v) => v is UniversalVar && env.assumes(ParameterPredicate::Owned, v),
    }
}

/// The lien is lent: a share, a lease, or a variable assumed `lent`.
pub open spec fn lien_lent(env: Env, l: LienV) -> bool {
    match l {
        LienV::Our => false,
        LienV::Shared(_) | LienV::Leased(_) => true,
        LienV::Var(v) => v is UniversalVar && env.assumes(ParameterPredicate::Lent, v),
    }
}

/// The lien is unique (moved when given): a lease, or a variable assumed
/// `move`.
pub open spec fn lien_unique(env: Env, l: LienV) -> bool {
    match l {
        LienV::Our | LienV::Shared(_) => false,
        LienV::Leased(_) => true,
        LienV::Var(v) => v is UniversalVar && env.assumes(ParameterPredicate::Unique, v),
    }
}

/// A chain is copy when its innermost (last) lien is copy; the empty chain
/// (`my`) is not.
pub open spec fn chain_copy(env: Env, c: Seq<LienV>) -> bool {
    c.len() > 0 && lien_copy(env, c.last())
}

/// A chain is unique when it is empty (`my`) or its innermost lien is unique.
pub open spec fn chain_unique(env: Env, c: Seq<LienV>) -> bool {
    c.len() == 0 || lien_unique(env, c.last())
}

/// A chain is owned when every lien in it is owned.
pub open spec fn chain_owned(env: Env, c: Seq<LienV>) -> bool {
    forall|i: int| 0 <= i < c.len() ==> lien_owned(env, #[trigger] c[i])
}

/// A chain is lent when some lien in it is lent.
pub open spec fn chain_lent(env: Env, c: Seq<LienV>) -> bool {
    exists|i: int| 0 <= i < c.len() && lien_lent(env, #[trigger] c[i])
}

/// The chain meets the parameter predicate `kind`.
pub open spec fn chain_meets(env: Env, kind: ParameterPredicate, c: Seq<LienV>) -> bool {
    match kind {
        ParameterPredicate::Shared => chain_copy(env, c),
        ParameterPredicate::Unique => chain_unique(env, c),
        ParameterPredicate::Owned => chain_owned(env, c),
        ParameterPredicate::Lent => chain_lent(env, c),
    }
}

/// The liens of a parameter.
pub open spec fn parameter_liens(p: Parameter) -> Seq<LienV> {
    match p {
        Parameter::Ty(t) => ty_liens(t),
        Parameter::Perm(q) => perm_liens(q),
    }
}

/// A predicate is provable: a parameter predicate that the parameter's
/// liens meet. Class and variance predicates are not proved here.
pub open spec fn predicate_holds(env: Env, p: Predicate) -> bool {
    match p {
        Predicate::Parameter(kind, param) => chain_meets(env, kind, parameter_liens(param)),
        _ => false,
    }
}

/// The representation of a value reached through a chain.
#[derive(Clone, Copy, Debug, PartialEq, Eq, Structural)]
pub enum Layout {
    /// The object itself (owned, or a shared copy).
    Value,
    /// A pointer to a leased object.
    Leased,
    /// Decided by a variable that is not known to be copy.
    Var(Variable),
}

/// The layout of a chain, decided by its innermost lien.
pub open spec fn chain_layout(env: Env, c: Seq<LienV>) -> Layout {
    if c.len() == 0 {
        Layout::Value
    } else {
        match c.last() {
            LienV::Our | LienV::Shared(_) => Layout::Value,
            LienV::Leased(_) => Layout::Leased,
            LienV::Var(v) => if lien_copy(env, c.last()) {
                Layout::Value
            } else {
                Layout::Var(v)
            },
        }
    }
}

/// Every lien covers itself.
pub proof fn lemma_lien_covered_reflexive(l: LienV)
    ensures
        lien_covered(l, l),
{
    match l {
        LienV::Shared(ps) | LienV::Leased(ps) => {
            assert forall|i: int| 0 <= i < ps.len() implies covered_by_one(#[trigger] ps[i], ps) by {
                assert(place_prefix(ps[i], ps[i]));
            }
        },
        _ => {},
    }
}

/// Covering is not symmetric: a lease of `p.f` is covered by a lease of
/// `p`, but a lease of `p` is not covered by a lease of `p.f`.
pub proof fn lemma_covering_not_symmetric(p: PlaceV, f: FieldId)
    ensures
        lien_covered(
            LienV::Leased(seq![(p.0, p.1.push(Projection::Field(f)))]),
            LienV::Leased(seq![p]),
        ),
        !lien_covered(
            LienV::Leased(seq![p]),
            LienV::Leased(seq![(p.0, p.1.push(Projection::Field(f)))]),
        ),
{
    let pf: PlaceV = (p.0, p.1.push(Projection::Field(f)));
    assert(place_prefix(seq![p][0], pf));
    assert(covered_by_one(seq![pf][0], seq![p]));
    assert(!place_prefix(seq![pf][0], p));
}

// ---------------------------------------------------------------------------
// Executable counterparts

/// A copy of the places, with the same views.
pub fn copy_places(v: &Vec<Place>) -> (r: Vec<Place>)
    ensures
        places_view(r@) == places_view(v@),
{
    let mut r: Vec<Place> = Vec::new();
    let mut i: usize = 0;
    while i < v.len()
        invariant
            0 <= i <= v@.len(),
            r@.len() == i,
            forall|k: int| 0 <= k < i ==> (#[trigger] r@[k])@ == v@[k]@,
        decreases v.len() - i,
    {
        let p = v[i].clone();
        r.push(p);
        i += 1;
    }
    assert(places_view(r@) =~= places_view(v@));
    r
}

impl Clone for Lien {
    fn clone(&self) -> (r: Lien)
        ensures
            r@ == self@,
    {
        match self {
            Lien::Our => Lien::Our,
            Lien::Shared(ps) => Lien::Shared(copy_places(ps)),
            Lien::Leased(ps) => Lien::Leased(copy_places(ps)),
            Lien::Var(v) => Lien::Var(*v),
        }
    }
}

impl LienChain {
    /// The empty chain, standing for `my`.
    pub fn my() -> (r: LienChain)
        ensures
            r@ == Seq::<LienV>::empty(),
    {
        LienChain { liens: Vec::new() }
    }

    /// A copy of this chain, with the same view.
    pub fn copy_chain(&self) -> (r: LienChain)
        ensures
            r@ == self@,
    {
        let mut liens: Vec<Lien> = Vec::new();
        let mut i: usize = 0;
        while i < self.liens.len()
            invariant
                0 <= i <= self.liens@.len(),
                liens@.len() == i,
                forall|k: int| 0 <= k < i ==> (#[trigger] liens@[k])@ == self.liens@[k]@,
            decreases self.liens.len() - i,
        {
            let l = self.liens[i].clone();
            liens.push(l);
            i += 1;
        }
        assert(liens_view(liens@) =~= liens_view(self.liens@));
        LienChain { liens }
    }

    /// Appends the liens of `perm` to this chain.
    pub fn push_perm(&mut self, perm: &Perm)
        ensures
            final(self)@ == old(self)@ + perm_liens(*perm),
        decreases perm,
    {
        match perm {
            Perm::My | Perm::Mv(_) => {
                assert(old(self)@ + perm_liens(*perm) =~= old(self)@);
            },
            Perm::Our => {
                self.liens.push(Lien::Our);
                assert(self@ =~= old(self)@ + perm_liens(*perm));
            },
            Perm::Rf(ps) => {
                self.liens.push(Lien::Shared(copy_places(ps)));
                assert(self@ =~= old(self)@ + perm_liens(*perm));
            },
            Perm::Mt(ps) => {
                self.liens.push(Lien::Leased(copy_places(ps)));
                assert(self@ =~= old(self)@ + perm_liens(*perm));
            },
            Perm::Var(v) => {
                self.liens.push(Lien::Var(*v));
                assert(self@ =~= old(self)@ + perm_liens(*perm));
            },
            Perm::Apply(p1, p2) => {
                self.push_perm(p1);
                self.push_perm(p2);
                assert(self@ =~= old(self)@ + perm_liens(*perm));
            },
        }
    }
}

impl LienChain {
    /// Appends the liens of `ty` to this chain.
    pub fn push_ty(&mut self, ty: &Ty)
        ensures
            final(self)@ == old(self)@ + ty_liens(*ty),
        decreases ty,
    {
        match ty {
            Ty::NamedTy(_) => {
                assert(old(self)@ + ty_liens(*ty) =~= old(self)@);
            },
            Ty::Var(v) => {
                self.liens.push(Lien::Var(*v));
                assert(self@ =~= old(self)@ + ty_liens(*ty));
            },
            Ty::ApplyPerm(p, inner) => {
                self.push_perm(p);
                self.push_ty(inner);
                assert(self@ =~= old(self)@ + ty_liens(*ty));
            },
        }
    }
}

/// True if the lien is copy.
pub fn lien_is_copy(env: &Env, lien: &Lien) -> (r: bool)
    ensures
        r == lien_copy(*env, lien@),
{
    match lien {
        Lien::Our | Lien::Shared(_) => true,
        Lien::Leased(_) => false,
        Lien::Var(v) => {
            match v {
                Variable::UniversalVar(..) => env.contains_assumption(ParameterPredicate::Shared, *v),
                _ => false,
            }
        },
    }
}

/// True if the lien is unique.
pub fn lien_is_unique(env: &Env, lien: &Lien) -> (r: bool)
    ensures
        r == lien_unique(*env, lien@),
{
    match lien {
        Lien::Our | Lien::Shared(_) => false,
        Lien::Leased(_) => true,
        Lien::Var(v) => {
            match v {
                Variable::UniversalVar(..) => env.contains_assumption(ParameterPredicate::Unique, *v),
                _ => false,
            }
        },
    }
}

/// True if the lien is owned.
pub fn lien_is_owned(env: &Env, lien: &Lien) -> (r: bool)
    ensures
        r == lien_owned(*env, lien@),
{
    match lien {
        Lien::Our => true,
        Lien::Shared(_) | Lien::Leased(_) => false,
        Lien::Var(v) => {
            match v {
                Variable::UniversalVar(..) => env.contains_assumption(ParameterPredicate::Owned, *v),
                _ => false,
            }
        },
    }
}

/// True if the lien is lent.
pub fn lien_is_lent(env: &Env, lien: &Lien) -> (r: bool)
    ensures
        r == lien_lent(*env, lien@),
{
    match lien {
        Lien::Our => false,
        Lien::Shared(_) | Lien::Leased(_) => true,
        Lien::Var(v) => {
            match v {
                Variable::UniversalVar(..) => env.contains_assumption(ParameterPredicate::Lent, *v),
                _ => false,
            }
        },
    }
}

impl LienChain {
    /// True if the chain meets the parameter predicate `kind`.
    pub fn meets(&self, env: &Env, kind: ParameterPredicate) -> (r: bool)
        ensures
            r == chain_meets(*env, kind, self@),
    {
        let n = self.liens.len();
        match kind {
            ParameterPredicate::Shared => n > 0 && lien_is_copy(env, &self.liens[n - 1]),
            ParameterPredicate::Unique => n == 0 || lien_is_unique(env, &self.liens[n - 1]),
            ParameterPredicate::Owned => self.all_owned(env),
            ParameterPredicate::Lent => self.any_lent(env),
        }
    }

    /// True if every lien of the chain is owned.
    fn all_owned(&self, env: &Env) -> (r: bool)
        ensures
            r == chain_owned(*env, self@),
    {
        let mut i: usize = 0;
        while i < self.liens.len()
            invariant
                0 <= i <= self.liens@.len(),
                forall|k: int| 0 <= k < i ==> lien_owned(*env, #[trigger] self@[k]),
            decreases self.liens.len() - i,
        {
            if !lien_is_owned(env, &self.liens[i]) {
                assert(self@[i as int] == self.liens@[i as int]@);
                return false;
            }
            i += 1;
        }
        true
    }

    /// True if some lien of the chain is lent.
    fn any_lent(&self, env: &Env) -> (r: bool)
        ensures
            r == chain_lent(*env, self@),
    {
        let mut i: usize = 0;
        while i < self.liens.len()
            invariant
                0 <= i <= self.liens@.len(),
                forall|k: int| 0 <= k < i ==> !lien_lent(*env, #[trigger] self@[k]),
            decreases self.liens.len() - i,
        {
            if lien_is_lent(env, &self.liens[i]) {
                assert(self@[i as int] == self.liens@[i as int]@);
                return true;
            }
            i += 1;
        }
        false
    }

    /// The layout of a value reached through this chain.
    pub fn layout(&self, env: &Env) -> (r: Layout)
        ensures
            r == chain_layout(*env, self@),
    {
        let n = self.liens.len();
        if n == 0 {
            Layout::Value
        } else {
            let last = &self.liens[n - 1];
            match last {
                Lien::Our | Lien::Shared(_) => Layout::Value,
                Lien::Leased(_) => Layout::Leased,
                Lien::Var(v) => if lien_is_copy(env, last) {
                    Layout::Value
                } else {
                    Layout::Var(*v)
                },
            }
        }
    }
}

/// The lien chain of a parameter.
pub fn parameter_chain(p: &Parameter) -> (r: LienChain)
    ensures
        r@ == parameter_liens(*p),
{
    let mut c = LienChain::my();
    match p {
        Parameter::Ty(t) => c.push_ty(t),
        Parameter::Perm(q) => c.push_perm(q),
    }
    assert(c@ =~= parameter_liens(*p));
    c
}

/// Proves a predicate: a parameter predicate is decided on the parameter's
/// lien chain, from its liens and the assumptions on its variables. Other
/// predicates are not provable here.
pub fn prove_predicate(env: &Env, predicate: &Predicate) -> (r: bool)
    ensures
        r == predicate_holds(*env, *predicate),
{
    match predicate {
        Predicate::Parameter(kind, param) => {
            let c = parameter_chain(param);
            c.meets(env, *kind)
        },
        _ => false,
    }
}

/// True if `perm` is owned: it holds no lent lien.
pub fn is_owned(env: &Env, perm: &Perm) -> (r: bool)
    ensures
        r == chain_owned(*env, perm_liens(*perm)),
{
    let c = lien_chains(&LienChain::my(), perm);
    assert(c@ =~= perm_liens(*perm));
    c.meets(env, ParameterPredicate::Owned)
}

/// True if `perm` is lent: it holds a share, a lease, or a variable
/// assumed lent.
pub fn is_lent(env: &Env, perm: &Perm) -> (r: bool)
    ensures
        r == chain_lent(*env, perm_liens(*perm)),
{
    let c = lien_chains(&LienChain::my(), perm);
    assert(c@ =~= perm_liens(*perm));
    c.meets(env, ParameterPredicate::Lent)
}

/// True if `perm` is copy: its innermost lien is copy.
pub fn is_copy(env: &Env, perm: &Perm) -> (r: bool)
    ensures
        r == chain_copy(*env, perm_liens(*perm)),
{
    let c = lien_chains(&LienChain::my(), perm);
    assert(c@ =~= perm_liens(*perm));
    c.meets(env, ParameterPredicate::Shared)
}

/// True if `perm` is unique (moved when given): it is `my`, or its
/// innermost lien is unique.
pub fn is_unique(env: &Env, perm: &Perm) -> (r: bool)
    ensures
        r == chain_unique(*env, perm_liens(*perm)),
{
    let c = lien_chains(&LienChain::my(), perm);
    assert(c@ =~= perm_liens(*perm));
    c.meets(env, ParameterPredicate::Unique)
}

/// The lien chain of `perm` in the context of the chain `cx`.
pub fn lien_chains(cx: &LienChain, perm: &Perm) -> (r: LienChain)
    ensures
        r@ == cx@ + perm_liens(*perm),
{
    let mut r = cx.copy_chain();
    r.push_perm(perm);
    r
}

} // verus!
