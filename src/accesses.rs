use vstd::prelude::*;
use crate::env::{Env, Flow};
use crate::grammar::{place_overlapping, places_view, Access, Parameter, Perm, Place, PlaceV, Ty, Var, Variable};

verus! {

broadcast use vstd::std_specs::vec::group_vec_axioms;

/// `place` overlaps none of `places`.
pub open spec fn disjoint_from_all(place: PlaceV, places: Seq<PlaceV>) -> bool {
    forall|i: int| 0 <= i < places.len() ==> !place_overlapping(#[trigger] places[i], place)
}

/// A value held with permission `perm` permits `access` to `place`:
/// - `my` and `our` borrow nothing and permit every access;
/// - a borrow (`ref`, `mut`, `moved`) permits any access to places disjoint
///   from all of its places, and a `ref` also permits a `share` access;
/// - a universal variable permits every access. This is a known soundness
///   gap: the variable may stand for a borrow of the accessed place, and
///   the access should be allowed only when the place is not among the
///   places visible to the variable;
/// - `p q` permits what both `p` and `q` permit.
pub open spec fn perm_permits(perm: Perm, access: Access, place: PlaceV) -> bool
    decreases perm,
{
    match perm {
        Perm::My | Perm::Our => true,
        Perm::Rf(ps) => disjoint_from_all(place, places_view(ps@)) || access is Sh,
        Perm::Mt(ps) => disjoint_from_all(place, places_view(ps@)),
        Perm::Mv(ps) => disjoint_from_all(place, places_view(ps@)),
        Perm::Var(v) => v is UniversalVar,
        Perm::Apply(p, q) => perm_permits(*p, access, place) && perm_permits(*q, access, place),
    }
}

/// A value of type `ty` permits `access` to `place`: every permission in it,
/// including those in generic arguments, permits it. A universal type
/// variable permits every access; as for permission variables, this is a
/// known soundness gap (see `perm_permits`).
pub open spec fn ty_permits(ty: Ty, access: Access, place: PlaceV) -> bool
    decreases ty, 0int,
{
    match ty {
        Ty::NamedTy(n) => params_permit(n.parameters@, access, place, 0),
        Ty::Var(v) => v is UniversalVar,
        Ty::ApplyPerm(p, inner) => perm_permits(p, access, place) && ty_permits(*inner, access, place),
    }
}

/// Each parameter from index `i` on permits `access` to `place`.
pub open spec fn params_permit(ps: Seq<Parameter>, access: Access, place: PlaceV, i: int) -> bool
    decreases ps, ps.len() - i,
{
    if i < 0 || i >= ps.len() {
        true
    } else {
        param_permits(ps[i], access, place) && params_permit(ps, access, place, i + 1)
    }
}

/// A parameter permits `access` to `place`.
pub open spec fn param_permits(p: Parameter, access: Access, place: PlaceV) -> bool
    decreases p, 0int,
{
    match p {
        Parameter::Ty(t) => ty_permits(t, access, place),
        Parameter::Perm(q) => perm_permits(q, access, place),
    }
}

/// The place made of the variable alone.
pub open spec fn var_place(v: Var) -> PlaceV {
    (v, Seq::empty())
}

/// The local variable `decl` permits `access` to `place`: it was moved
/// out, or its type permits the access.
pub open spec fn variable_permits(flow: Flow, decl: (Var, Ty), access: Access, place: PlaceV) -> bool {
    flow.moved_spec(var_place(decl.0)) || ty_permits(decl.1, access, place)
}

/// Every local variable of `env` permits `access` to `place`.
pub open spec fn env_permits(env: Env, flow: Flow, access: Access, place: PlaceV) -> bool {
    forall|i: int|
        0 <= i < env.local_variables@.len() ==> variable_permits(
            flow,
            #[trigger] env.local_variables@[i],
            access,
            place,
        )
}

/// `place` is not moved out and the environment permits `access` to it.
pub open spec fn access_permitted_spec(env: Env, flow: Flow, access: Access, place: PlaceV) -> bool {
    !flow.moved_spec(place) && env_permits(env, flow, access, place)
}

/// Accessing a place is permitted by any borrow of places that are all
/// disjoint from it, whatever the kind of access.
pub proof fn lemma_disjoint_access_permitted(places: Vec<Place>, access: Access, place: PlaceV)
    requires
        disjoint_from_all(place, places_view(places@)),
    ensures
        perm_permits(Perm::Rf(places), access, place),
        perm_permits(Perm::Mt(places), access, place),
        perm_permits(Perm::Mv(places), access, place),
{
}

/// Accessing a place that is moved out, or whose prefix is, is never
/// permitted, whatever the types of the variables say.
pub proof fn lemma_moved_access_denied(env: Env, flow: Flow, access: Access, moved: Place, place: PlaceV)
    requires
        flow.moved@.contains(moved),
        crate::grammar::place_prefix(moved@, place),
    ensures
        !access_permitted_spec(env, flow, access, place),
{
    let i = choose|i: int| 0 <= i < flow.moved@.len() && flow.moved@[i] == moved;
    assert(crate::grammar::place_prefix(flow.moved@[i]@, place));
}

// ---------------------------------------------------------------------------
// Executable judgments

/// True if `accessed_place` is disjoint from every place in `perm_places`.
pub fn place_disjoint_from_all_of(accessed_place: &Place, perm_places: &Vec<Place>) -> (r: bool)
    ensures
        r == disjoint_from_all(accessed_place@, places_view(perm_places@)),
{
    let mut i: usize = 0;
    while i < perm_places.len()
        invariant
            0 <= i <= perm_places@.len(),
            forall|k: int|
                0 <= k < i ==> !place_overlapping(
                    #[trigger] places_view(perm_places@)[k],
                    accessed_place@,
                ),
        decreases perm_places.len() - i,
    {
        if !perm_places[i].is_disjoint_from(accessed_place) {
            assert(places_view(perm_places@)[i as int] == perm_places@[i as int]@);
            return false;
        }
        i += 1;
    }
    true
}

/// True if a value with permission `perm` permits `access` to `place`.
pub fn perm_permits_access(perm: &Perm, access: Access, place: &Place) -> (r: bool)
    ensures
        r == perm_permits(*perm, access, place@),
    decreases perm,
{
    match perm {
        Perm::My | Perm::Our => true,
        Perm::Rf(ps) => place_disjoint_from_all_of(place, ps) || access == Access::Sh,
        Perm::Mt(ps) => place_disjoint_from_all_of(place, ps),
        Perm::Mv(ps) => place_disjoint_from_all_of(place, ps),
        Perm::Var(v) => match v {
            Variable::UniversalVar(..) => true,
            _ => false,
        },
        Perm::Apply(p, q) => perm_permits_access(p, access, place) && perm_permits_access(
            q,
            access,
            place,
        ),
    }
}

/// True if a value of type `ty` permits `access` to `place`.
pub fn ty_permits_access(ty: &Ty, access: Access, place: &Place) -> (r: bool)
    ensures
        r == ty_permits(*ty, access, place@),
    decreases ty, 0int,
{
    match ty {
        Ty::NamedTy(n) => parameters_permit_access(&n.parameters, access, place, 0),
        Ty::Var(v) => match v {
            Variable::UniversalVar(..) => true,
            _ => false,
        },
        Ty::ApplyPerm(p, inner) => perm_permits_access(p, access, place) && ty_permits_access(
            inner,
            access,
            place,
        ),
    }
}

/// True if each parameter from index `i` on permits `access` to `place`.
fn parameters_permit_access(ps: &Vec<Parameter>, access: Access, place: &Place, i: usize) -> (r: bool)
    ensures
        r == params_permit(ps@, access, place@, i as int),
    decreases ps@, ps@.len() - i,
{
    if i >= ps.len() {
        true
    } else {
        parameter_permits_access(&ps[i], access, place) && parameters_permit_access(
            ps,
            access,
            place,
            i + 1,
        )
    }
}

/// True if the parameter permits `access` to `place`.
fn parameter_permits_access(p: &Parameter, access: Access, place: &Place) -> (r: bool)
    ensures
        r == param_permits(*p, access, place@),
    decreases p, 0int,
{
    match p {
        Parameter::Ty(t) => ty_permits_access(t, access, place),
        Parameter::Perm(q) => perm_permits_access(q, access, place),
    }
}

/// True if every local variable that is not moved out permits `access` to
/// `place`.
fn variables_permit_access(env: &Env, flow: &Flow, access: Access, place: &Place) -> (r: bool)
    ensures
        r == env_permits(*env, *flow, access, place@),
{
    let vars = env.local_variables();
    let mut i: usize = 0;
    while i < vars.len()
        invariant
            0 <= i <= vars@.len(),
            vars@ == env.local_variables@,
            forall|k: int|
                0 <= k < i ==> variable_permits(*flow, #[trigger] vars@[k], access, place@),
        decreases vars.len() - i,
    {
        let decl = &vars[i];
        let var_as_place = Place::from_var(decl.0);
        if !flow.is_moved(&var_as_place) {
            if !ty_permits_access(&decl.1, access, place) {
                return false;
            }
        }
        i += 1;
    }
    true
}

/// True if accessing `place` in the fashion given by `access` is permitted
/// by the local variables of the environment. Does not check that `place`
/// is initialized: assignments use this judgment too.
pub fn env_permits_access(env: &Env, flow: &Flow, access: Access, place: &Place) -> (r: bool)
    ensures
        r == env_permits(*env, *flow, access, place@),
{
    variables_permit_access(env, flow, access, place)
}

/// True if `place` is initialized (neither it nor a prefix of it was moved
/// out) and accessing it in the fashion given by `access` is permitted by
/// the local variables of the environment.
pub fn access_permitted(env: &Env, flow: &Flow, access: Access, place: &Place) -> (r: bool)
    ensures
        r == access_permitted_spec(*env, *flow, access, place@),
{
    !flow.is_moved(place) && env_permits_access(env, flow, access, place)
}

} // verus!
