use vstd::prelude::*;
use crate::env::Env;
use crate::grammar::{place_prefix, places_view, strip_perm_spec, Parameter, Perm, Place, Ty};
use crate::liens::{
    all_covered, chain_covered, lemma_lien_covered_reflexive, chain_layout, chain_strictly_covered, covered_by_one, lien_copy,
    lien_covered, lien_covered_by_one, lien_is_copy, lien_set_covered, perm_liens, Lien,
    LienChain, LienV,
};

verus! {

broadcast use vstd::std_specs::vec::group_vec_axioms;

/// Chain `a` is a subchain of chain `b`:
/// - `my` (the empty chain) is a subchain of anything;
/// - `our` alone is a subchain of any chain headed by a copy lien;
/// - otherwise the heads must be covered, and the tails must be covered both
///   as sets of liens and in order (leading leases of `a` may be skipped).
pub open spec fn chain_subtype(env: Env, a: Seq<LienV>, b: Seq<LienV>) -> bool {
    ||| a.len() == 0
    ||| (a.len() == 1 && a[0] is Our && b.len() > 0 && lien_copy(env, b[0]))
    ||| (a.len() > 0 && b.len() > 0 && lien_covered(a[0], b[0]) && chain_ext_subtype(
        a.drop_first(),
        b.drop_first(),
    ))
}

/// The tails after matched heads: covered as sets and in order.
pub open spec fn chain_ext_subtype(a: Seq<LienV>, b: Seq<LienV>) -> bool {
    lien_set_covered(a, b) && chain_covered(a, b)
}

/// `a <: b` for types appearing under the chains `ca` and `cb`. Permission
/// qualifiers are moved into the chains until both sides are bare types,
/// which are then related by `leaf_subtype_in_cx`.
pub open spec fn ty_subtype_in_cx(env: Env, ca: Seq<LienV>, a: Ty, cb: Seq<LienV>, b: Ty) -> bool
    decreases a, b, 1int,
{
    match a {
        Ty::ApplyPerm(p, inner_a) => ty_subtype_in_cx(env, ca + perm_liens(p), *inner_a, cb, b),
        _ => match b {
            Ty::ApplyPerm(q, inner_b) => ty_subtype_in_cx(env, ca, a, cb + perm_liens(q), *inner_b),
            _ => leaf_subtype_in_cx(env, ca, a, cb, b),
        },
    }
}

/// `a <: b` for bare types under the chains `ca` and `cb`: the same type
/// variable, or the same named type with pairwise related arguments; the
/// chains must be subchains and have the same layout.
pub open spec fn leaf_subtype_in_cx(env: Env, ca: Seq<LienV>, a: Ty, cb: Seq<LienV>, b: Ty) -> bool
    decreases a, b, 0int,
{
    &&& chain_subtype(env, ca, cb)
    &&& chain_layout(env, ca) == chain_layout(env, cb)
    &&& match (a, b) {
        (Ty::Var(x), Ty::Var(y)) => x == y,
        (Ty::NamedTy(na), Ty::NamedTy(nb)) => {
            &&& na.name == nb.name
            &&& na.parameters@.len() == nb.parameters@.len()
            &&& params_subtype(env, ca, na.parameters@, cb, nb.parameters@, 0)
        },
        _ => false,
    }
}

/// The arguments from index `i` on are pairwise related under `ca` and `cb`.
pub open spec fn params_subtype(
    env: Env,
    ca: Seq<LienV>,
    pas: Seq<Parameter>,
    cb: Seq<LienV>,
    pbs: Seq<Parameter>,
    i: int,
) -> bool
    decreases pas, pbs, pas.len() - i,
{
    if i < 0 || i >= pas.len() {
        true
    } else {
        subtype_in_cx(env, ca, pas[i], cb, pbs[i]) && params_subtype(env, ca, pas, cb, pbs, i + 1)
    }
}

/// `a <: b` for parameters appearing under the chains `ca` and `cb`: two
/// types, or two permissions whose chains are subchains.
pub open spec fn subtype_in_cx(
    env: Env,
    ca: Seq<LienV>,
    a: Parameter,
    cb: Seq<LienV>,
    b: Parameter,
) -> bool
    decreases a, b, 2int,
{
    match (a, b) {
        (Parameter::Ty(ta), Parameter::Ty(tb)) => ty_subtype_in_cx(env, ca, ta, cb, tb),
        (Parameter::Perm(pa), Parameter::Perm(pb)) => chain_subtype(
            env,
            ca + perm_liens(pa),
            cb + perm_liens(pb),
        ),
        _ => false,
    }
}

/// `a <: b` in an owned (`my`) context.
pub open spec fn is_subtype(env: Env, a: Parameter, b: Parameter) -> bool {
    subtype_in_cx(env, seq![], a, seq![], b)
}

/// The liens of a type's permission qualifiers, outermost first.
pub open spec fn ty_prefix_liens(t: Ty) -> Seq<LienV>
    decreases t,
{
    match t {
        Ty::ApplyPerm(p, inner) => perm_liens(p) + ty_prefix_liens(*inner),
        _ => seq![],
    }
}

/// Relating two types under chains is relating their bare types under the
/// chains extended by their qualifiers.
pub proof fn lemma_ty_subtype_normal_form(env: Env, ca: Seq<LienV>, a: Ty, cb: Seq<LienV>, b: Ty)
    ensures
        ty_subtype_in_cx(env, ca, a, cb, b) == leaf_subtype_in_cx(
            env,
            ca + ty_prefix_liens(a),
            strip_perm_spec(a),
            cb + ty_prefix_liens(b),
            strip_perm_spec(b),
        ),
    decreases a, b,
{
    match a {
        Ty::ApplyPerm(p, inner) => {
            lemma_ty_subtype_normal_form(env, ca + perm_liens(p), *inner, cb, b);
            assert(ca + perm_liens(p) + ty_prefix_liens(*inner) =~= ca + ty_prefix_liens(a));
        },
        _ => match b {
            Ty::ApplyPerm(q, inner) => {
                lemma_ty_subtype_normal_form(env, ca, a, cb + perm_liens(q), *inner);
                assert(cb + perm_liens(q) + ty_prefix_liens(*inner) =~= cb + ty_prefix_liens(b));
                assert(ca + ty_prefix_liens(a) =~= ca);
            },
            _ => {
                assert(ca + ty_prefix_liens(a) =~= ca);
                assert(cb + ty_prefix_liens(b) =~= cb);
            },
        },
    }
}

/// Every chain is a subchain of itself.
pub proof fn lemma_chain_subtype_reflexive(env: Env, c: Seq<LienV>)
    ensures
        chain_subtype(env, c, c),
{
    if c.len() > 0 {
        lemma_lien_covered_reflexive(c[0]);
        let t = c.drop_first();
        assert forall|i: int| 0 <= i < t.len() implies lien_covered_by_one(#[trigger] t[i], t) by {
            lemma_lien_covered_reflexive(t[i]);
        }
        assert forall|i: int| 0 <= i < t.len() implies lien_covered(#[trigger] t[i], t[i]) by {
            lemma_lien_covered_reflexive(t[i]);
        }
        assert(chain_strictly_covered(t, t));
        assert(chain_covered(t, t));
    }
}

proof fn lemma_ty_subtype_reflexive(env: Env, c: Seq<LienV>, t: Ty)
    ensures
        ty_subtype_in_cx(env, c, t, c, t),
    decreases t, 1int,
{
    lemma_ty_subtype_normal_form(env, c, t, c, t);
    match t {
        Ty::ApplyPerm(p, inner) => {
            lemma_ty_subtype_reflexive(env, c + perm_liens(p), *inner);
            lemma_ty_subtype_normal_form(
                env,
                c + perm_liens(p),
                *inner,
                c + perm_liens(p),
                *inner,
            );
            assert(c + perm_liens(p) + ty_prefix_liens(*inner) =~= c + ty_prefix_liens(t));
        },
        _ => {
            lemma_leaf_subtype_reflexive(env, c, t);
            assert(c + ty_prefix_liens(t) =~= c);
        },
    }
}

proof fn lemma_leaf_subtype_reflexive(env: Env, c: Seq<LienV>, t: Ty)
    requires
        !(t is ApplyPerm),
    ensures
        leaf_subtype_in_cx(env, c, t, c, t),
    decreases t, 0int,
{
    lemma_chain_subtype_reflexive(env, c);
    match t {
        Ty::NamedTy(n) => {
            lemma_params_subtype_reflexive(env, c, n.parameters@, 0);
        },
        _ => {},
    }
}

proof fn lemma_params_subtype_reflexive(env: Env, c: Seq<LienV>, ps: Seq<Parameter>, i: int)
    ensures
        params_subtype(env, c, ps, c, ps, i),
    decreases ps, ps.len() - i,
{
    if 0 <= i < ps.len() {
        lemma_subtype_in_cx_reflexive(env, c, ps[i]);
        lemma_params_subtype_reflexive(env, c, ps, i + 1);
    }
}

/// Every parameter is a subtype of itself under any chain.
pub proof fn lemma_subtype_in_cx_reflexive(env: Env, c: Seq<LienV>, a: Parameter)
    ensures
        subtype_in_cx(env, c, a, c, a),
    decreases a, 2int,
{
    match a {
        Parameter::Ty(t) => lemma_ty_subtype_reflexive(env, c, t),
        Parameter::Perm(p) => lemma_chain_subtype_reflexive(env, c + perm_liens(p)),
    }
}

/// Subtyping is reflexive: `sub(env, a, a)` holds for every parameter `a`.
pub proof fn lemma_sub_reflexive(env: Env, a: Parameter)
    ensures
        is_subtype(env, a, a),
{
    lemma_subtype_in_cx_reflexive(env, seq![], a);
}

/// `my` is the bottom permission: `sub(env, my, p)` holds for every
/// permission `p`.
pub proof fn lemma_my_is_bottom(env: Env, p: Perm)
    ensures
        is_subtype(env, Parameter::Perm(Perm::My), Parameter::Perm(p)),
{
    assert((seq![] + perm_liens(Perm::My)).len() == 0);
}

/// `our` is a subtype of every shared permission, whatever its places.
pub proof fn lemma_our_sub_shared(env: Env, places: Vec<Place>)
    ensures
        is_subtype(env, Parameter::Perm(Perm::Our), Parameter::Perm(Perm::Rf(places))),
{
    let a = seq![] + perm_liens(Perm::Our);
    let b = seq![] + perm_liens(Perm::Rf(places));
    assert(a =~= seq![LienV::Our]);
    assert(b =~= seq![LienV::Shared(places_view(places@))]);
}

// ---------------------------------------------------------------------------
// Executable judgments

/// True if `covering_place` covers `place`: it is a prefix of it. For
/// example, `x.y` covers `x.y` and `x.y.z` but not `x.z` or `x1`.
pub fn place_covered_by_place(place: &Place, covering_place: &Place) -> (r: bool)
    ensures
        r == place_prefix(covering_place@, place@),
{
    covering_place.is_prefix_of(place)
}

/// True if one of `covering_places` covers `place`.
pub fn place_covered_by_one_of(place: &Place, covering_places: &Vec<Place>) -> (r: bool)
    ensures
        r == covered_by_one(place@, places_view(covering_places@)),
{
    let mut j: usize = 0;
    while j < covering_places.len()
        invariant
            0 <= j <= covering_places@.len(),
            forall|k: int|
                0 <= k < j ==> !place_prefix(
                    #[trigger] places_view(covering_places@)[k],
                    place@,
                ),
        decreases covering_places.len() - j,
    {
        if place_covered_by_place(place, &covering_places[j]) {
            assert(places_view(covering_places@)[j as int] == covering_places@[j as int]@);
            return true;
        }
        j += 1;
    }
    false
}

/// True if every place listed in `places` is covered by one of the places in
/// `covering_places`.
pub fn all_places_covered_by_one_of(places: &Vec<Place>, covering_places: &Vec<Place>) -> (r: bool)
    ensures
        r == all_covered(places_view(places@), places_view(covering_places@)),
{
    let mut i: usize = 0;
    while i < places.len()
        invariant
            0 <= i <= places@.len(),
            forall|k: int|
                0 <= k < i ==> covered_by_one(
                    #[trigger] places_view(places@)[k],
                    places_view(covering_places@),
                ),
        decreases places.len() - i,
    {
        if !place_covered_by_one_of(&places[i], covering_places) {
            assert(places_view(places@)[i as int] == places@[i as int]@);
            return false;
        }
        i += 1;
    }
    true
}

/// True if lien `a` is covered by lien `b`.
pub fn lien_covered_by(a: &Lien, b: &Lien) -> (r: bool)
    ensures
        r == lien_covered(a@, b@),
{
    match (a, b) {
        (Lien::Our, Lien::Our) => true,
        (Lien::Leased(pa), Lien::Leased(pb)) => all_places_covered_by_one_of(pa, pb),
        (Lien::Shared(pa), Lien::Shared(pb)) => all_places_covered_by_one_of(pa, pb),
        (Lien::Var(x), Lien::Var(y)) => *x == *y,
        _ => false,
    }
}

/// True if lien `a` is covered by some lien of `b`.
fn lien_covered_by_one_of(a: &Lien, b: &LienChain) -> (r: bool)
    ensures
        r == lien_covered_by_one(a@, b@),
{
    let mut j: usize = 0;
    while j < b.liens.len()
        invariant
            0 <= j <= b.liens@.len(),
            forall|k: int| 0 <= k < j ==> !lien_covered(a@, #[trigger] b@[k]),
        decreases b.liens.len() - j,
    {
        if lien_covered_by(a, &b.liens[j]) {
            assert(b@[j as int] == b.liens@[j as int]@);
            return true;
        }
        j += 1;
    }
    false
}

/// True if every lien of `a` is covered by some lien of `b`, in any order.
fn lien_set_covered_by(a: &LienChain, b: &LienChain) -> (r: bool)
    ensures
        r == lien_set_covered(a@, b@),
{
    let mut i: usize = 0;
    while i < a.liens.len()
        invariant
            0 <= i <= a.liens@.len(),
            forall|k: int| 0 <= k < i ==> lien_covered_by_one(#[trigger] a@[k], b@),
        decreases a.liens.len() - i,
    {
        if !lien_covered_by_one_of(&a.liens[i], b) {
            assert(a@[i as int] == a.liens@[i as int]@);
            return false;
        }
        i += 1;
    }
    true
}

/// True if `a` and `b` have the same length and each lien of `a` is
/// covered by the lien of `b` at the same position.
fn lien_chain_strictly_covered_by(a: &LienChain, b: &LienChain) -> (r: bool)
    ensures
        r == chain_strictly_covered(a@, b@),
{
    if a.liens.len() != b.liens.len() {
        return false;
    }
    let mut i: usize = 0;
    while i < a.liens.len()
        invariant
            0 <= i <= a.liens@.len(),
            a.liens@.len() == b.liens@.len(),
            forall|k: int| 0 <= k < i ==> lien_covered(#[trigger] a@[k], b@[k]),
        decreases a.liens.len() - i,
    {
        if !lien_covered_by(&a.liens[i], &b.liens[i]) {
            assert(a@[i as int] == a.liens@[i as int]@);
            assert(b@[i as int] == b.liens@[i as int]@);
            return false;
        }
        i += 1;
    }
    true
}

impl LienChain {
    /// The chain without its first lien.
    pub fn tail(&self) -> (r: LienChain)
        requires
            self@.len() > 0,
        ensures
            r@ == self@.drop_first(),
    {
        let mut liens: Vec<Lien> = Vec::new();
        let mut i: usize = 1;
        while i < self.liens.len()
            invariant
                1 <= i <= self.liens@.len(),
                liens@.len() == i - 1,
                forall|k: int| 0 <= k < i - 1 ==> (#[trigger] liens@[k])@ == self.liens@[k + 1]@,
            decreases self.liens.len() - i,
        {
            let l = self.liens[i].clone();
            liens.push(l);
            i += 1;
        }
        let r = LienChain { liens };
        assert(r@ =~= self@.drop_first());
        r
    }
}

/// True if, after skipping leading leases of `a`, the rest is strictly
/// covered by `b`.
fn lien_chain_covered_by(a: &LienChain, b: &LienChain) -> (r: bool)
    ensures
        r == chain_covered(a@, b@),
    decreases a@.len(),
{
    if lien_chain_strictly_covered_by(a, b) {
        return true;
    }
    if a.liens.len() > 0 {
        match &a.liens[0] {
            Lien::Leased(_) => {
                let rest = a.tail();
                lien_chain_covered_by(&rest, b)
            },
            _ => false,
        }
    } else {
        false
    }
}

/// True if the tails after matched heads are covered as sets and in order.
fn sub_lien_chain_exts(a: &LienChain, b: &LienChain) -> (r: bool)
    ensures
        r == chain_ext_subtype(a@, b@),
{
    lien_set_covered_by(a, b) && lien_chain_covered_by(a, b)
}

/// True if chain `a` is a subchain of chain `b`.
pub fn sub_lien_chains(env: &Env, a: &LienChain, b: &LienChain) -> (r: bool)
    ensures
        r == chain_subtype(*env, a@, b@),
{
    let n = a.liens.len();
    let m = b.liens.len();
    if n == 0 {
        return true;
    }
    if m == 0 {
        return false;
    }
    let our_alone = n == 1 && match &a.liens[0] {
        Lien::Our => true,
        _ => false,
    };
    if our_alone && lien_is_copy(env, &b.liens[0]) {
        return true;
    }
    if !lien_covered_by(&a.liens[0], &b.liens[0]) {
        return false;
    }
    let ta = a.tail();
    let tb = b.tail();
    sub_lien_chain_exts(&ta, &tb)
}

/// True if `a <: b` for types appearing under the chains `ca` and `cb`.
fn sub_ty_in_cx(env: &Env, ca: &LienChain, a: &Ty, cb: &LienChain, b: &Ty) -> (r: bool)
    ensures
        r == ty_subtype_in_cx(*env, ca@, *a, cb@, *b),
    decreases a, b, 1int,
{
    match a {
        Ty::ApplyPerm(p, inner_a) => {
            let mut ca2 = ca.copy_chain();
            ca2.push_perm(p);
            sub_ty_in_cx(env, &ca2, inner_a, cb, b)
        },
        _ => match b {
            Ty::ApplyPerm(q, inner_b) => {
                let mut cb2 = cb.copy_chain();
                cb2.push_perm(q);
                sub_ty_in_cx(env, ca, a, &cb2, inner_b)
            },
            _ => sub_leaf_in_cx(env, ca, a, cb, b),
        },
    }
}

/// True if `a <: b` for bare types under the chains `ca` and `cb`.
fn sub_leaf_in_cx(env: &Env, ca: &LienChain, a: &Ty, cb: &LienChain, b: &Ty) -> (r: bool)
    ensures
        r == leaf_subtype_in_cx(*env, ca@, *a, cb@, *b),
    decreases a, b, 0int,
{
    if !sub_lien_chains(env, ca, cb) || ca.layout(env) != cb.layout(env) {
        return false;
    }
    match (a, b) {
        (Ty::Var(x), Ty::Var(y)) => *x == *y,
        (Ty::NamedTy(na), Ty::NamedTy(nb)) => {
            na.name == nb.name && na.parameters.len() == nb.parameters.len() && sub_parameters(
                env,
                ca,
                &na.parameters,
                cb,
                &nb.parameters,
                0,
            )
        },
        _ => false,
    }
}

/// True if the arguments from index `i` on are pairwise related.
fn sub_parameters(
    env: &Env,
    ca: &LienChain,
    pas: &Vec<Parameter>,
    cb: &LienChain,
    pbs: &Vec<Parameter>,
    i: usize,
) -> (r: bool)
    requires
        pas@.len() == pbs@.len(),
    ensures
        r == params_subtype(*env, ca@, pas@, cb@, pbs@, i as int),
    decreases pas@, pbs@, pas@.len() - i,
{
    if i >= pas.len() {
        true
    } else {
        sub_in_cx(env, ca, &pas[i], cb, &pbs[i]) && sub_parameters(env, ca, pas, cb, pbs, i + 1)
    }
}

/// True if `a <: b` for parameters appearing under the chains `ca` and `cb`.
fn sub_in_cx(env: &Env, ca: &LienChain, a: &Parameter, cb: &LienChain, b: &Parameter) -> (r: bool)
    ensures
        r == subtype_in_cx(*env, ca@, *a, cb@, *b),
    decreases a, b, 2int,
{
    match (a, b) {
        (Parameter::Ty(ta), Parameter::Ty(tb)) => sub_ty_in_cx(env, ca, ta, cb, tb),
        (Parameter::Perm(pa), Parameter::Perm(pb)) => {
            let mut ca2 = ca.copy_chain();
            ca2.push_perm(pa);
            let mut cb2 = cb.copy_chain();
            cb2.push_perm(pb);
            sub_lien_chains(env, &ca2, &cb2)
        },
        _ => false,
    }
}

/// True if `a <: b` in an owned (`my`) context.
pub fn sub(env: &Env, a: &Parameter, b: &Parameter) -> (r: bool)
    ensures
        r == is_subtype(*env, *a, *b),
{
    let ca = LienChain::my();
    let cb = LienChain::my();
    sub_in_cx(env, &ca, a, &cb, b)
}

} // verus!
