use dada_model::env::Env;
use dada_model::grammar::{
    FieldId, Kind, NamedTy, Parameter, ParameterPredicate, Perm, Place, Predicate, Program,
    Projection, Ty, TypeName, ValueId, Var, Variable,
};
use dada_model::liens::{is_copy, is_lent, is_owned, is_unique, prove_predicate, Lien};
use dada_model::subtypes::{
    all_places_covered_by_one_of, lien_covered_by, place_covered_by_one_of,
    place_covered_by_place, sub,
};

const DATA: u64 = 100;
const VEC: u64 = 101;
const D1: u64 = 1;
const D2: u64 = 2;
const PAIR: u64 = 3;
const SOURCE: u64 = 4;
const X: u64 = 5;
const FIELD_Y: u64 = 10;

fn place(var: u64, fields: &[u64]) -> Place {
    Place {
        var: Var::Id(ValueId(var)),
        projections: fields.iter().map(|f| Projection::Field(FieldId(*f))).collect(),
    }
}

fn data() -> Ty {
    Ty::NamedTy(NamedTy { name: TypeName::Id(ValueId(DATA)), parameters: vec![] })
}

fn vec_of(t: Ty) -> Ty {
    Ty::NamedTy(NamedTy { name: TypeName::Id(ValueId(VEC)), parameters: vec![Parameter::Ty(t)] })
}

fn with(perm: Perm, t: Ty) -> Ty {
    Ty::ApplyPerm(perm, Box::new(t))
}

fn shared(var: u64) -> Perm {
    Perm::Rf(vec![place(var, &[])])
}

fn leased(var: u64) -> Perm {
    Perm::Mt(vec![place(var, &[])])
}

fn ty(t: Ty) -> Parameter {
    Parameter::Ty(t)
}

fn perm(p: Perm) -> Parameter {
    Parameter::Perm(p)
}

fn empty_env() -> Env {
    Env::new(Program { decls: vec![] })
}

fn env_with_perm_var() -> (Env, Variable) {
    let mut env = empty_env();
    let p = env.push_universal(Kind::Perm);
    (env, p)
}

#[test]
fn reflexive_on_nested_types_and_perms() {
    let (env, p) = env_with_perm_var();
    let samples = vec![
        ty(data()),
        ty(with(leased(X), vec_of(with(shared(D1), data())))),
        ty(with(Perm::Our, with(leased(PAIR), data()))),
        ty(with(Perm::Var(p), data())),
        ty(Ty::Var(Variable::UniversalVar(Kind::Ty, 7))),
        perm(Perm::Apply(Box::new(leased(D1)), Box::new(Perm::Var(p)))),
        perm(Perm::Rf(vec![])),
        perm(Perm::My),
    ];
    for a in samples.iter() {
        assert!(sub(&env, a, a));
    }
}

#[test]
fn my_is_a_subtype_of_every_permission() {
    let (env, p) = env_with_perm_var();
    let targets = vec![
        Perm::My,
        Perm::Our,
        shared(D1),
        leased(D2),
        Perm::Var(p),
        Perm::Apply(Box::new(Perm::Our), Box::new(leased(PAIR))),
        Perm::Mv(vec![place(D1, &[])]),
    ];
    for t in targets.into_iter() {
        assert!(sub(&env, &perm(Perm::My), &perm(t)));
    }
}

#[test]
fn our_is_a_subtype_of_any_shared() {
    let env = empty_env();
    assert!(sub(&env, &perm(Perm::Our), &perm(Perm::Rf(vec![]))));
    assert!(sub(&env, &perm(Perm::Our), &perm(shared(D1))));
    assert!(sub(&env, &perm(Perm::Our), &perm(Perm::Rf(vec![place(D1, &[]), place(D2, &[FIELD_Y])]))));
    assert!(!sub(&env, &perm(Perm::Our), &perm(leased(D1))));
}

#[test]
fn covering_is_not_symmetric() {
    let narrow = Lien::Leased(vec![place(X, &[FIELD_Y])]);
    let broad = Lien::Leased(vec![place(X, &[])]);
    assert!(lien_covered_by(&narrow, &broad));
    assert!(!lien_covered_by(&broad, &narrow));
    assert!(sub(&empty_env(), &perm(Perm::Mt(vec![place(X, &[FIELD_Y])])), &perm(leased(X))));
    assert!(!sub(&empty_env(), &perm(leased(X)), &perm(Perm::Mt(vec![place(X, &[FIELD_Y])]))));
}

#[test]
fn place_covering_helpers() {
    assert!(place_covered_by_place(&place(X, &[FIELD_Y]), &place(X, &[])));
    assert!(!place_covered_by_place(&place(X, &[]), &place(X, &[FIELD_Y])));
    let covering = vec![place(D1, &[]), place(D2, &[FIELD_Y])];
    assert!(place_covered_by_one_of(&place(D2, &[FIELD_Y, 11]), &covering));
    assert!(!place_covered_by_one_of(&place(D2, &[]), &covering));
    assert!(all_places_covered_by_one_of(&vec![place(D1, &[3]), place(D2, &[FIELD_Y])], &covering));
    assert!(!all_places_covered_by_one_of(&vec![place(D1, &[]), place(X, &[])], &covering));
    assert!(all_places_covered_by_one_of(&vec![], &covering));
}

#[test]
fn give_my_to_our() {
    // d1: my Data, returned as `our Data`
    let mut env = empty_env();
    env.push_local_variable(Var::Id(ValueId(D1)), data());
    assert!(sub(&env, &ty(data()), &ty(with(Perm::Our, data()))));
}

#[test]
fn our_to_generic_perm_needs_copy() {
    let mut env = empty_env();
    let p = env.push_universal(Kind::Perm);
    env.push_local_variable(Var::Id(ValueId(D1)), data());
    env.push_local_variable(Var::Id(ValueId(D2)), with(Perm::Var(p), data()));
    let our_data = ty(with(Perm::Our, data()));
    let p_data = ty(with(Perm::Var(p), data()));
    assert!(sub(&env, &ty(data()), &our_data));
    assert!(!sub(&env, &our_data, &p_data));
    env.push_assumption(Predicate::shared(perm(Perm::Var(p))));
    assert!(sub(&env, &our_data, &p_data));
}

#[test]
fn our_to_move_lent_perm_fails() {
    let mut env = empty_env();
    let p = env.push_universal(Kind::Perm);
    env.push_assumption(Predicate::move_(perm(Perm::Var(p))));
    env.push_assumption(Predicate::lent(perm(Perm::Var(p))));
    assert!(!sub(&env, &ty(with(Perm::Our, data())), &ty(with(Perm::Var(p), data()))));
}

#[test]
fn shared_from_different_places_are_unrelated() {
    let mut env = empty_env();
    let p = env.push_universal(Kind::Perm);
    env.push_local_variable(Var::Id(ValueId(D1)), with(Perm::Var(p), data()));
    env.push_local_variable(Var::Id(ValueId(D2)), with(Perm::Var(p), data()));
    assert!(!sub(&env, &ty(with(shared(D1), data())), &ty(with(shared(D2), data()))));
    assert!(sub(&env, &ty(with(shared(D1), data())), &ty(with(shared(D1), data()))));
    let both = Perm::Rf(vec![place(D1, &[]), place(D2, &[])]);
    assert!(sub(&env, &ty(with(shared(D2), data())), &ty(with(both, data()))));
}

#[test]
fn shared_field_is_covered_by_shared_owner() {
    let env = empty_env();
    let from_next = Perm::Rf(vec![place(D1, &[FIELD_Y])]);
    assert!(sub(&env, &ty(with(from_next, data())), &ty(with(shared(D1), data()))));
    let from_next = Perm::Rf(vec![place(D1, &[FIELD_Y])]);
    assert!(!sub(&env, &ty(with(from_next, data())), &ty(with(shared(D2), data()))));
    let to_next = Perm::Rf(vec![place(D1, &[FIELD_Y])]);
    assert!(!sub(&env, &ty(with(shared(D1), data())), &ty(with(to_next, data()))));
    let leased_next = Perm::Mt(vec![place(D1, &[FIELD_Y])]);
    assert!(!sub(&env, &ty(with(leased_next, data())), &ty(with(shared(D1), data()))));
}

#[test]
fn leased_vec_arguments_are_invariant() {
    let env = empty_env();
    let a = ty(with(leased(SOURCE), vec_of(with(leased(SOURCE), data()))));
    let b = ty(with(leased(SOURCE), vec_of(data())));
    assert!(!sub(&env, &a, &b));
    assert!(!sub(&env, &b, &a));
    assert!(sub(&env, &a, &a));
    assert!(sub(&env, &b, &b));
}

#[test]
fn our_leased_is_not_our() {
    let env = empty_env();
    let our_leased = |places: Vec<Place>| ty(with(Perm::Our, with(Perm::Mt(places), data())));
    assert!(!sub(&env, &our_leased(vec![place(PAIR, &[])]), &ty(with(Perm::Our, data()))));
    assert!(sub(&env, &our_leased(vec![place(PAIR, &[])]), &our_leased(vec![place(PAIR, &[])])));
    assert!(sub(&env, &our_leased(vec![place(PAIR, &[FIELD_Y])]), &our_leased(vec![place(PAIR, &[])])));
}

#[test]
fn different_classes_are_unrelated() {
    let env = empty_env();
    assert!(!sub(&env, &ty(data()), &ty(vec_of(data()))));
    assert!(!sub(&env, &ty(data()), &perm(Perm::My)));
    assert!(!sub(&env, &ty(Ty::integer()), &ty(Ty::unit())));
    assert!(sub(&env, &ty(Ty::integer()), &ty(Ty::integer())));
}

#[test]
fn my_data_is_not_a_leased_value() {
    let env = empty_env();
    assert!(!sub(&env, &ty(data()), &ty(with(leased(D1), data()))));
    assert!(sub(&env, &perm(Perm::My), &perm(leased(D1))));
}

#[test]
fn permission_predicates() {
    let (mut env, p) = env_with_perm_var();
    let our_leased = Perm::Apply(Box::new(Perm::Our), Box::new(leased(PAIR)));
    assert!(is_copy(&env, &Perm::Our));
    assert!(is_copy(&env, &shared(D1)));
    assert!(!is_copy(&env, &Perm::My));
    assert!(!is_copy(&env, &our_leased));
    assert!(is_unique(&env, &our_leased));
    assert!(is_unique(&env, &Perm::My));
    assert!(is_owned(&env, &Perm::Our));
    assert!(!is_owned(&env, &our_leased));
    assert!(is_lent(&env, &our_leased));
    assert!(!is_lent(&env, &Perm::My));
    assert!(!is_copy(&env, &Perm::Var(p)));
    assert!(!prove_predicate(&env, &Predicate::owned(perm(Perm::Var(p)))));
    env.push_assumption(Predicate::owned(perm(Perm::Var(p))));
    assert!(prove_predicate(&env, &Predicate::owned(perm(Perm::Var(p)))));
    assert!(env.contains_assumption(ParameterPredicate::Owned, p));
    assert!(!env.contains_assumption(ParameterPredicate::Shared, p));
    assert!(prove_predicate(&env, &Predicate::shared(ty(with(Perm::Our, data())))));
}
