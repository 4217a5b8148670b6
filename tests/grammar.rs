use dada_model::env::Env;
use dada_model::grammar::Var;
use dada_model::grammar::{
    Atomic, ClassDecl, ClassDeclBoundData, ClassPredicate, Decl, Kind, NamedTy, Parameter,
    ParameterPredicate, Perm, Predicate, Program, Ty, TypeName, ValueId, VarianceKind, Variable,
};

fn class(name: u64, predicate: ClassPredicate) -> Decl {
    Decl::ClassDecl(ClassDecl {
        name: ValueId(name),
        class_predicate: predicate,
        generics: vec![],
        data: ClassDeclBoundData { predicates: vec![], fields: vec![], methods: vec![] },
    })
}

#[test]
fn class_named_finds_first_match() {
    let program = Program {
        decls: vec![class(1, ClassPredicate::Share), class(2, ClassPredicate::Our), class(2, ClassPredicate::Guard)],
    };
    let found = program.class_named(ValueId(2)).unwrap();
    assert_eq!(found.class_predicate, ClassPredicate::Our);
    assert!(program.class_named(ValueId(3)).is_none());
}

#[test]
fn tuple_unit_and_integer_types() {
    let t = Ty::tuple(vec![Ty::integer(), Ty::unit()]);
    match t {
        Ty::NamedTy(NamedTy { name, parameters }) => {
            assert_eq!(name, TypeName::Tuple(2));
            assert_eq!(parameters.len(), 2);
            assert!(matches!(&parameters[0], Parameter::Ty(Ty::NamedTy(n)) if n.name == TypeName::Int));
            assert!(matches!(&parameters[1], Parameter::Ty(Ty::NamedTy(n)) if n.name == TypeName::Tuple(0)));
        }
        _ => panic!("expected a named type"),
    }
}

#[test]
fn strip_perm_removes_all_qualifiers() {
    let t = Ty::ApplyPerm(Perm::Our, Box::new(Ty::ApplyPerm(Perm::My, Box::new(Ty::integer()))));
    assert!(matches!(t.strip_perm(), Ty::NamedTy(n) if n.name == TypeName::Int));
    let v = Variable::UniversalVar(Kind::Ty, 0);
    assert!(matches!(Ty::Var(v).strip_perm(), Ty::Var(w) if *w == v));
}

#[test]
fn parameter_kind_and_var() {
    let v = Variable::UniversalVar(Kind::Perm, 0);
    let p = Parameter::Perm(Perm::Var(v));
    assert!(p.is_var(v));
    assert!(!p.is_var(Variable::UniversalVar(Kind::Perm, 1)));
    assert_eq!(p.kind(), Kind::Perm);
    assert_eq!(Parameter::Ty(Ty::unit()).kind(), Kind::Ty);
    assert!(!Parameter::Ty(Ty::unit()).is_var(v));
}

#[test]
fn predicate_constructors() {
    let v = Variable::UniversalVar(Kind::Perm, 0);
    assert!(matches!(Predicate::shared(Parameter::Perm(Perm::Var(v))), Predicate::Parameter(ParameterPredicate::Shared, _)));
    assert!(matches!(Predicate::move_(Parameter::Perm(Perm::Var(v))), Predicate::Parameter(ParameterPredicate::Unique, _)));
    assert!(matches!(Predicate::owned(Parameter::Perm(Perm::Var(v))), Predicate::Parameter(ParameterPredicate::Owned, _)));
    assert!(matches!(Predicate::lent(Parameter::Perm(Perm::Var(v))), Predicate::Parameter(ParameterPredicate::Lent, _)));
    assert!(matches!(ClassPredicate::Our.apply(Parameter::Ty(Ty::unit())), Predicate::Class(ClassPredicate::Our, _)));
    assert!(matches!(VarianceKind::Atomic.apply(Parameter::Ty(Ty::unit())), Predicate::Variance(VarianceKind::Atomic, _)));
    assert_ne!(Atomic::No, Atomic::Yes);
}

#[test]
fn env_counters_and_assumptions() {
    let mut env = Env::new(Program { decls: vec![] });
    assert_eq!(env.fresh_var(), Var::Fresh(0));
    assert_eq!(env.fresh_var(), Var::Fresh(1));
    let p = env.push_universal(Kind::Perm);
    let q = env.push_universal(Kind::Ty);
    assert_eq!(p, Variable::UniversalVar(Kind::Perm, 0));
    assert_eq!(q, Variable::UniversalVar(Kind::Ty, 1));
    assert_eq!(env.universe, 2);
    env.push_assumption(Predicate::lent(Parameter::Ty(Ty::Var(q))));
    assert!(env.contains_assumption(ParameterPredicate::Lent, q));
    assert!(!env.contains_assumption(ParameterPredicate::Lent, p));
    env.push_local_variable(Var::This, Ty::unit());
    assert_eq!(env.local_variables().len(), 1);
}
