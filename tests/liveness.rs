use dada_model::grammar::{
    Access, Ascription, Block, Expr, FieldId, Place, PlaceExpr, Projection, Statement, ValueId,
    Var,
};
use dada_model::liveness::{AdjustLiveVars, LivePlaces};

fn v(n: u64) -> Var {
    Var::Id(ValueId(n))
}

fn read(n: u64) -> Expr {
    Expr::Place(PlaceExpr { place: Place::from_var(v(n)), access: Access::Rf })
}

fn sorted(mut vars: Vec<Var>) -> Vec<Var> {
    vars.sort_by_key(|var| match var {
        Var::Id(ValueId(n)) => *n,
        _ => 0,
    });
    vars.dedup();
    vars
}

#[test]
fn empty_live_places() {
    let live = LivePlaces::new();
    assert!(!live.is_live(v(1)));
    assert!(live.vars().is_empty());
}

#[test]
fn place_expression_makes_its_variable_live() {
    let live = LivePlaces::new().before(&read(1));
    assert!(live.is_live(v(1)));
    assert!(!live.is_live(v(2)));
    let live = live.without(v(1));
    assert!(!live.is_live(v(1)));
}

#[test]
fn let_ends_liveness_of_its_variable() {
    // { let x = d1.ref; x.ref; }  with x = 3, d1 = 1
    let block = Block {
        statements: vec![
            Statement::Let(ValueId(3), Ascription::NoTy, Box::new(read(1))),
            Statement::Expr(read(3)),
        ],
    };
    let live = LivePlaces::new().before(&block);
    assert_eq!(sorted(live.vars().clone()), vec![v(1)]);
}

#[test]
fn reassign_whole_variable_kills_it_but_field_reads_it() {
    let after = LivePlaces::new().before(&read(2));
    let whole = Statement::Reassign(Place::from_var(v(2)), Expr::Integer(1));
    assert!(!after.before(&whole).is_live(v(2)));
    let field = Statement::Reassign(
        Place { var: v(2), projections: vec![Projection::Field(FieldId(9))] },
        read(4),
    );
    let live = after.before(&field);
    assert_eq!(sorted(live.vars().clone()), vec![v(2), v(4)]);
}

#[test]
fn if_joins_both_branches() {
    let e = Expr::If(Box::new(read(1)), Box::new(read(2)), Box::new(read(3)));
    let live = LivePlaces::new().before(&e);
    assert_eq!(sorted(live.vars().clone()), vec![v(1), v(2), v(3)]);
    let add = Expr::Add(Box::new(read(5)), Box::new(Expr::Integer(3)));
    assert_eq!(sorted(add.adjust_live_vars(vec![v(6)])), vec![v(5), v(6)]);
}

#[test]
fn before_all_unions_each_term() {
    let live = LivePlaces::new().before(&read(7));
    let terms = vec![read(1), Expr::Clear(ValueId(2)), read(3)];
    let all = live.before_all(&terms);
    assert_eq!(sorted(all.vars().clone()), vec![v(1), v(3), v(7)]);
    let none: Vec<Expr> = vec![];
    assert!(live.before_all(&none).vars().is_empty());
}

#[test]
fn let_reading_its_own_name_keeps_it_live() {
    // let x = x.give;  with nothing live after, x = 3
    let give = Expr::Place(PlaceExpr { place: Place::from_var(v(3)), access: Access::Mv });
    let stmt = Statement::Let(ValueId(3), Ascription::NoTy, Box::new(give));
    let live = LivePlaces::new().before(&stmt);
    assert_eq!(sorted(live.vars().clone()), vec![v(3)]);
    // let x = d1.ref;  with x live after: x is dead before, d1 live
    let after = LivePlaces::new().before(&read(3));
    let stmt = Statement::Let(ValueId(3), Ascription::NoTy, Box::new(read(1)));
    assert_eq!(sorted(after.before(&stmt).vars().clone()), vec![v(1)]);
}

#[test]
fn reassign_reading_its_own_variable_keeps_it_live() {
    // x = x.give;  with nothing live after
    let give = Expr::Place(PlaceExpr { place: Place::from_var(v(2)), access: Access::Mv });
    let stmt = Statement::Reassign(Place::from_var(v(2)), give);
    let live = LivePlaces::new().before(&stmt);
    assert_eq!(sorted(live.vars().clone()), vec![v(2)]);
}
