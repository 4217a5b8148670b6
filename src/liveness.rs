//! Liveness: which variables may be read after a given program point,
//! computed by walking the program backward from that point.
use vstd::prelude::*;
use crate::grammar::{Block, Expr, Place, PlaceExpr, Statement, Var};

verus! {

broadcast use vstd::std_specs::vec::group_vec_axioms;

/// The variables live before `e` runs, given those live after it.
pub open spec fn live_before_expr(e: Expr, vars: Set<Var>) -> Set<Var>
    decreases e, 0int,
{
    match e {
        Expr::Block(b) => live_before_stmts(b.statements@, vars, 0),
        Expr::Integer(_) => vars,
        Expr::Add(lhs, rhs) => live_before_expr(*lhs, live_before_expr(*rhs, vars)),
        Expr::Place(pe) => vars.insert(pe.place.var),
        Expr::Share(inner) => live_before_expr(*inner, vars),
        Expr::Tuple(es) => live_before_exprs(es@, vars, 0),
        Expr::Call(receiver, _, _, args) => live_before_expr(
            *receiver,
            live_before_exprs(args@, vars, 0),
        ),
        Expr::New(_, _, args) => live_before_exprs(args@, vars, 0),
        Expr::Clear(_) => vars,
        Expr::If(cond, if_true, if_false) => live_before_expr(
            *cond,
            live_before_expr(*if_true, vars).union(live_before_expr(*if_false, vars)),
        ),
        Expr::Panic => vars,
    }
}

/// The variables live before the expressions from index `i` on run in
/// order, given those live after the last one.
pub open spec fn live_before_exprs(es: Seq<Expr>, vars: Set<Var>, i: int) -> Set<Var>
    decreases es, es.len() - i,
{
    if i < 0 || i >= es.len() {
        vars
    } else {
        live_before_expr(es[i], live_before_exprs(es, vars, i + 1))
    }
}

/// The variables live before `s` runs, given those live after it. A `let`
/// or an assignment to a whole variable overwrites that variable, so it is
/// not live after the statement unless the right-hand side reads it; an
/// assignment to a field reads its variable.
pub open spec fn live_before_stmt(s: Statement, vars: Set<Var>) -> Set<Var>
    decreases s, 0int,
{
    match s {
        Statement::Expr(e) => live_before_expr(e, vars),
        Statement::Let(name, _, e) => live_before_expr(*e, vars.remove(Var::Id(name))),
        Statement::Reassign(place, e) => if place.projections@.len() == 0 {
            live_before_expr(e, vars.remove(place.var))
        } else {
            live_before_expr(e, vars).insert(place.var)
        },
        Statement::Loop(e) => live_before_expr(*e, vars),
        Statement::Break => vars,
        Statement::Return(e) => live_before_expr(e, vars),
    }
}

/// The variables live before the statements from index `i` on run in
/// order, given those live after the last one.
pub open spec fn live_before_stmts(ss: Seq<Statement>, vars: Set<Var>, i: int) -> Set<Var>
    decreases ss, ss.len() - i,
{
    if i < 0 || i >= ss.len() {
        vars
    } else {
        live_before_stmt(ss[i], live_before_stmts(ss, vars, i + 1))
    }
}

// ---------------------------------------------------------------------------
// Sets of variables held in a `Vec`

fn copy_vars(vars: &Vec<Var>) -> (r: Vec<Var>)
    ensures
        r@ == vars@,
{
    let mut r: Vec<Var> = Vec::new();
    let mut i: usize = 0;
    while i < vars.len()
        invariant
            0 <= i <= vars@.len(),
            r@ == vars@.subrange(0, i as int),
        decreases vars.len() - i,
    {
        r.push(vars[i]);
        i += 1;
        assert(r@ =~= vars@.subrange(0, i as int));
    }
    assert(vars@.subrange(0, vars@.len() as int) =~= vars@);
    r
}

fn with_var(vars: Vec<Var>, v: Var) -> (r: Vec<Var>)
    ensures
        r@.to_set() == vars@.to_set().insert(v),
{
    let mut r = vars;
    r.push(v);
    proof {
        vars@.lemma_push_to_set_commute(v);
    }
    r
}

fn without_var(vars: Vec<Var>, v: Var) -> (r: Vec<Var>)
    ensures
        r@.to_set() == vars@.to_set().remove(v),
{
    let mut r: Vec<Var> = Vec::new();
    let mut i: usize = 0;
    while i < vars.len()
        invariant
            0 <= i <= vars@.len(),
            r@.to_set() == vars@.subrange(0, i as int).to_set().remove(v),
        decreases vars.len() - i,
    {
        let x = vars[i];
        proof {
            assert(vars@.subrange(0, i + 1) =~= vars@.subrange(0, i as int).push(x));
            vars@.subrange(0, i as int).lemma_push_to_set_commute(x);
        }
        if x != v {
            proof {
                r@.lemma_push_to_set_commute(x);
            }
            r.push(x);
            assert(r@.to_set() =~= vars@.subrange(0, i + 1).to_set().remove(v));
        } else {
            assert(r@.to_set() =~= vars@.subrange(0, i + 1).to_set().remove(v));
        }
        i += 1;
    }
    assert(vars@.subrange(0, vars@.len() as int) =~= vars@);
    r
}

fn union_vars(a: Vec<Var>, b: &Vec<Var>) -> (r: Vec<Var>)
    ensures
        r@.to_set() == a@.to_set().union(b@.to_set()),
{
    let mut r = a;
    let mut i: usize = 0;
    while i < b.len()
        invariant
            0 <= i <= b@.len(),
            r@.to_set() == a@.to_set().union(b@.subrange(0, i as int).to_set()),
        decreases b.len() - i,
    {
        let x = b[i];
        proof {
            assert(b@.subrange(0, i + 1) =~= b@.subrange(0, i as int).push(x));
            b@.subrange(0, i as int).lemma_push_to_set_commute(x);
            r@.lemma_push_to_set_commute(x);
        }
        r.push(x);
        assert(r@.to_set() =~= a@.to_set().union(b@.subrange(0, i + 1).to_set()));
        i += 1;
    }
    assert(b@.subrange(0, b@.len() as int) =~= b@);
    r
}

// ---------------------------------------------------------------------------
// The backward walk

/// The variables live before `e`, given those live after it.
pub fn expr_live_vars(e: &Expr, vars: Vec<Var>) -> (r: Vec<Var>)
    ensures
        r@.to_set() == live_before_expr(*e, vars@.to_set()),
    decreases e, 0int,
{
    match e {
        Expr::Block(b) => stmts_live_vars(&b.statements, vars, 0),
        Expr::Integer(_) => vars,
        Expr::Add(lhs, rhs) => {
            let vars = expr_live_vars(rhs, vars);
            expr_live_vars(lhs, vars)
        },
        Expr::Place(pe) => with_var(vars, pe.place.var),
        Expr::Share(inner) => expr_live_vars(inner, vars),
        Expr::Tuple(es) => exprs_live_vars(es, vars, 0),
        Expr::Call(receiver, _, _, args) => {
            let vars = exprs_live_vars(args, vars, 0);
            expr_live_vars(receiver, vars)
        },
        Expr::New(_, _, args) => exprs_live_vars(args, vars, 0),
        Expr::Clear(_) => vars,
        Expr::If(cond, if_true, if_false) => {
            let if_true_vars = expr_live_vars(if_true, copy_vars(&vars));
            let if_false_vars = expr_live_vars(if_false, vars);
            expr_live_vars(cond, union_vars(if_true_vars, &if_false_vars))
        },
        Expr::Panic => vars,
    }
}

/// The variables live before the expressions from index `i` on.
pub fn exprs_live_vars(es: &Vec<Expr>, vars: Vec<Var>, i: usize) -> (r: Vec<Var>)
    ensures
        r@.to_set() == live_before_exprs(es@, vars@.to_set(), i as int),
    decreases es@, es@.len() - i,
{
    if i >= es.len() {
        vars
    } else {
        let later = exprs_live_vars(es, vars, i + 1);
        expr_live_vars(&es[i], later)
    }
}

/// The variables live before `s`, given those live after it.
pub fn stmt_live_vars(s: &Statement, vars: Vec<Var>) -> (r: Vec<Var>)
    ensures
        r@.to_set() == live_before_stmt(*s, vars@.to_set()),
    decreases s, 0int,
{
    match s {
        Statement::Expr(e) => expr_live_vars(e, vars),
        Statement::Let(name, _, e) => {
            let vars = without_var(vars, Var::Id(*name));
            expr_live_vars(e, vars)
        },
        Statement::Reassign(place, e) => {
            if place.projections.len() == 0 {
                let vars = without_var(vars, place.var);
                expr_live_vars(e, vars)
            } else {
                let vars = expr_live_vars(e, vars);
                with_var(vars, place.var)
            }
        },
        Statement::Loop(e) => expr_live_vars(e, vars),
        Statement::Break => vars,
        Statement::Return(e) => expr_live_vars(e, vars),
    }
}

/// The variables live before the statements from index `i` on.
pub fn stmts_live_vars(ss: &Vec<Statement>, vars: Vec<Var>, i: usize) -> (r: Vec<Var>)
    ensures
        r@.to_set() == live_before_stmts(ss@, vars@.to_set(), i as int),
    decreases ss@, ss@.len() - i,
{
    if i >= ss.len() {
        vars
    } else {
        let later = stmts_live_vars(ss, vars, i + 1);
        stmt_live_vars(&ss[i], later)
    }
}

/// A program term that liveness can be walked backward through.
pub trait AdjustLiveVars {
    /// The variables live before this term, given those live after it.
    spec fn live_before(&self, vars: Set<Var>) -> Set<Var>;

    /// Computes the variables live before this term from those live after.
    fn adjust_live_vars(&self, vars: Vec<Var>) -> (r: Vec<Var>)
        ensures
            r@.to_set() == self.live_before(vars@.to_set()),
    ;
}

impl AdjustLiveVars for Expr {
    open spec fn live_before(&self, vars: Set<Var>) -> Set<Var> {
        live_before_expr(*self, vars)
    }

    fn adjust_live_vars(&self, vars: Vec<Var>) -> (r: Vec<Var>) {
        expr_live_vars(self, vars)
    }
}

impl AdjustLiveVars for Statement {
    open spec fn live_before(&self, vars: Set<Var>) -> Set<Var> {
        live_before_stmt(*self, vars)
    }

    fn adjust_live_vars(&self, vars: Vec<Var>) -> (r: Vec<Var>) {
        stmt_live_vars(self, vars)
    }
}

impl AdjustLiveVars for Block {
    open spec fn live_before(&self, vars: Set<Var>) -> Set<Var> {
        live_before_stmts(self.statements@, vars, 0)
    }

    fn adjust_live_vars(&self, vars: Vec<Var>) -> (r: Vec<Var>) {
        stmts_live_vars(&self.statements, vars, 0)
    }
}

impl AdjustLiveVars for PlaceExpr {
    open spec fn live_before(&self, vars: Set<Var>) -> Set<Var> {
        vars.insert(self.place.var)
    }

    fn adjust_live_vars(&self, vars: Vec<Var>) -> (r: Vec<Var>) {
        with_var(vars, self.place.var)
    }
}

impl AdjustLiveVars for Place {
    open spec fn live_before(&self, vars: Set<Var>) -> Set<Var> {
        vars.insert(self.var)
    }

    fn adjust_live_vars(&self, vars: Vec<Var>) -> (r: Vec<Var>) {
        with_var(vars, self.var)
    }
}

impl AdjustLiveVars for Vec<Statement> {
    open spec fn live_before(&self, vars: Set<Var>) -> Set<Var> {
        live_before_stmts(self@, vars, 0)
    }

    fn adjust_live_vars(&self, vars: Vec<Var>) -> (r: Vec<Var>) {
        stmts_live_vars(self, vars, 0)
    }
}

impl AdjustLiveVars for Vec<Expr> {
    open spec fn live_before(&self, vars: Set<Var>) -> Set<Var> {
        live_before_exprs(self@, vars, 0)
    }

    fn adjust_live_vars(&self, vars: Vec<Var>) -> (r: Vec<Var>) {
        exprs_live_vars(self, vars, 0)
    }
}

impl AdjustLiveVars for Vec<Place> {
    /// Each listed place reads its variable.
    open spec fn live_before(&self, vars: Set<Var>) -> Set<Var> {
        vars.union(self@.map_values(|p: Place| p.var).to_set())
    }

    fn adjust_live_vars(&self, vars: Vec<Var>) -> (r: Vec<Var>) {
        let mut r = vars;
        let mut i: usize = 0;
        while i < self.len()
            invariant
                0 <= i <= self@.len(),
                r@.to_set() == vars@.to_set().union(
                    self@.subrange(0, i as int).map_values(|p: Place| p.var).to_set(),
                ),
            decreases self.len() - i,
        {
            let x = self[i].var;
            proof {
                assert(self@.subrange(0, i + 1).map_values(|p: Place| p.var) =~= self@.subrange(
                    0,
                    i as int,
                ).map_values(|p: Place| p.var).push(x));
                self@.subrange(0, i as int).map_values(|p: Place| p.var).lemma_push_to_set_commute(
                    x,
                );
                r@.lemma_push_to_set_commute(x);
            }
            r.push(x);
            assert(r@.to_set() =~= vars@.to_set().union(
                self@.subrange(0, i + 1).map_values(|p: Place| p.var).to_set(),
            ));
            i += 1;
        }
        assert(self@.subrange(0, self@.len() as int) =~= self@);
        r
    }
}

/// The set of variables live at a given point of execution.
#[derive(Debug)]
pub struct LivePlaces {
    vars: Vec<Var>,
}

impl View for LivePlaces {
    type V = Set<Var>;

    closed spec fn view(&self) -> Set<Var> {
        self.vars@.to_set()
    }
}

impl LivePlaces {
    /// No variable is live.
    pub fn new() -> (r: LivePlaces)
        ensures
            r@ == Set::<Var>::empty(),
    {
        let r = LivePlaces { vars: Vec::new() };
        assert(r@ =~= Set::<Var>::empty());
        r
    }

    /// True if `v` is live: it may be accessed after this point.
    pub fn is_live(&self, v: Var) -> (r: bool)
        ensures
            r == self@.contains(v),
    {
        let mut i: usize = 0;
        while i < self.vars.len()
            invariant
                0 <= i <= self.vars@.len(),
                forall|k: int| 0 <= k < i ==> self.vars@[k] != v,
            decreases self.vars.len() - i,
        {
            if self.vars[i] == v {
                assert(self.vars@.contains(v));
                return true;
            }
            i += 1;
        }
        false
    }

    /// The live variables just before `term` runs.
    pub fn before<T: AdjustLiveVars>(&self, term: &T) -> (r: LivePlaces)
        ensures
            r@ == term.live_before(self@),
    {
        LivePlaces { vars: term.adjust_live_vars(copy_vars(&self.vars)) }
    }

    /// The variables live just before any one of `terms` runs: the union,
    /// over the terms, of the variables live before each.
    pub fn before_all<T: AdjustLiveVars>(&self, terms: &Vec<T>) -> (r: LivePlaces)
        ensures
            forall|v: Var|
                r@.contains(v) <==> exists|i: int|
                    0 <= i < terms@.len() && (#[trigger] terms@[i]).live_before(self@).contains(v),
    {
        let mut vars: Vec<Var> = Vec::new();
        let mut i: usize = 0;
        while i < terms.len()
            invariant
                0 <= i <= terms@.len(),
                forall|v: Var|
                    vars@.to_set().contains(v) <==> exists|k: int|
                        0 <= k < i && (#[trigger] terms@[k]).live_before(self@).contains(v),
            decreases terms.len() - i,
        {
            let before_term = terms[i].adjust_live_vars(copy_vars(&self.vars));
            let ghost old_vars = vars@;
            vars = union_vars(vars, &before_term);
            proof {
                assert forall|v: Var|
                    vars@.to_set().contains(v) <==> exists|k: int|
                        0 <= k < i + 1 && (#[trigger] terms@[k]).live_before(self@).contains(v) by {
                    if terms@[i as int].live_before(self@).contains(v) {
                        assert(0 <= i < i + 1);
                    }
                    if exists|k: int|
                        0 <= k < i + 1 && (#[trigger] terms@[k]).live_before(self@).contains(v) {
                        let k = choose|k: int|
                            0 <= k < i + 1 && (#[trigger] terms@[k]).live_before(self@).contains(
                                v,
                            );
                        if k < i {
                            assert(old_vars.to_set().contains(v));
                        }
                    }
                }
            }
            i += 1;
        }
        LivePlaces { vars }
    }

    /// The same live variables but `v`.
    pub fn without(self, v: Var) -> (r: LivePlaces)
        ensures
            r@ == self@.remove(v),
    {
        LivePlaces { vars: without_var(self.vars, v) }
    }

    /// The live variables, each at least once.
    pub fn vars(&self) -> (r: &Vec<Var>)
        ensures
            r@.to_set() == self@,
    {
        &self.vars
    }
}

} // verus!
