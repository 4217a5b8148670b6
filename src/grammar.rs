use vstd::prelude::*;

verus! {

/// An interned name of a value (a local variable or a class).
#[derive(Clone, Copy, Debug, PartialEq, Eq, Structural)]
pub struct ValueId(pub u64);

/// An interned name of a field.
#[derive(Clone, Copy, Debug, PartialEq, Eq, Structural)]
pub struct FieldId(pub u64);

/// An interned name of a method.
#[derive(Clone, Copy, Debug, PartialEq, Eq, Structural)]
pub struct MethodId(pub u64);

/// The base variable of a place.
#[derive(Clone, Copy, Debug, PartialEq, Eq, Structural)]
pub enum Var {
    /// `self`
    This,
    /// The return value of a function.
    Return,
    /// A value in the process of being moved.
    InFlight,
    /// A fresh value introduced during type check.
    Fresh(u64),
    /// A user-named variable.
    Id(ValueId),
}

/// One step of a place: a field projection.
#[derive(Clone, Copy, Debug, PartialEq, Eq, Structural)]
pub enum Projection {
    Field(FieldId),
}

/// An access path: a variable followed by field projections (`x.y.z`).
#[derive(Debug)]
pub struct Place {
    pub var: Var,
    pub projections: Vec<Projection>,
}

/// The mathematical value of a place.
pub type PlaceV = (Var, Seq<Projection>);

impl View for Place {
    type V = PlaceV;

    open spec fn view(&self) -> PlaceV {
        (self.var, self.projections@)
    }
}

/// `p` is a prefix of `q` (or equal to it): same variable, and `p`'s
/// projections start `q`'s.
pub open spec fn place_prefix(p: PlaceV, q: PlaceV) -> bool {
    &&& p.0 == q.0
    &&& p.1.len() <= q.1.len()
    &&& forall|i: int| 0 <= i < p.1.len() ==> p.1[i] == q.1[i]
}

/// One of `p`, `q` is a prefix of the other.
pub open spec fn place_overlapping(p: PlaceV, q: PlaceV) -> bool {
    place_prefix(p, q) || place_prefix(q, p)
}

/// The place made of `p`'s variable and its first `n` projections.
pub open spec fn place_truncated(p: PlaceV, n: int) -> PlaceV {
    (p.0, p.1.subrange(0, n))
}

/// The views of a sequence of places.
pub open spec fn places_view(ps: Seq<Place>) -> Seq<PlaceV> {
    ps.map_values(|p: Place| p@)
}

/// Copies the first `n` projections of `v`.
fn projections_prefix(v: &Vec<Projection>, n: usize) -> (r: Vec<Projection>)
    requires
        n <= v.len(),
    ensures
        r@ == v@.subrange(0, n as int),
{
    let mut r: Vec<Projection> = Vec::new();
    let mut i: usize = 0;
    while i < n
        invariant
            0 <= i <= n <= v.len(),
            r@ == v@.subrange(0, i as int),
        decreases n - i,
    {
        r.push(v[i]);
        i += 1;
        assert(r@ =~= v@.subrange(0, i as int));
    }
    r
}

impl Clone for Place {
    fn clone(&self) -> (r: Place)
        ensures
            r@ == self@,
    {
        let projections = projections_prefix(&self.projections, self.projections.len());
        assert(projections@ =~= self.projections@);
        Place { var: self.var, projections }
    }
}

impl Place {
    /// A place that is just the variable `var`.
    pub fn from_var(var: Var) -> (r: Place)
        ensures
            r@ == (var, Seq::<Projection>::empty()),
    {
        Place { var, projections: Vec::new() }
    }

    /// True if `self` is a prefix of `place` or `place` is a prefix of `self`.
    pub fn is_overlapping_with(&self, place: &Place) -> (r: bool)
        ensures
            r == place_overlapping(self@, place@),
    {
        self.is_prefix_of(place) || place.is_prefix_of(self)
    }

    /// True if `self` is disjoint from `place`.
    pub fn is_disjoint_from(&self, place: &Place) -> (r: bool)
        ensures
            r == !place_overlapping(self@, place@),
    {
        !self.is_overlapping_with(place)
    }

    /// True if self is a prefix of `place` (and not equal to it).
    pub fn is_strict_prefix_of(&self, place: &Place) -> (r: bool)
        ensures
            r == (place_prefix(self@, place@) && self@ != place@),
    {
        let r = self.projections.len() < place.projections.len() && self.is_prefix_of(place);
        proof {
            if place_prefix(self@, place@) && self@.1.len() == place@.1.len() {
                assert(self@.1 =~= place@.1);
            }
        }
        r
    }

    /// True if self is a prefix of `place` (or equal to it).
    pub fn is_prefix_of(&self, place: &Place) -> (r: bool)
        ensures
            r == place_prefix(self@, place@),
    {
        if self.var != place.var || self.projections.len() > place.projections.len() {
            return false;
        }
        let mut i: usize = 0;
        while i < self.projections.len()
            invariant
                0 <= i <= self.projections.len() <= place.projections.len(),
                self.var == place.var,
                forall|k: int| 0 <= k < i ==> self.projections@[k] == place.projections@[k],
            decreases self.projections.len() - i,
        {
            if self.projections[i] != place.projections[i] {
                return false;
            }
            i += 1;
        }
        true
    }

    /// Extends this place by one projection.
    pub fn project(&self, projection: Projection) -> (r: Place)
        ensures
            r@ == (self.var, self.projections@.push(projection)),
    {
        let mut projections = projections_prefix(&self.projections, self.projections.len());
        assert(projections@ =~= self.projections@);
        projections.push(projection);
        Place { var: self.var, projections }
    }

    /// Returns all "strict prefixes" of this place, shortest first: for
    /// `foo.bar.baz`, `[foo, foo.bar]` (but not `foo.bar.baz`).
    pub fn strict_prefixes(&self) -> (r: Vec<Place>)
        ensures
            r@.len() == self.projections@.len(),
            forall|i: int|
                0 <= i < r@.len() ==> #[trigger] r@[i]@ == place_truncated(self@, i),
    {
        let mut r: Vec<Place> = Vec::new();
        let mut i: usize = 0;
        while i < self.projections.len()
            invariant
                0 <= i <= self.projections.len(),
                r@.len() == i,
                forall|k: int| 0 <= k < i ==> #[trigger] r@[k]@ == place_truncated(self@, k),
            decreases self.projections.len() - i,
        {
            let projections = projections_prefix(&self.projections, i);
            r.push(Place { var: self.var, projections });
            i += 1;
        }
        r
    }

    /// Returns this place without its last projection (given `a.b.c`, `a.b`),
    /// or `None` for a bare variable.
    pub fn owner(&self) -> (r: Option<Place>)
        ensures
            self.projections@.len() == 0 <==> r is None,
            r matches Some(p) ==> p@ == place_truncated(self@, self.projections@.len() - 1),
    {
        match self.owner_field() {
            Some(pair) => Some(pair.0),
            None => None,
        }
    }

    /// Returns this place without its last projection, together with that
    /// projection (given `a.b.c`, `(a.b, .c)`), or `None` for a bare variable.
    pub fn owner_field(&self) -> (r: Option<(Place, Projection)>)
        ensures
            self.projections@.len() == 0 <==> r is None,
            r matches Some(pair) ==> {
                &&& pair.0@ == place_truncated(self@, self.projections@.len() - 1)
                &&& pair.1 == self.projections@.last()
            },
    {
        let n = self.projections.len();
        if n == 0 {
            None
        } else {
            let projections = projections_prefix(&self.projections, n - 1);
            Some((Place { var: self.var, projections }, self.projections[n - 1]))
        }
    }
}

impl Var {
    /// The place `self.f`.
    pub fn dot(&self, f: FieldId) -> (r: Place)
        ensures
            r@ == (*self, seq![Projection::Field(f)]),
    {
        let mut projections: Vec<Projection> = Vec::new();
        projections.push(Projection::Field(f));
        assert(projections@ =~= seq![Projection::Field(f)]);
        Place { var: *self, projections }
    }
}


/// The kind of a generic parameter.
#[derive(Clone, Copy, Debug, PartialEq, Eq, Structural)]
pub enum Kind {
    Ty,
    Perm,
}

/// A type or permission variable.
#[derive(Clone, Copy, Debug, PartialEq, Eq, Structural)]
pub enum Variable {
    /// A rigid variable chosen by the caller, numbered in the universe.
    UniversalVar(Kind, u64),
    /// A placeholder to be solved, numbered in the universe.
    ExistentialVar(Kind, u64),
    /// The generic parameter at this index of the enclosing declaration.
    BoundVar(Kind, u64),
}

/// A kind of access to a place.
#[derive(Clone, Copy, Debug, PartialEq, Eq, Structural)]
pub enum Access {
    /// `ref`
    Rf,
    /// `share`
    Sh,
    /// `move`
    Mv,
    /// `mut`
    Mt,
    /// `drop`
    Drop,
}

impl Access {
    /// A move (or drop) becomes a drop; other accesses stay as they are.
    pub fn move_to_drop(self) -> (r: Access)
        ensures
            r == (if self is Mv || self is Drop {
                Access::Drop
            } else {
                self
            }),
    {
        match self {
            Access::Sh | Access::Rf | Access::Mt => self,
            Access::Mv | Access::Drop => Access::Drop,
        }
    }
}

/// A permission: a qualifier on a type.
#[derive(Debug)]
pub enum Perm {
    /// `my`: uniquely owned.
    My,
    /// `our`: owned and shared, hence copyable.
    Our,
    /// `moved[places]`: given from the listed places.
    Mv(Vec<Place>),
    /// `ref[places]`: shared from the listed places.
    Rf(Vec<Place>),
    /// `mut[places]`: leased from the listed places.
    Mt(Vec<Place>),
    /// A permission variable.
    Var(Variable),
    /// `p q`: the permission `q` applied under `p`.
    Apply(Box<Perm>, Box<Perm>),
}

/// The name of a named type.
#[derive(Clone, Copy, Debug, PartialEq, Eq, Structural)]
pub enum TypeName {
    /// A tuple of the given arity.
    Tuple(u64),
    Int,
    /// A class.
    Id(ValueId),
}

/// A type.
#[derive(Debug)]
pub enum Ty {
    NamedTy(NamedTy),
    Var(Variable),
    /// `perm ty`
    ApplyPerm(Perm, Box<Ty>),
}

/// A class, tuple or `Int` with its generic arguments.
#[derive(Debug)]
pub struct NamedTy {
    pub name: TypeName,
    pub parameters: Vec<Parameter>,
}

/// A generic argument: a type or a permission.
#[derive(Debug)]
pub enum Parameter {
    Ty(Ty),
    Perm(Perm),
}

/// The type with its permission qualifiers removed.
pub open spec fn strip_perm_spec(t: Ty) -> Ty
    decreases t,
{
    match t {
        Ty::ApplyPerm(_, inner) => strip_perm_spec(*inner),
        _ => t,
    }
}

impl Ty {
    /// The unit type: the empty tuple.
    pub fn unit() -> (r: Ty)
        ensures
            r matches Ty::NamedTy(n) && n.name == TypeName::Tuple(0) && n.parameters@.len() == 0,
    {
        Ty::NamedTy(NamedTy { name: TypeName::Tuple(0), parameters: Vec::new() })
    }

    /// The integer type.
    pub fn integer() -> (r: Ty)
        ensures
            r matches Ty::NamedTy(n) && n.name == TypeName::Int && n.parameters@.len() == 0,
    {
        Ty::NamedTy(NamedTy { name: TypeName::Int, parameters: Vec::new() })
    }

    /// The tuple of the given element types.
    pub fn tuple(parameters: Vec<Ty>) -> (r: Ty)
        requires
            parameters@.len() <= u64::MAX,
        ensures
            r matches Ty::NamedTy(n) && {
                &&& n.name == TypeName::Tuple(parameters@.len() as u64)
                &&& n.parameters@.len() == parameters@.len()
                &&& forall|i: int|
                    0 <= i < parameters@.len() ==> #[trigger] n.parameters@[i] == Parameter::Ty(
                        parameters@[i],
                    )
            },
    {
        let n = parameters.len();
        let mut rest = parameters;
        let mut reversed: Vec<Parameter> = Vec::new();
        while rest.len() > 0
            invariant
                rest@.len() + reversed@.len() == n,
                n == parameters@.len(),
                rest@ == parameters@.subrange(0, rest@.len() as int),
                forall|i: int|
                    0 <= i < reversed@.len() ==> #[trigger] reversed@[i] == Parameter::Ty(
                        parameters@[n - 1 - i],
                    ),
            decreases rest.len(),
        {
            let t = rest.pop().unwrap();
            reversed.push(Parameter::Ty(t));
        }
        let mut params: Vec<Parameter> = Vec::new();
        while reversed.len() > 0
            invariant
                reversed@.len() + params@.len() == n,
                n == parameters@.len(),
                forall|i: int|
                    0 <= i < reversed@.len() ==> #[trigger] reversed@[i] == Parameter::Ty(
                        parameters@[n - 1 - i],
                    ),
                forall|i: int|
                    0 <= i < params@.len() ==> #[trigger] params@[i] == Parameter::Ty(
                        parameters@[i],
                    ),
            decreases reversed.len(),
        {
            let p = reversed.pop().unwrap();
            params.push(p);
        }
        Ty::NamedTy(NamedTy { name: TypeName::Tuple(n as u64), parameters: params })
    }

    /// The type without its permission qualifiers.
    pub fn strip_perm(&self) -> (r: &Ty)
        ensures
            *r == strip_perm_spec(*self),
        decreases self,
    {
        match self {
            Ty::NamedTy(_) | Ty::Var(_) => self,
            Ty::ApplyPerm(_, ty) => ty.strip_perm(),
        }
    }
}

impl Parameter {
    /// True if this parameter is the variable `v`.
    pub fn is_var(&self, v: Variable) -> (r: bool)
        ensures
            r == (*self == Parameter::Ty(Ty::Var(v)) || *self == Parameter::Perm(Perm::Var(v))),
    {
        match self {
            Parameter::Ty(Ty::Var(u)) => *u == v,
            Parameter::Perm(Perm::Var(u)) => *u == v,
            _ => false,
        }
    }

    /// Whether this parameter is a type or a permission.
    pub fn kind(&self) -> (r: Kind)
        ensures
            r == (if *self is Ty {
                Kind::Ty
            } else {
                Kind::Perm
            }),
    {
        match self {
            Parameter::Ty(_) => Kind::Ty,
            Parameter::Perm(_) => Kind::Perm,
        }
    }
}

/// The predicates that a parameter may be proved or assumed to meet.
#[derive(Clone, Copy, Debug, PartialEq, Eq, Structural)]
pub enum ParameterPredicate {
    /// Copied rather than moved when given (`copy`).
    Shared,
    /// Moved rather than copied when given (`move`).
    Unique,
    /// Holds no lent values.
    Owned,
    /// Holds a leased or shared value.
    Lent,
}

/// How a class may be used.
#[derive(Clone, Copy, Debug, PartialEq, Eq, Structural)]
pub enum ClassPredicate {
    /// May have a destructor; cannot be shared.
    Guard,
    /// The default: unique, but may be shared.
    Share,
    /// A value type, shared by default.
    Our,
}

/// Variance obligations on generic parameters.
#[derive(Clone, Copy, Debug, PartialEq, Eq, Structural)]
pub enum VarianceKind {
    /// The parameter appears under a permission other than `my`.
    Relative,
    /// The parameter appears in an atomic field.
    Atomic,
}

/// A predicate on a parameter, as written in `where` clauses.
#[derive(Debug)]
pub enum Predicate {
    Parameter(ParameterPredicate, Parameter),
    Class(ClassPredicate, Parameter),
    Variance(VarianceKind, Parameter),
}

impl Predicate {
    /// `copy(parameter)`
    pub fn shared(parameter: Parameter) -> (r: Predicate)
        ensures
            r == Predicate::Parameter(ParameterPredicate::Shared, parameter),
    {
        Predicate::Parameter(ParameterPredicate::Shared, parameter)
    }

    /// `move(parameter)`
    pub fn move_(parameter: Parameter) -> (r: Predicate)
        ensures
            r == Predicate::Parameter(ParameterPredicate::Unique, parameter),
    {
        Predicate::Parameter(ParameterPredicate::Unique, parameter)
    }

    /// `owned(parameter)`
    pub fn owned(parameter: Parameter) -> (r: Predicate)
        ensures
            r == Predicate::Parameter(ParameterPredicate::Owned, parameter),
    {
        Predicate::Parameter(ParameterPredicate::Owned, parameter)
    }

    /// `lent(parameter)`
    pub fn lent(parameter: Parameter) -> (r: Predicate)
        ensures
            r == Predicate::Parameter(ParameterPredicate::Lent, parameter),
    {
        Predicate::Parameter(ParameterPredicate::Lent, parameter)
    }
}

impl ClassPredicate {
    /// This class predicate applied to `parameter`.
    pub fn apply(self, parameter: Parameter) -> (r: Predicate)
        ensures
            r == Predicate::Class(self, parameter),
    {
        Predicate::Class(self, parameter)
    }
}

impl VarianceKind {
    /// This variance predicate applied to `parameter`.
    pub fn apply(self, parameter: Parameter) -> (r: Predicate)
        ensures
            r == Predicate::Variance(self, parameter),
    {
        Predicate::Variance(self, parameter)
    }
}

/// Whether a field is atomic.
#[derive(Clone, Copy, Debug, PartialEq, Eq, Structural)]
pub enum Atomic {
    No,
    Yes,
}

/// `name: ty;` inside a class.
#[derive(Debug)]
pub struct FieldDecl {
    pub atomic: Atomic,
    pub name: FieldId,
    pub ty: Ty,
}

/// `name: ty`, a local variable or a method input.
#[derive(Debug)]
pub struct LocalVariableDecl {
    pub name: ValueId,
    pub ty: Ty,
}

/// `perm self`
#[derive(Debug)]
pub struct ThisDecl {
    pub perm: Perm,
}

/// `{ statements }`
#[derive(Debug)]
pub struct Block {
    pub statements: Vec<Statement>,
}

/// The optional type written on a `let`.
#[derive(Debug)]
pub enum Ascription {
    NoTy,
    Ty(Ty),
}

/// A statement.
#[derive(Debug)]
pub enum Statement {
    /// `expr;`
    Expr(Expr),
    /// `let name [: ty] = expr;`
    Let(ValueId, Ascription, Box<Expr>),
    /// `place = expr;`
    Reassign(Place, Expr),
    /// `loop { expr }`
    Loop(Box<Expr>),
    /// `break;`
    Break,
    /// `return expr;`
    Return(Expr),
}

/// `place.access`
#[derive(Debug)]
pub struct PlaceExpr {
    pub place: Place,
    pub access: Access,
}

/// An expression.
#[derive(Debug)]
pub enum Expr {
    Block(Block),
    Integer(usize),
    /// `lhs + rhs`
    Add(Box<Expr>, Box<Expr>),
    Place(PlaceExpr),
    /// `expr.share`
    Share(Box<Expr>),
    /// `(exprs)`
    Tuple(Vec<Expr>),
    /// `receiver.method[parameters](arguments)`
    Call(Box<Expr>, MethodId, Vec<Parameter>, Vec<Expr>),
    /// `new Class[parameters](arguments)`
    New(ValueId, Vec<Parameter>, Vec<Expr>),
    /// `$clear(variable)`
    Clear(ValueId),
    /// `if cond then_expr else else_expr`
    If(Box<Expr>, Box<Expr>, Box<Expr>),
    /// `!`: panics; has any type.
    Panic,
}

/// The body of a method.
#[derive(Debug)]
pub enum MethodBody {
    /// `...;`: trusted, not checked.
    Trusted,
    Block(Block),
}

/// What a method declares under its generic parameters.
#[derive(Debug)]
pub struct MethodDeclBoundData {
    pub this: ThisDecl,
    pub inputs: Vec<LocalVariableDecl>,
    pub output: Ty,
    pub predicates: Vec<Predicate>,
    pub body: MethodBody,
}

/// `fn name[generics](...) -> ... { ... }`
#[derive(Debug)]
pub struct MethodDecl {
    pub name: MethodId,
    /// The kinds of the generic parameters, referred to as `Variable::BoundVar`.
    pub generics: Vec<Kind>,
    pub data: MethodDeclBoundData,
}

/// What a class declares under its generic parameters.
#[derive(Debug)]
pub struct ClassDeclBoundData {
    pub predicates: Vec<Predicate>,
    pub fields: Vec<FieldDecl>,
    pub methods: Vec<MethodDecl>,
}

/// `[predicate] class name[generics] { fields methods }`
#[derive(Debug)]
pub struct ClassDecl {
    pub name: ValueId,
    pub class_predicate: ClassPredicate,
    /// The kinds of the generic parameters, referred to as `Variable::BoundVar`.
    pub generics: Vec<Kind>,
    pub data: ClassDeclBoundData,
}

/// A top-level declaration.
#[derive(Debug)]
pub enum Decl {
    ClassDecl(ClassDecl),
}

/// A whole program: its declarations.
#[derive(Debug)]
pub struct Program {
    pub decls: Vec<Decl>,
}

impl Program {
    /// The first class declared with the given name, if any.
    pub fn class_named(&self, name: ValueId) -> (r: Option<&ClassDecl>)
        ensures
            r is None <==> forall|i: int|
                0 <= i < self.decls@.len() ==> !(#[trigger] self.decls@[i] matches Decl::ClassDecl(
                    c,
                ) && c.name == name),
            r matches Some(c) ==> exists|i: int|
                0 <= i < self.decls@.len() && #[trigger] self.decls@[i] == Decl::ClassDecl(*c)
                    && c.name == name && forall|j: int|
                    0 <= j < i ==> !(#[trigger] self.decls@[j] matches Decl::ClassDecl(d)
                        && d.name == name),
    {
        let mut i: usize = 0;
        while i < self.decls.len()
            invariant
                0 <= i <= self.decls@.len(),
                forall|j: int|
                    0 <= j < i ==> !(#[trigger] self.decls@[j] matches Decl::ClassDecl(d) && d.name
                        == name),
            decreases self.decls.len() - i,
        {
            match &self.decls[i] {
                Decl::ClassDecl(c) => {
                    if c.name == name {
                        return Some(c);
                    }
                },
            }
            i += 1;
        }
        None
    }
}

/// Prefix is transitive: if `p` is a prefix of `q` and `q` of `r`, then `p`
/// is a prefix of `r`.
pub proof fn lemma_prefix_transitive(p: PlaceV, q: PlaceV, r: PlaceV)
    requires
        place_prefix(p, q),
        place_prefix(q, r),
    ensures
        place_prefix(p, r),
{
    assert forall|i: int| 0 <= i < p.1.len() implies p.1[i] == r.1[i] by {
        assert(p.1[i] == q.1[i]);
    }
}

/// Disjointness is symmetric: `p` is disjoint from `q` exactly when `q` is
/// disjoint from `p`.
pub proof fn lemma_disjoint_symmetric(p: PlaceV, q: PlaceV)
    ensures
        !place_overlapping(p, q) == !place_overlapping(q, p),
{
}

} // verus!
