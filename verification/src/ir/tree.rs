//! The IR's programs, expressions and patterns.
//!
//! The IR uses A-Normal Form (ANF) where all intermediate values are
//! explicitly bound to variables. This makes code generation straightforward.

use vstd::prelude::*;
use super::base::{Primitive, VarId};
use crate::types::model::TypeV;
use crate::types::repr::{Type, con0};

verus! {

// ========== The IR ==========

/// A complete IR program.
#[derive(Debug)]
pub struct IRProgram {
    /// Top-level declarations
    pub decls: Vec<IRDecl>,
}

/// A top-level declaration in the IR.
#[derive(Debug)]
pub enum IRDecl {
    /// Value binding: name, type, expression
    Val { name: String, ty: Type, value: IRExpr },
    /// Function binding
    Fun { name: String, ty: Type, params: Vec<(VarId, Type)>, body: IRExpr },
    /// Data type definition (for runtime representation)
    Data { name: String, params: Vec<String>, constructors: Vec<(String, Option<Type>)> },
}

/// An IR expression in A-Normal Form.
///
/// In ANF, all intermediate computations are bound to variables.
/// Complex expressions are broken down into sequences of let bindings.
#[derive(Debug)]
pub enum IRExpr {
    /// Literal value
    Lit(IRLiteral, Type),
    /// Variable reference
    Var(VarId, Type),
    /// Named variable reference (for top-level bindings)
    Global(String, Type),
    /// Let binding: let var = value in body
    Let { var: VarId, ty: Type, value: Box<IRExpr>, body: Box<IRExpr> },
    /// Recursive let binding
    LetRec { bindings: Vec<Binding>, body: Box<IRExpr> },
    /// Lambda: fn (param: ty) -> body
    Lambda { param: VarId, param_ty: Type, body: Box<IRExpr>, result_ty: Type },
    /// Function application (must be a value applied to a value in ANF)
    App { func: Box<IRExpr>, arg: Box<IRExpr>, result_ty: Type },
    /// Conditional
    If { cond: Box<IRExpr>, then_branch: Box<IRExpr>, else_branch: Box<IRExpr>, ty: Type },
    /// Pattern match
    Match { scrutinee: Box<IRExpr>, arms: Vec<(IRPattern, IRExpr)>, ty: Type },
    /// Primitive operation
    Prim { op: Primitive, args: Vec<IRExpr>, ty: Type },
    /// Data constructor application
    Construct { ctor: String, arg: Option<Box<IRExpr>>, ty: Type },
    /// Tuple construction
    Tuple { elems: Vec<IRExpr>, ty: Type },
    /// Tuple projection
    TupleProj { tuple: Box<IRExpr>, index: usize, ty: Type },
    /// Record construction
    Record { fields: Vec<(String, IRExpr)>, ty: Type },
    /// Record field access
    Field { record: Box<IRExpr>, field: String, ty: Type },
    /// Shell command, its text and interpolations, with an optional input
    Command { parts: Vec<IRCommandPart>, stdin: Option<Box<IRExpr>>, ty: Type },
    /// Unit value
    Unit,
}

/// A binding in a letrec.
#[derive(Debug)]
pub struct Binding {
    pub var: VarId,
    pub ty: Type,
    pub value: IRExpr,
}

/// A literal value in the IR.
#[derive(Debug, PartialEq)]
pub enum IRLiteral {
    Int(i64),
    /// A float, held as its digits (see the lexer's float tokens)
    Float(String),
    String(String),
    Char(char),
    Bool(bool),
}

/// An IR pattern for match expressions.
#[derive(Debug)]
pub enum IRPattern {
    /// Wildcard: matches anything
    Wildcard,
    /// Variable binding
    Var(VarId, Type),
    /// Literal pattern
    Lit(IRLiteral),
    /// Constructor pattern
    Con { ctor: String, arg: Option<Box<IRPattern>> },
    /// Tuple pattern
    Tuple(Vec<IRPattern>),
    /// Record pattern
    Record(Vec<(String, IRPattern)>),
}

/// A part of a shell command in the IR.
#[derive(Debug)]
pub enum IRCommandPart {
    /// Literal text
    Literal(String),
    /// An interpolated value
    Interpolation(Box<IRExpr>),
}

// ========== The IR as values ==========

pub enum LitV {
    Int(i64),
    Float(Seq<char>),
    Str(Seq<char>),
    Char(char),
    Bool(bool),
}

pub enum PatV {
    Wildcard,
    Var(VarId, TypeV),
    Lit(LitV),
    Con(Seq<char>, Option<Box<PatV>>),
    Tuple(Seq<PatV>),
    Record(Seq<(Seq<char>, PatV)>),
}

pub enum PartV {
    Literal(Seq<char>),
    Interpolation(Box<IrV>),
}

pub enum IrV {
    Lit(LitV, TypeV),
    Var(VarId, TypeV),
    Global(Seq<char>, TypeV),
    Let(VarId, TypeV, Box<IrV>, Box<IrV>),
    LetRec(Seq<(VarId, TypeV, IrV)>, Box<IrV>),
    Lambda(VarId, TypeV, Box<IrV>, TypeV),
    App(Box<IrV>, Box<IrV>, TypeV),
    If(Box<IrV>, Box<IrV>, Box<IrV>, TypeV),
    Match(Box<IrV>, Seq<(PatV, IrV)>, TypeV),
    Prim(Primitive, Seq<IrV>, TypeV),
    Construct(Seq<char>, Option<Box<IrV>>, TypeV),
    Tuple(Seq<IrV>, TypeV),
    TupleProj(Box<IrV>, usize, TypeV),
    Record(Seq<(Seq<char>, IrV)>, TypeV),
    Field(Box<IrV>, Seq<char>, TypeV),
    Command(Seq<PartV>, Option<Box<IrV>>, TypeV),
    Unit,
}

impl View for IRLiteral {
    type V = LitV;

    open spec fn view(&self) -> LitV {
        match self {
            IRLiteral::Int(n) => LitV::Int(*n),
            IRLiteral::Float(s) => LitV::Float(s@),
            IRLiteral::String(s) => LitV::Str(s@),
            IRLiteral::Char(c) => LitV::Char(*c),
            IRLiteral::Bool(b) => LitV::Bool(*b),
        }
    }
}

pub open spec fn pview(p: IRPattern) -> PatV
    decreases p,
{
    match p {
        IRPattern::Wildcard => PatV::Wildcard,
        IRPattern::Var(v, t) => PatV::Var(v, t@),
        IRPattern::Lit(l) => PatV::Lit(l@),
        IRPattern::Con { ctor, arg } => PatV::Con(ctor@, match arg {
            Some(a) => Some(Box::new(pview(*a))),
            None => None,
        }),
        IRPattern::Tuple(ps) => PatV::Tuple(pview_seq(ps@)),
        IRPattern::Record(fs) => PatV::Record(pview_fields(fs@)),
    }
}

pub open spec fn pview_seq(s: Seq<IRPattern>) -> Seq<PatV>
    decreases s,
{
    if s.len() == 0 { Seq::empty() } else { pview_seq(s.drop_last()).push(pview(s.last())) }
}

pub open spec fn pview_fields(s: Seq<(String, IRPattern)>) -> Seq<(Seq<char>, PatV)>
    decreases s,
{
    if s.len() == 0 { Seq::empty() } else { pview_fields(s.drop_last()).push((s.last().0@, pview(s.last().1))) }
}

impl View for IRPattern {
    type V = PatV;

    open spec fn view(&self) -> PatV {
        pview(*self)
    }
}

pub open spec fn eview(e: IRExpr) -> IrV
    decreases e,
{
    match e {
        IRExpr::Lit(l, t) => IrV::Lit(l@, t@),
        IRExpr::Var(v, t) => IrV::Var(v, t@),
        IRExpr::Global(n, t) => IrV::Global(n@, t@),
        IRExpr::Let { var, ty, value, body } => IrV::Let(var, ty@, Box::new(eview(*value)), Box::new(eview(*body))),
        IRExpr::LetRec { bindings, body } => IrV::LetRec(bview_seq(bindings@), Box::new(eview(*body))),
        IRExpr::Lambda { param, param_ty, body, result_ty } => IrV::Lambda(param, param_ty@, Box::new(eview(*body)), result_ty@),
        IRExpr::App { func, arg, result_ty } => IrV::App(Box::new(eview(*func)), Box::new(eview(*arg)), result_ty@),
        IRExpr::If { cond, then_branch, else_branch, ty } =>
            IrV::If(Box::new(eview(*cond)), Box::new(eview(*then_branch)), Box::new(eview(*else_branch)), ty@),
        IRExpr::Match { scrutinee, arms, ty } => IrV::Match(Box::new(eview(*scrutinee)), aview_seq(arms@), ty@),
        IRExpr::Prim { op, args, ty } => IrV::Prim(op, eview_seq(args@), ty@),
        IRExpr::Construct { ctor, arg, ty } => IrV::Construct(ctor@, match arg {
            Some(a) => Some(Box::new(eview(*a))),
            None => None,
        }, ty@),
        IRExpr::Tuple { elems, ty } => IrV::Tuple(eview_seq(elems@), ty@),
        IRExpr::TupleProj { tuple, index, ty } => IrV::TupleProj(Box::new(eview(*tuple)), index, ty@),
        IRExpr::Record { fields, ty } => IrV::Record(fview_seq(fields@), ty@),
        IRExpr::Field { record, field, ty } => IrV::Field(Box::new(eview(*record)), field@, ty@),
        IRExpr::Command { parts, stdin, ty } => IrV::Command(cview_seq(parts@), match stdin {
            Some(s) => Some(Box::new(eview(*s))),
            None => None,
        }, ty@),
        IRExpr::Unit => IrV::Unit,
    }
}

pub open spec fn eview_seq(s: Seq<IRExpr>) -> Seq<IrV>
    decreases s,
{
    if s.len() == 0 { Seq::empty() } else { eview_seq(s.drop_last()).push(eview(s.last())) }
}

pub open spec fn bview_seq(s: Seq<Binding>) -> Seq<(VarId, TypeV, IrV)>
    decreases s,
{
    if s.len() == 0 {
        Seq::empty()
    } else {
        bview_seq(s.drop_last()).push((s.last().var, s.last().ty@, eview(s.last().value)))
    }
}

pub open spec fn aview_seq(s: Seq<(IRPattern, IRExpr)>) -> Seq<(PatV, IrV)>
    decreases s,
{
    if s.len() == 0 { Seq::empty() } else { aview_seq(s.drop_last()).push((s.last().0@, eview(s.last().1))) }
}

pub open spec fn fview_seq(s: Seq<(String, IRExpr)>) -> Seq<(Seq<char>, IrV)>
    decreases s,
{
    if s.len() == 0 { Seq::empty() } else { fview_seq(s.drop_last()).push((s.last().0@, eview(s.last().1))) }
}

pub open spec fn cview(p: IRCommandPart) -> PartV
    decreases p,
{
    match p {
        IRCommandPart::Literal(s) => PartV::Literal(s@),
        IRCommandPart::Interpolation(e) => PartV::Interpolation(Box::new(eview(*e))),
    }
}

pub open spec fn cview_seq(s: Seq<IRCommandPart>) -> Seq<PartV>
    decreases s,
{
    if s.len() == 0 { Seq::empty() } else { cview_seq(s.drop_last()).push(cview(s.last())) }
}

impl View for IRExpr {
    type V = IrV;

    open spec fn view(&self) -> IrV {
        eview(*self)
    }
}

/// A declaration as a value.
pub enum DeclV {
    Val(Seq<char>, TypeV, IrV),
    Fun(Seq<char>, TypeV, Seq<(VarId, TypeV)>, IrV),
    Data(Seq<char>, Seq<Seq<char>>, Seq<(Seq<char>, Option<TypeV>)>),
}

impl View for IRDecl {
    type V = DeclV;

    open spec fn view(&self) -> DeclV {
        match self {
            IRDecl::Val { name, ty, value } => DeclV::Val(name@, ty@, value@),
            IRDecl::Fun { name, ty, params, body } =>
                DeclV::Fun(name@, ty@, params@.map_values(|p: (VarId, Type)| (p.0, p.1@)), body@),
            IRDecl::Data { name, params, constructors } => DeclV::Data(
                name@,
                params@.map_values(|p: String| p@),
                constructors@.map_values(|c: (String, Option<Type>)| (c.0@, match c.1 {
                    Some(t) => Some(t@),
                    None => None,
                })),
            ),
        }
    }
}

/// The declarations of a program, as values.
pub open spec fn decls_view(s: Seq<IRDecl>) -> Seq<DeclV> {
    s.map_values(|d: IRDecl| d@)
}

impl View for IRCommandPart {
    type V = PartV;

    open spec fn view(&self) -> PartV {
        cview(*self)
    }
}

pub proof fn lemma_eview_seq(s: Seq<IRExpr>)
    ensures
        eview_seq(s).len() == s.len(),
        forall|i: int| 0 <= i < s.len() ==> #[trigger] eview_seq(s)[i] == eview(s[i]),
    decreases s.len(),
{
    if s.len() > 0 {
        lemma_eview_seq(s.drop_last());
    }
}

pub proof fn lemma_bview_seq(s: Seq<Binding>)
    ensures
        bview_seq(s).len() == s.len(),
        forall|i: int| 0 <= i < s.len() ==> #[trigger] bview_seq(s)[i] == (s[i].var, s[i].ty@, eview(s[i].value)),
    decreases s.len(),
{
    if s.len() > 0 {
        lemma_bview_seq(s.drop_last());
    }
}

pub proof fn lemma_aview_seq(s: Seq<(IRPattern, IRExpr)>)
    ensures
        aview_seq(s).len() == s.len(),
        forall|i: int| 0 <= i < s.len() ==> #[trigger] aview_seq(s)[i] == (s[i].0@, eview(s[i].1)),
    decreases s.len(),
{
    if s.len() > 0 {
        lemma_aview_seq(s.drop_last());
    }
}

pub proof fn lemma_fview_seq(s: Seq<(String, IRExpr)>)
    ensures
        fview_seq(s).len() == s.len(),
        forall|i: int| 0 <= i < s.len() ==> #[trigger] fview_seq(s)[i] == (s[i].0@, eview(s[i].1)),
    decreases s.len(),
{
    if s.len() > 0 {
        lemma_fview_seq(s.drop_last());
    }
}

pub proof fn lemma_cview_seq(s: Seq<IRCommandPart>)
    ensures
        cview_seq(s).len() == s.len(),
        forall|i: int| 0 <= i < s.len() ==> #[trigger] cview_seq(s)[i] == cview(s[i]),
    decreases s.len(),
{
    if s.len() > 0 {
        lemma_cview_seq(s.drop_last());
    }
}

pub proof fn lemma_pview_seq(s: Seq<IRPattern>)
    ensures
        pview_seq(s).len() == s.len(),
        forall|i: int| 0 <= i < s.len() ==> #[trigger] pview_seq(s)[i] == pview(s[i]),
    decreases s.len(),
{
    if s.len() > 0 {
        lemma_pview_seq(s.drop_last());
    }
}

pub proof fn lemma_pview_fields(s: Seq<(String, IRPattern)>)
    ensures
        pview_fields(s).len() == s.len(),
        forall|i: int| 0 <= i < s.len() ==> #[trigger] pview_fields(s)[i] == (s[i].0@, pview(s[i].1)),
    decreases s.len(),
{
    if s.len() > 0 {
        lemma_pview_fields(s.drop_last());
    }
}

// ========== Queries ==========

/// The type of an expression.
pub open spec fn ir_type(e: IrV) -> TypeV
    decreases e,
{
    match e {
        IrV::Lit(_, t) => t,
        IrV::Var(_, t) => t,
        IrV::Global(_, t) => t,
        IrV::Let(_, _, _, body) => ir_type(*body),
        IrV::LetRec(_, body) => ir_type(*body),
        IrV::Lambda(_, p, _, r) => TypeV::Arrow(Box::new(p), Box::new(r)),
        IrV::App(_, _, t) => t,
        IrV::If(_, _, _, t) => t,
        IrV::Match(_, _, t) => t,
        IrV::Prim(_, _, t) => t,
        IrV::Construct(_, _, t) => t,
        IrV::Tuple(_, t) => t,
        IrV::TupleProj(_, _, t) => t,
        IrV::Record(_, t) => t,
        IrV::Field(_, _, t) => t,
        IrV::Command(_, _, t) => t,
        IrV::Unit => con0("unit"@),
    }
}

/// Values need no computation: literals, variables, lambdas and unit.
pub open spec fn is_value_v(e: IrV) -> bool {
    match e {
        IrV::Lit(..) | IrV::Var(..) | IrV::Global(..) | IrV::Lambda(..) | IrV::Unit => true,
        _ => false,
    }
}

impl IRProgram {
    /// Create a new IR program.
    pub fn new(decls: Vec<IRDecl>) -> (p: Self)
        ensures
            p.decls == decls,
    {
        IRProgram { decls }
    }
}

impl IRExpr {
    /// Get the type of this expression.
    pub fn ty(&self) -> (t: Type)
        ensures
            t@ == ir_type(self@),
        decreases self@,
    {
        match self {
            IRExpr::Lit(_, ty) | IRExpr::Var(_, ty) | IRExpr::Global(_, ty) => ty.clone(),
            IRExpr::Let { body, .. } => {
                assert(decreases_to!(self@ => self@->Let_3));
                body.ty()
            },
            IRExpr::LetRec { body, .. } => {
                assert(decreases_to!(self@ => self@->LetRec_1));
                body.ty()
            },
            IRExpr::Lambda { param_ty, result_ty, .. } => Type::arrow(param_ty.clone(), result_ty.clone()),
            IRExpr::App { result_ty, .. } => result_ty.clone(),
            IRExpr::If { ty, .. }
            | IRExpr::Match { ty, .. }
            | IRExpr::Prim { ty, .. }
            | IRExpr::Construct { ty, .. }
            | IRExpr::Tuple { ty, .. }
            | IRExpr::TupleProj { ty, .. }
            | IRExpr::Record { ty, .. }
            | IRExpr::Field { ty, .. }
            | IRExpr::Command { ty, .. } => ty.clone(),
            IRExpr::Unit => Type::unit(),
        }
    }

    /// Check if this expression is a value (no computation needed).
    pub fn is_value(&self) -> (b: bool)
        ensures
            b == is_value_v(self@),
    {
        match self {
            IRExpr::Lit(..) | IRExpr::Var(..) | IRExpr::Global(..) | IRExpr::Lambda { .. } | IRExpr::Unit => true,
            _ => false,
        }
    }
}


// ========== Copies ==========

fn copy_literal(l: &IRLiteral) -> (r: IRLiteral)
    ensures
        r@ == l@,
{
    match l {
        IRLiteral::Int(n) => IRLiteral::Int(*n),
        IRLiteral::Float(s) => IRLiteral::Float(s.clone()),
        IRLiteral::String(s) => IRLiteral::String(s.clone()),
        IRLiteral::Char(c) => IRLiteral::Char(*c),
        IRLiteral::Bool(b) => IRLiteral::Bool(*b),
    }
}

impl Clone for IRLiteral {
    fn clone(&self) -> (r: Self)
        ensures
            r@ == self@,
    {
        copy_literal(self)
    }
}

fn copy_pattern(p: &IRPattern) -> (r: IRPattern)
    ensures
        r@ == p@,
    decreases p@,
{
    match p {
        IRPattern::Wildcard => IRPattern::Wildcard,
        IRPattern::Var(v, t) => IRPattern::Var(*v, t.clone()),
        IRPattern::Lit(l) => IRPattern::Lit(copy_literal(l)),
        IRPattern::Con { ctor, arg } => {
            let a = match arg {
                Some(x) => {
                    assert(decreases_to!(p@ => p@->Con_1));
                    assert(decreases_to!(p@->Con_1 => (p@->Con_1)->0));
                    Some(Box::new(copy_pattern(x)))
                },
                None => None,
            };
            IRPattern::Con { ctor: ctor.clone(), arg: a }
        },
        IRPattern::Tuple(ps) => {
            assert(decreases_to!(p@ => p@->Tuple_0));
            IRPattern::Tuple(copy_patterns(ps))
        },
        IRPattern::Record(fs) => {
            assert(decreases_to!(p@ => p@->Record_0));
            IRPattern::Record(copy_pattern_fields(fs))
        },
    }
}

fn copy_patterns(ps: &Vec<IRPattern>) -> (r: Vec<IRPattern>)
    ensures
        pview_seq(r@) == pview_seq(ps@),
    decreases pview_seq(ps@),
{
    proof { lemma_pview_seq(ps@); }
    let ghost s = pview_seq(ps@);
    let mut r: Vec<IRPattern> = Vec::new();
    let mut i: usize = 0;
    while i < ps.len()
        invariant
            i <= ps@.len(),
            s == pview_seq(ps@),
            s.len() == ps@.len(),
            forall|j: int| 0 <= j < s.len() ==> #[trigger] s[j] == pview(ps@[j]),
            r@.len() == i,
            forall|j: int| 0 <= j < i ==> pview(#[trigger] r@[j]) == s[j],
        decreases ps.len() - i,
    {
        assert(decreases_to!(s => s[i as int]));
        r.push(copy_pattern(&ps[i]));
        i += 1;
    }
    proof {
        lemma_pview_seq(r@);
        assert(pview_seq(r@) =~= s);
    }
    r
}

fn copy_pattern_fields(fs: &Vec<(String, IRPattern)>) -> (r: Vec<(String, IRPattern)>)
    ensures
        pview_fields(r@) == pview_fields(fs@),
    decreases pview_fields(fs@),
{
    proof { lemma_pview_fields(fs@); }
    let ghost s = pview_fields(fs@);
    let mut r: Vec<(String, IRPattern)> = Vec::new();
    let mut i: usize = 0;
    while i < fs.len()
        invariant
            i <= fs@.len(),
            s == pview_fields(fs@),
            s.len() == fs@.len(),
            forall|j: int| 0 <= j < s.len() ==> #[trigger] s[j] == (fs@[j].0@, pview(fs@[j].1)),
            r@.len() == i,
            forall|j: int| 0 <= j < i ==> (#[trigger] r@[j]).0@ == s[j].0 && pview(r@[j].1) == s[j].1,
        decreases fs.len() - i,
    {
        assert(decreases_to!(s => s[i as int]));
        assert(decreases_to!(s[i as int] => s[i as int].1));
        r.push((fs[i].0.clone(), copy_pattern(&fs[i].1)));
        i += 1;
    }
    proof {
        lemma_pview_fields(r@);
        assert(pview_fields(r@) =~= s);
    }
    r
}

impl Clone for IRPattern {
    fn clone(&self) -> (r: Self)
        ensures
            r@ == self@,
    {
        copy_pattern(self)
    }
}

/// A copy of an expression, node by node.
pub fn copy_expr(e: &IRExpr) -> (r: IRExpr)
    ensures
        r@ == e@,
    decreases e@,
{
    match e {
        IRExpr::Lit(l, t) => IRExpr::Lit(copy_literal(l), t.clone()),
        IRExpr::Var(v, t) => IRExpr::Var(*v, t.clone()),
        IRExpr::Global(n, t) => IRExpr::Global(n.clone(), t.clone()),
        IRExpr::Let { var, ty, value, body } => {
            assert(decreases_to!(e@ => e@->Let_2));
            assert(decreases_to!(e@ => e@->Let_3));
            IRExpr::Let { var: *var, ty: ty.clone(), value: Box::new(copy_expr(value)), body: Box::new(copy_expr(body)) }
        },
        IRExpr::LetRec { bindings, body } => {
            assert(decreases_to!(e@ => e@->LetRec_0));
            assert(decreases_to!(e@ => e@->LetRec_1));
            IRExpr::LetRec { bindings: copy_bindings(bindings), body: Box::new(copy_expr(body)) }
        },
        IRExpr::Lambda { param, param_ty, body, result_ty } => {
            assert(decreases_to!(e@ => e@->Lambda_2));
            IRExpr::Lambda {
                param: *param,
                param_ty: param_ty.clone(),
                body: Box::new(copy_expr(body)),
                result_ty: result_ty.clone(),
            }
        },
        IRExpr::App { func, arg, result_ty } => {
            assert(decreases_to!(e@ => e@->App_0));
            assert(decreases_to!(e@ => e@->App_1));
            IRExpr::App { func: Box::new(copy_expr(func)), arg: Box::new(copy_expr(arg)), result_ty: result_ty.clone() }
        },
        IRExpr::If { cond, then_branch, else_branch, ty } => {
            assert(decreases_to!(e@ => e@->If_0));
            assert(decreases_to!(e@ => e@->If_1));
            assert(decreases_to!(e@ => e@->If_2));
            IRExpr::If {
                cond: Box::new(copy_expr(cond)),
                then_branch: Box::new(copy_expr(then_branch)),
                else_branch: Box::new(copy_expr(else_branch)),
                ty: ty.clone(),
            }
        },
        IRExpr::Match { scrutinee, arms, ty } => {
            assert(decreases_to!(e@ => e@->Match_0));
            assert(decreases_to!(e@ => e@->Match_1));
            IRExpr::Match { scrutinee: Box::new(copy_expr(scrutinee)), arms: copy_arms(arms), ty: ty.clone() }
        },
        IRExpr::Prim { op, args, ty } => {
            assert(decreases_to!(e@ => e@->Prim_1));
            IRExpr::Prim { op: *op, args: copy_exprs(args), ty: ty.clone() }
        },
        IRExpr::Construct { ctor, arg, ty } => {
            let a = match arg {
                Some(x) => {
                    assert(decreases_to!(e@ => e@->Construct_1));
                    assert(decreases_to!(e@->Construct_1 => (e@->Construct_1)->0));
                    Some(Box::new(copy_expr(x)))
                },
                None => None,
            };
            IRExpr::Construct { ctor: ctor.clone(), arg: a, ty: ty.clone() }
        },
        IRExpr::Tuple { elems, ty } => {
            assert(decreases_to!(e@ => e@->Tuple_0));
            IRExpr::Tuple { elems: copy_exprs(elems), ty: ty.clone() }
        },
        IRExpr::TupleProj { tuple, index, ty } => {
            assert(decreases_to!(e@ => e@->TupleProj_0));
            IRExpr::TupleProj { tuple: Box::new(copy_expr(tuple)), index: *index, ty: ty.clone() }
        },
        IRExpr::Record { fields, ty } => {
            assert(decreases_to!(e@ => e@->Record_0));
            IRExpr::Record { fields: copy_fields(fields), ty: ty.clone() }
        },
        IRExpr::Field { record, field, ty } => {
            assert(decreases_to!(e@ => e@->Field_0));
            IRExpr::Field { record: Box::new(copy_expr(record)), field: field.clone(), ty: ty.clone() }
        },
        IRExpr::Command { parts, stdin, ty } => {
            assert(decreases_to!(e@ => e@->Command_0));
            let s = match stdin {
                Some(x) => {
                    assert(decreases_to!(e@ => e@->Command_1));
                    assert(decreases_to!(e@->Command_1 => (e@->Command_1)->0));
                    Some(Box::new(copy_expr(x)))
                },
                None => None,
            };
            IRExpr::Command { parts: copy_parts(parts), stdin: s, ty: ty.clone() }
        },
        IRExpr::Unit => IRExpr::Unit,
    }
}

fn copy_exprs(es: &Vec<IRExpr>) -> (r: Vec<IRExpr>)
    ensures
        eview_seq(r@) == eview_seq(es@),
    decreases eview_seq(es@),
{
    proof { lemma_eview_seq(es@); }
    let ghost s = eview_seq(es@);
    let mut r: Vec<IRExpr> = Vec::new();
    let mut i: usize = 0;
    while i < es.len()
        invariant
            i <= es@.len(),
            s == eview_seq(es@),
            s.len() == es@.len(),
            forall|j: int| 0 <= j < s.len() ==> #[trigger] s[j] == eview(es@[j]),
            r@.len() == i,
            forall|j: int| 0 <= j < i ==> eview(#[trigger] r@[j]) == s[j],
        decreases es.len() - i,
    {
        assert(decreases_to!(s => s[i as int]));
        r.push(copy_expr(&es[i]));
        i += 1;
    }
    proof {
        lemma_eview_seq(r@);
        assert(eview_seq(r@) =~= s);
    }
    r
}

fn copy_bindings(bs: &Vec<Binding>) -> (r: Vec<Binding>)
    ensures
        bview_seq(r@) == bview_seq(bs@),
    decreases bview_seq(bs@),
{
    proof { lemma_bview_seq(bs@); }
    let ghost s = bview_seq(bs@);
    let mut r: Vec<Binding> = Vec::new();
    let mut i: usize = 0;
    while i < bs.len()
        invariant
            i <= bs@.len(),
            s == bview_seq(bs@),
            s.len() == bs@.len(),
            forall|j: int| 0 <= j < s.len() ==> #[trigger] s[j] == (bs@[j].var, bs@[j].ty@, eview(bs@[j].value)),
            r@.len() == i,
            forall|j: int| 0 <= j < i ==> ((#[trigger] r@[j]).var, r@[j].ty@, eview(r@[j].value)) == s[j],
        decreases bs.len() - i,
    {
        assert(decreases_to!(s => s[i as int]));
        assert(decreases_to!(s[i as int] => s[i as int].2));
        r.push(Binding { var: bs[i].var, ty: bs[i].ty.clone(), value: copy_expr(&bs[i].value) });
        i += 1;
    }
    proof {
        lemma_bview_seq(r@);
        assert(bview_seq(r@) =~= s);
    }
    r
}

fn copy_arms(arms: &Vec<(IRPattern, IRExpr)>) -> (r: Vec<(IRPattern, IRExpr)>)
    ensures
        aview_seq(r@) == aview_seq(arms@),
    decreases aview_seq(arms@),
{
    proof { lemma_aview_seq(arms@); }
    let ghost s = aview_seq(arms@);
    let mut r: Vec<(IRPattern, IRExpr)> = Vec::new();
    let mut i: usize = 0;
    while i < arms.len()
        invariant
            i <= arms@.len(),
            s == aview_seq(arms@),
            s.len() == arms@.len(),
            forall|j: int| 0 <= j < s.len() ==> #[trigger] s[j] == (arms@[j].0@, eview(arms@[j].1)),
            r@.len() == i,
            forall|j: int| 0 <= j < i ==> ((#[trigger] r@[j]).0@, eview(r@[j].1)) == s[j],
        decreases arms.len() - i,
    {
        assert(decreases_to!(s => s[i as int]));
        assert(decreases_to!(s[i as int] => s[i as int].1));
        r.push((copy_pattern(&arms[i].0), copy_expr(&arms[i].1)));
        i += 1;
    }
    proof {
        lemma_aview_seq(r@);
        assert(aview_seq(r@) =~= s);
    }
    r
}

fn copy_fields(fs: &Vec<(String, IRExpr)>) -> (r: Vec<(String, IRExpr)>)
    ensures
        fview_seq(r@) == fview_seq(fs@),
    decreases fview_seq(fs@),
{
    proof { lemma_fview_seq(fs@); }
    let ghost s = fview_seq(fs@);
    let mut r: Vec<(String, IRExpr)> = Vec::new();
    let mut i: usize = 0;
    while i < fs.len()
        invariant
            i <= fs@.len(),
            s == fview_seq(fs@),
            s.len() == fs@.len(),
            forall|j: int| 0 <= j < s.len() ==> #[trigger] s[j] == (fs@[j].0@, eview(fs@[j].1)),
            r@.len() == i,
            forall|j: int| 0 <= j < i ==> ((#[trigger] r@[j]).0@, eview(r@[j].1)) == s[j],
        decreases fs.len() - i,
    {
        assert(decreases_to!(s => s[i as int]));
        assert(decreases_to!(s[i as int] => s[i as int].1));
        r.push((fs[i].0.clone(), copy_expr(&fs[i].1)));
        i += 1;
    }
    proof {
        lemma_fview_seq(r@);
        assert(fview_seq(r@) =~= s);
    }
    r
}

fn copy_parts(ps: &Vec<IRCommandPart>) -> (r: Vec<IRCommandPart>)
    ensures
        cview_seq(r@) == cview_seq(ps@),
    decreases cview_seq(ps@),
{
    proof { lemma_cview_seq(ps@); }
    let ghost s = cview_seq(ps@);
    let mut r: Vec<IRCommandPart> = Vec::new();
    let mut i: usize = 0;
    while i < ps.len()
        invariant
            i <= ps@.len(),
            s == cview_seq(ps@),
            s.len() == ps@.len(),
            forall|j: int| 0 <= j < s.len() ==> #[trigger] s[j] == cview(ps@[j]),
            r@.len() == i,
            forall|j: int| 0 <= j < i ==> cview(#[trigger] r@[j]) == s[j],
        decreases ps.len() - i,
    {
        let c = match &ps[i] {
            IRCommandPart::Literal(t) => IRCommandPart::Literal(t.clone()),
            IRCommandPart::Interpolation(x) => {
                assert(decreases_to!(s => s[i as int]));
                assert(decreases_to!(s[i as int] => s[i as int]->Interpolation_0));
                IRCommandPart::Interpolation(Box::new(copy_expr(x)))
            },
        };
        r.push(c);
        i += 1;
    }
    proof {
        lemma_cview_seq(r@);
        assert(cview_seq(r@) =~= s);
    }
    r
}

impl Clone for IRExpr {
    fn clone(&self) -> (r: Self)
        ensures
            r@ == self@,
    {
        copy_expr(self)
    }
}

} // verus!
