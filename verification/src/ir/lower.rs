//! AST to IR lowering
//!
//! This module converts typed AST to IR in A-Normal Form.
//! The lowering process:
//! - Converts all expressions to ANF (intermediate values named)
//! - Desugars operators to primitive calls
//! - Converts patterns to IR patterns
//! - Specializes polymorphic operations based on types

use vstd::prelude::*;
use crate::syntax::ast::{
    BinOp, CommandPart, Decl, DoStmt, Expr, FunDecl, Literal, MatchArm, Pattern, Program, TypeExpr, UnOp,
    ValDecl,
};
use crate::syntax::span::Spanned;
use crate::text::push_str;
use crate::types::error::{TypeError, error_message};
use crate::types::infer::TypeChecker;
use crate::types::model::TypeV;
use crate::types::repr::{Type, TypeScheme, con0, lemma_tview_seq, tview_seq};
use crate::types::table::NameTable;
use crate::vm::primitive::{Operand, signature};
use super::base::{Primitive, VarId, VarIdSupply, lemma_var_id_of, next_var_id, var_id_of};
use super::tree::{
    IRCommandPart, IRDecl, IRExpr, IRLiteral, IRPattern, IRProgram, IrV, LitV, ir_type, is_value_v,
};

verus! {

/// Errors that can occur during lowering.
#[derive(Debug)]
pub enum LowerError {
    /// Type error from type checking phase
    TypeError(Vec<TypeError>),
    /// Unsupported feature
    Unsupported(String),
    /// Internal error
    Internal(String),
}

/// A type error report names at least one error.
pub open spec fn well_formed_error(e: LowerError) -> bool {
    e matches LowerError::TypeError(es) ==> es@.len() > 0
}

/// The messages of type errors, separated by commas.
pub open spec fn joined_messages(es: Seq<TypeError>) -> Seq<char>
    decreases es.len(),
{
    if es.len() == 0 {
        Seq::empty()
    } else if es.len() == 1 {
        error_message(es[0])
    } else {
        joined_messages(es.drop_last()) + ", "@ + error_message(es.last())
    }
}

/// The text of a lowering error.
pub open spec fn lower_error_text(e: LowerError) -> Seq<char> {
    match e {
        LowerError::TypeError(es) => "type errors: "@ + joined_messages(es@),
        LowerError::Unsupported(msg) => "unsupported: "@ + msg@,
        LowerError::Internal(msg) => "internal error: "@ + msg@,
    }
}

impl LowerError {
    /// The error message, e.g. `unsupported: match guards`.
    pub fn to_string(&self) -> (s: String)
        ensures
            s@ == lower_error_text(*self),
    {
        let mut s = String::new();
        match self {
            LowerError::TypeError(errors) => {
                push_str(&mut s, "type errors: ");
                let ghost start = s@;
                let mut i: usize = 0;
                while i < errors.len()
                    invariant
                        i <= errors@.len(),
                        s@ == start + joined_messages(errors@.take(i as int)),
                    decreases errors.len() - i,
                {
                    if i > 0 {
                        push_str(&mut s, ", ");
                    }
                    push_str(&mut s, errors[i].to_string().as_str());
                    proof {
                        let t = errors@.take(i + 1);
                        assert(t.drop_last() =~= errors@.take(i as int));
                        assert(t.last() == errors@[i as int]);
                        if i == 0 {
                            assert(joined_messages(errors@.take(0)) =~= Seq::<char>::empty());
                        }
                    }
                    i += 1;
                }
                assert(errors@.take(i as int) =~= errors@);
            },
            LowerError::Unsupported(msg) => {
                push_str(&mut s, "unsupported: ");
                push_str(&mut s, msg.as_str());
            },
            LowerError::Internal(msg) => {
                push_str(&mut s, "internal error: ");
                push_str(&mut s, msg.as_str());
            },
        }
        s
    }
}

// ========== The lowering rules as values ==========

/// The IR literal of a source literal.
pub open spec fn literal_ir(l: Literal) -> LitV {
    match l {
        Literal::Int(n) => LitV::Int(n),
        Literal::Float(s) => LitV::Float(s@),
        Literal::String(s) => LitV::Str(s@),
        Literal::Char(c) => LitV::Char(c),
        Literal::Bool(b) => LitV::Bool(b),
    }
}

/// The primitive that implements a built-in function, by the function's name.
pub open spec fn builtin_prim(name: Seq<char>) -> Option<Primitive> {
    if name == "intToFloat"@ { Some(Primitive::IntToFloat) }
    else if name == "floatToInt"@ { Some(Primitive::FloatToInt) }
    else if name == "intToString"@ { Some(Primitive::IntToString) }
    else if name == "floatToString"@ { Some(Primitive::FloatToString) }
    else if name == "charToString"@ { Some(Primitive::CharToString) }
    else if name == "charToInt"@ { Some(Primitive::CharToInt) }
    else if name == "intToChar"@ { Some(Primitive::IntToChar) }
    else if name == "__bool_to_string"@ { Some(Primitive::BoolToString) }
    else if name == "__string_identity"@ { Some(Primitive::StringIdentity) }
    else if name == "stringLength"@ { Some(Primitive::StringLength) }
    else if name == "charAt"@ { Some(Primitive::CharAt) }
    else if name == "substring"@ { Some(Primitive::Substring) }
    else if name == "listLength"@ { Some(Primitive::ListLength) }
    else if name == "print"@ { Some(Primitive::Print) }
    else if name == "printNoNewline"@ { Some(Primitive::PrintNoNewline) }
    else if name == "readLine"@ { Some(Primitive::ReadLine) }
    else if name == "readFile"@ { Some(Primitive::ReadFile) }
    else if name == "writeFile"@ { Some(Primitive::WriteFile) }
    else if name == "getEnv"@ { Some(Primitive::GetEnv) }
    else if name == "assert"@ { Some(Primitive::Assert) }
    else if name == "panic"@ { Some(Primitive::Panic) }
    else { None }
}

/// Whether a type is the named type constructor (with any arguments).
pub open spec fn is_con(t: TypeV, name: Seq<char>) -> bool {
    t matches TypeV::Con(n, _) && n == name
}

/// The primitive that a binary operator becomes on operands of type `t`, if the
/// operator is defined there.
pub open spec fn binop_prim(op: BinOp, t: TypeV) -> Option<Primitive> {
    let i = is_con(t, "int"@);
    let f = is_con(t, "float"@);
    let st = is_con(t, "string"@);
    let bo = is_con(t, "bool"@);
    let c = is_con(t, "char"@);
    match op {
        BinOp::Add => if i { Some(Primitive::AddInt) } else if f { Some(Primitive::AddFloat) } else { None },
        BinOp::Sub => if i { Some(Primitive::SubInt) } else if f { Some(Primitive::SubFloat) } else { None },
        BinOp::Mul => if i { Some(Primitive::MulInt) } else if f { Some(Primitive::MulFloat) } else { None },
        BinOp::Div => if i { Some(Primitive::DivInt) } else if f { Some(Primitive::DivFloat) } else { None },
        BinOp::Mod => if i { Some(Primitive::ModInt) } else { None },
        BinOp::Eq => if i { Some(Primitive::EqInt) } else if f { Some(Primitive::EqFloat) }
            else if st { Some(Primitive::EqString) } else if bo { Some(Primitive::EqBool) }
            else if c { Some(Primitive::EqChar) } else { None },
        BinOp::Neq => if i { Some(Primitive::NeqInt) } else if f { Some(Primitive::NeqFloat) }
            else if st { Some(Primitive::NeqString) } else if bo { Some(Primitive::NeqBool) }
            else if c { Some(Primitive::NeqChar) } else { None },
        BinOp::Lt => if i { Some(Primitive::LtInt) } else if f { Some(Primitive::LtFloat) }
            else if st { Some(Primitive::LtString) } else if c { Some(Primitive::LtChar) } else { None },
        BinOp::Le => if i { Some(Primitive::LeInt) } else if f { Some(Primitive::LeFloat) }
            else if st { Some(Primitive::LeString) } else if c { Some(Primitive::LeChar) } else { None },
        BinOp::Gt => if i { Some(Primitive::GtInt) } else if f { Some(Primitive::GtFloat) }
            else if st { Some(Primitive::GtString) } else if c { Some(Primitive::GtChar) } else { None },
        BinOp::Ge => if i { Some(Primitive::GeInt) } else if f { Some(Primitive::GeFloat) }
            else if st { Some(Primitive::GeString) } else if c { Some(Primitive::GeChar) } else { None },
        BinOp::And => Some(Primitive::And),
        BinOp::Or => Some(Primitive::Or),
        BinOp::Concat => Some(Primitive::Concat),
        BinOp::Cons => Some(Primitive::Cons),
        BinOp::Append => Some(Primitive::Append),
    }
}

/// `lhs && rhs` is `if lhs then rhs else false`; `lhs || rhs` is
/// `if lhs then true else rhs`.
pub open spec fn short_circuit(is_and: bool, lhs: IrV, rhs: IrV, t: TypeV) -> IrV {
    if is_and {
        IrV::If(Box::new(lhs), Box::new(rhs), Box::new(IrV::Lit(LitV::Bool(false), con0("bool"@))), t)
    } else {
        IrV::If(Box::new(lhs), Box::new(IrV::Lit(LitV::Bool(true), con0("bool"@))), Box::new(rhs), t)
    }
}

/// An application in A-Normal Form: an operand that is not a value is first bound
/// to a fresh variable, the function's to `v1` and then the argument's to `v2`
/// (or, where only the argument needs one, to `v1`).
pub open spec fn anf_app(f: IrV, a: IrV, t: TypeV, v1: VarId, v2: VarId) -> IrV {
    let tf = ir_type(f);
    let ta = ir_type(a);
    if is_value_v(f) && is_value_v(a) {
        IrV::App(Box::new(f), Box::new(a), t)
    } else if !is_value_v(f) && !is_value_v(a) {
        let app = IrV::App(Box::new(IrV::Var(v1, tf)), Box::new(IrV::Var(v2, ta)), t);
        IrV::Let(v1, tf, Box::new(f), Box::new(IrV::Let(v2, ta, Box::new(a), Box::new(app))))
    } else if !is_value_v(f) {
        IrV::Let(v1, tf, Box::new(f), Box::new(IrV::App(Box::new(IrV::Var(v1, tf)), Box::new(a), t)))
    } else {
        IrV::Let(v1, ta, Box::new(a), Box::new(IrV::App(Box::new(f), Box::new(IrV::Var(v1, ta)), t)))
    }
}

/// An expression lowered at type `t` has type `t`, or is unit-typed: the IR
/// gives `()` the type `unit` whatever it was lowered at.
pub open spec fn typed_at(e: IrV, t: TypeV) -> bool {
    ir_type(e) == t || ir_type(e) == con0("unit"@)
}

/// Whether a string slice spells the given text.
fn is_named(name: &str, text: &str) -> (b: bool)
    ensures
        b == (name@ == text@),
{
    let a = name.to_owned();
    let b = text.to_owned();
    a == b
}

fn owned(s: &str) -> (r: String)
    ensures
        r@ == s@,
{
    s.to_owned()
}

/// The lowering context.
pub struct Lower {
    /// Type checker for inferring expression types
    checker: TypeChecker,
    /// Variable name to VarId mapping
    vars: NameTable<VarId>,
    /// Type of each variable
    var_types: Vec<(VarId, Type)>,
    /// The source of fresh variable identifiers
    supply: VarIdSupply,
}

impl Default for Lower {
    fn default() -> (r: Self)
        ensures
            r.wf(),
    {
        Self::new()
    }
}

/// The declarations that lowering turns into IR: values, functions and datatypes.
pub open spec fn lowers_to_ir(d: Decl) -> bool {
    d is Val || d is Fun || d is Datatype
}

/// The declarations of a program that lowering keeps, in order.
pub open spec fn kept_decls(ds: Seq<Spanned<Decl>>) -> Seq<Decl>
    decreases ds.len(),
{
    if ds.len() == 0 {
        Seq::empty()
    } else if lowers_to_ir(ds.last().value) {
        kept_decls(ds.drop_last()).push(ds.last().value)
    } else {
        kept_decls(ds.drop_last())
    }
}

/// `ir` is what a literal, a name, a constructor or `()` lowers to, with the names in
/// `scope` standing for local variables; other expressions are not constrained here.
pub open spec fn leaf_lowering(ir: IrV, e: Expr, scope: Map<Seq<char>, VarId>) -> bool {
    match e {
        Expr::Lit(l) => ir matches IrV::Lit(x, _) && x == literal_ir(l),
        Expr::Var(n) => if scope.dom().contains(n@) {
            ir matches IrV::Var(id, _) && id == scope[n@]
        } else {
            ir matches IrV::Global(m, _) && m == n@
        },
        Expr::Con(n) => ir matches IrV::Construct(c, None, _) && c == n@,
        Expr::Unit => ir == IrV::Unit,
        _ => true,
    }
}

/// The operator joins two lowered operands in a primitive (the logical operators instead
/// become conditionals that skip the second operand).
pub open spec fn strict_binop(op: BinOp) -> bool {
    !(op == BinOp::And || op == BinOp::Or)
}

/// `ir` is `l && r` (or `l || r`) lowered to a conditional of type `t` on the lowered left
/// operand: `&&` takes the lowered right operand where the left one holds and is `false`
/// elsewhere, `||` is `true` where the left one holds and takes the right one elsewhere.
pub open spec fn lowered_logical(ir: IrV, is_and: bool, l: Expr, r: Expr, t: TypeV, scope: Map<Seq<char>, VarId>) -> bool {
    ir matches IrV::If(c, th, el, ty) && ty == t && leaf_lowering(*c, l, scope)
        && if is_and {
            *el == IrV::Lit(LitV::Bool(false), con0("bool"@))
                && ((is_leaf(l) || !(r is Var)) ==> leaf_lowering(*th, r, scope))
        } else {
            *th == IrV::Lit(LitV::Bool(true), con0("bool"@))
                && ((is_leaf(l) || !(r is Var)) ==> leaf_lowering(*el, r, scope))
        }
}

/// The operator a primitive computes, whatever the type of its operands.
pub open spec fn prim_operator(p: Primitive) -> Option<BinOp> {
    match p {
        Primitive::AddInt | Primitive::AddFloat => Some(BinOp::Add),
        Primitive::SubInt | Primitive::SubFloat => Some(BinOp::Sub),
        Primitive::MulInt | Primitive::MulFloat => Some(BinOp::Mul),
        Primitive::DivInt | Primitive::DivFloat => Some(BinOp::Div),
        Primitive::ModInt => Some(BinOp::Mod),
        Primitive::EqInt | Primitive::EqFloat | Primitive::EqString | Primitive::EqBool | Primitive::EqChar => Some(BinOp::Eq),
        Primitive::NeqInt | Primitive::NeqFloat | Primitive::NeqString | Primitive::NeqBool | Primitive::NeqChar => Some(BinOp::Neq),
        Primitive::LtInt | Primitive::LtFloat | Primitive::LtString | Primitive::LtChar => Some(BinOp::Lt),
        Primitive::LeInt | Primitive::LeFloat | Primitive::LeString | Primitive::LeChar => Some(BinOp::Le),
        Primitive::GtInt | Primitive::GtFloat | Primitive::GtString | Primitive::GtChar => Some(BinOp::Gt),
        Primitive::GeInt | Primitive::GeFloat | Primitive::GeString | Primitive::GeChar => Some(BinOp::Ge),
        Primitive::Concat => Some(BinOp::Concat),
        Primitive::Cons => Some(BinOp::Cons),
        Primitive::Append => Some(BinOp::Append),
        Primitive::And => Some(BinOp::And),
        Primitive::Or => Some(BinOp::Or),
        _ => None,
    }
}

/// The kind of run-time value a literal is (a float literal is none of these kinds).
pub open spec fn literal_operand(l: Literal) -> Option<Operand> {
    match l {
        Literal::Int(_) => Some(Operand::Int),
        Literal::Char(_) => Some(Operand::Char),
        Literal::Bool(_) => Some(Operand::Bool),
        Literal::String(_) => Some(Operand::Str),
        Literal::Float(_) => None,
    }
}

/// The primitive `p` that a binary operator `op` becomes computes that operator; where
/// the left operand is a literal and the operator is arithmetic or a comparison, it takes
/// two operands of the literal's kind.
pub open spec fn prim_for(p: Primitive, op: BinOp, l: Expr) -> bool {
    &&& prim_operator(p) == Some(op)
    &&& (l matches Expr::Lit(x) && literal_operand(x) is Some && !(op == BinOp::Concat || op == BinOp::Cons
        || op == BinOp::Append || op == BinOp::And || op == BinOp::Or)) ==> signature(p) == Some((literal_operand(l->Lit_0)->0, 2nat))
}

/// The primitive chosen for an operator on operands of a type computes that operator, and
/// on a literal's type takes operands of the literal's kind.
proof fn lemma_prim_for(op: BinOp, t: TypeV, p: Primitive, l: Expr)
    requires
        binop_prim(op, t) == Some(p),
        l is Lit ==> t == crate::types::infer::literal_type(l->Lit_0),
    ensures
        prim_for(p, op, l),
{
    reveal_strlit("int");
    reveal_strlit("float");
    reveal_strlit("string");
    reveal_strlit("char");
    reveal_strlit("bool");
    assert("char"@.len() == 4 && "bool"@.len() == 4 && "int"@.len() == 3 && "float"@.len() == 5
        && "string"@.len() == 6);
    assert("char"@ != "bool"@) by { assert("char"@[0] != "bool"@[0]); }
    if l is Lit {
        match l->Lit_0 {
            Literal::Int(_) => { assert(is_con(t, "int"@)); },
            Literal::Float(_) => {},
            Literal::String(_) => {
                assert(is_con(t, "string"@));
                assert(!is_con(t, "int"@));
                assert(!is_con(t, "float"@));
            },
            Literal::Char(_) => {
                assert(is_con(t, "char"@));
                assert(!is_con(t, "int"@));
                assert(!is_con(t, "float"@));
                assert(!is_con(t, "string"@));
                assert(!is_con(t, "bool"@));
            },
            Literal::Bool(_) => {
                assert(is_con(t, "bool"@));
                assert(!is_con(t, "int"@));
                assert(!is_con(t, "float"@));
                assert(!is_con(t, "string"@));
            },
        }
    }
}

/// A literal, a name, a constructor or `()`: an expression whose lowering binds nothing.
pub open spec fn is_leaf(e: Expr) -> bool {
    e is Lit || e is Var || e is Con || e is Unit
}

/// `ir` applies a primitive of type `t` that computes `op` to the lowered operands `l`
/// and `r`, in that order
/// (a name on the right is read in `scope` where the left operand binds nothing).
pub open spec fn lowered_binop(ir: IrV, op: BinOp, l: Expr, r: Expr, t: TypeV, scope: Map<Seq<char>, VarId>) -> bool {
    ir matches IrV::Prim(p, args, ty) && ty == t && args.len() == 2 && prim_for(p, op, l)
        && leaf_lowering(args[0], l, scope)
        && ((is_leaf(l) || !(r is Var)) ==> leaf_lowering(args[1], r, scope))
}


/// `ir` is what lowering makes of `d`: the same kind of declaration under the same name (a
/// value given by a literal becomes that literal, a function keeps its number of
/// parameters);
/// a datatype keeps its parameters and its constructors, in order, each with an argument
/// exactly where the declaration gives one.
pub open spec fn lowered_as(ir: crate::ir::tree::DeclV, d: Decl) -> bool {
    match d {
        Decl::Val(v) => ir is Val && v.pattern.value is Var && ir->Val_0 == v.pattern.value->Var_0@
            && (v.expr.value is Lit ==> ir->Val_2 == IrV::Lit(literal_ir(v.expr.value->Lit_0), ir->Val_1))
            && (v.expr.value is Con ==> ir->Val_2 == IrV::Construct(v.expr.value->Con_0@, None, ir->Val_1))
            && (v.expr.value is Unit ==> ir->Val_2 == IrV::Unit)
            && ((v.expr.value matches Expr::BinOp(op, l, r) && strict_binop(op) && l.value is Lit && r.value is Lit)
                ==> lowered_binop(ir->Val_2, v.expr.value->BinOp_0, v.expr.value->BinOp_1.value, v.expr.value->BinOp_2.value, ir->Val_1,
                    Map::<Seq<char>, VarId>::empty())),
        Decl::Fun(f) => ir is Fun && ir->Fun_0 == f.name.value@
            && (f.clauses@.len() == 1 ==> {
                let body = f.clauses@[0].body.value;
                &&& ir->Fun_2.len() == f.clauses@[0].params@.len()
                &&& body is Lit ==> (ir->Fun_3 matches IrV::Lit(l, _) && l == literal_ir(body->Lit_0))
                &&& body is Con ==> (ir->Fun_3 matches IrV::Construct(c, None, _) && c == body->Con_0@)
                &&& body is Unit ==> ir->Fun_3 == IrV::Unit
            }),
        Decl::Datatype(dt) => {
            &&& ir is Data
            &&& ir->Data_0 == dt.name.value@
            &&& ir->Data_1.len() == dt.params@.len()
            &&& forall|j: int| 0 <= j < dt.params@.len() ==> #[trigger] ir->Data_1[j] == dt.params@[j].value@
            &&& ir->Data_2.len() == dt.constructors@.len()
            &&& forall|j: int| 0 <= j < dt.constructors@.len() ==> {
                &&& (#[trigger] ir->Data_2[j]).0 == dt.constructors@[j].name.value@
                &&& (ir->Data_2[j].1 is Some <==> dt.constructors@[j].arg is Some)
            }
        },
        _ => false,
    }
}

impl Lower {
    /// The context is usable: its type checker's substitution can be applied and
    /// its variable table holds each name once.
    pub closed spec fn wf(&self) -> bool {
        self.checker.wf() && self.vars.wf()
    }

    /// The number the next fresh variable will carry.
    pub closed spec fn next_var(&self) -> u64 {
        self.supply.next_id()
    }

    /// The data constructors the lowering's type checker knows, with their schemes.
    pub closed spec fn constructor_schemes(&self) -> Map<Seq<char>, crate::types::env::SchemeV> {
        self.checker.constructors()
    }

    /// The number of the next fresh type variable of the lowering's type checker.
    pub closed spec fn type_supply(&self) -> u64 {
        self.checker.next_type_var()
    }

    /// The global names the lowering's type checker knows.
    pub closed spec fn globals(&self) -> Map<Seq<char>, crate::types::env::SchemeV> {
        self.checker.bindings()
    }

    /// Create a new lowering context.
    pub fn new() -> (r: Self)
        ensures
            r.wf(),
            r.globals() == crate::types::builtins::builtin_bindings(0),
    {
        Lower { checker: TypeChecker::new(), vars: NameTable::new(), var_types: Vec::new(), supply: VarIdSupply::new() }
    }

    /// Register a global variable binding (for REPL use).
    ///
    /// This adds the binding to the internal type checker's environment
    /// so that `expr_type` can resolve it during lowering.
    pub fn register_global(&mut self, name: &str, ty: Type)
        requires
            old(self).wf(),
        ensures
            final(self).wf(),
            final(self).globals() == old(self).globals().insert(name@, (Seq::empty(), ty@)),
    {
        let scheme = TypeScheme::mono(ty);
        self.checker.register_global(name, scheme);
    }

    /// A fresh variable identifier.
    fn fresh(&mut self) -> (v: VarId)
        ensures
            v.id() == old(self).next_var(),
            final(self).next_var() == next_var_id(old(self).next_var()),
            final(self).wf() == old(self).wf(),
            final(self).globals() == old(self).globals(),
            final(self).scope() == old(self).scope(),
    {
        VarId::fresh(&mut self.supply)
    }

    /// Look up a built-in function by name.
    fn lookup_builtin(&self, name: &str) -> (r: Option<Primitive>)
        ensures
            r == builtin_prim(name@),
    {
        if is_named(name, "intToFloat") { Some(Primitive::IntToFloat) }
        else if is_named(name, "floatToInt") { Some(Primitive::FloatToInt) }
        else if is_named(name, "intToString") { Some(Primitive::IntToString) }
        else if is_named(name, "floatToString") { Some(Primitive::FloatToString) }
        else if is_named(name, "charToString") { Some(Primitive::CharToString) }
        else if is_named(name, "charToInt") { Some(Primitive::CharToInt) }
        else if is_named(name, "intToChar") { Some(Primitive::IntToChar) }
        else if is_named(name, "__bool_to_string") { Some(Primitive::BoolToString) }
        else if is_named(name, "__string_identity") { Some(Primitive::StringIdentity) }
        else if is_named(name, "stringLength") { Some(Primitive::StringLength) }
        else if is_named(name, "charAt") { Some(Primitive::CharAt) }
        else if is_named(name, "substring") { Some(Primitive::Substring) }
        else if is_named(name, "listLength") { Some(Primitive::ListLength) }
        else if is_named(name, "print") { Some(Primitive::Print) }
        else if is_named(name, "printNoNewline") { Some(Primitive::PrintNoNewline) }
        else if is_named(name, "readLine") { Some(Primitive::ReadLine) }
        else if is_named(name, "readFile") { Some(Primitive::ReadFile) }
        else if is_named(name, "writeFile") { Some(Primitive::WriteFile) }
        else if is_named(name, "getEnv") { Some(Primitive::GetEnv) }
        else if is_named(name, "assert") { Some(Primitive::Assert) }
        else if is_named(name, "panic") { Some(Primitive::Panic) }
        else { None }
    }

    /// Lower a literal.
    fn lower_literal(&self, lit: &Literal, ty: &Type) -> (r: IRExpr)
        ensures
            r@ == IrV::Lit(literal_ir(*lit), ty@),
    {
        let ir_lit = match lit {
            Literal::Int(n) => IRLiteral::Int(*n),
            Literal::Float(f) => IRLiteral::Float(f.clone()),
            Literal::String(s) => IRLiteral::String(s.clone()),
            Literal::Char(c) => IRLiteral::Char(*c),
            Literal::Bool(b) => IRLiteral::Bool(*b),
        };
        IRExpr::Lit(ir_lit, ty.clone())
    }

    /// Lower short-circuit boolean operations.
    fn lower_short_circuit(&self, is_and: bool, lhs: IRExpr, rhs: IRExpr, ty: &Type) -> (r: IRExpr)
        ensures
            r@ == short_circuit(is_and, lhs@, rhs@, ty@),
    {
        if is_and {
            // lhs && rhs  =>  if lhs then rhs else false
            let f = IRExpr::Lit(IRLiteral::Bool(false), Type::bool());
            assert(f@ == IrV::Lit(LitV::Bool(false), con0("bool"@)));
            IRExpr::If { cond: Box::new(lhs), then_branch: Box::new(rhs), else_branch: Box::new(f), ty: ty.clone() }
        } else {
            // lhs || rhs  =>  if lhs then true else rhs
            let t = IRExpr::Lit(IRLiteral::Bool(true), Type::bool());
            assert(t@ == IrV::Lit(LitV::Bool(true), con0("bool"@)));
            IRExpr::If { cond: Box::new(lhs), then_branch: Box::new(t), else_branch: Box::new(rhs), ty: ty.clone() }
        }
    }

    /// Specialize a binary operator to a primitive based on type.
    fn specialize_binop(&self, op: BinOp, ty: &Type) -> (r: Result<Primitive, LowerError>)
        ensures
            r matches Err(e) ==> well_formed_error(e),
            match r {
                Ok(p) => binop_prim(op, ty@) == Some(p),
                Err(e) => binop_prim(op, ty@) is None && e is Unsupported,
            },
    {
        let (is_int, is_float, is_string, is_bool, is_char) = match ty {
            Type::Con(name, _) => (
                is_named(name.as_str(), "int"),
                is_named(name.as_str(), "float"),
                is_named(name.as_str(), "string"),
                is_named(name.as_str(), "bool"),
                is_named(name.as_str(), "char"),
            ),
            _ => (false, false, false, false, false),
        };
        let found = match op {
            BinOp::Add => if is_int { Some(Primitive::AddInt) } else if is_float { Some(Primitive::AddFloat) } else { None },
            BinOp::Sub => if is_int { Some(Primitive::SubInt) } else if is_float { Some(Primitive::SubFloat) } else { None },
            BinOp::Mul => if is_int { Some(Primitive::MulInt) } else if is_float { Some(Primitive::MulFloat) } else { None },
            BinOp::Div => if is_int { Some(Primitive::DivInt) } else if is_float { Some(Primitive::DivFloat) } else { None },
            BinOp::Mod => if is_int { Some(Primitive::ModInt) } else { None },
            BinOp::Eq => if is_int { Some(Primitive::EqInt) } else if is_float { Some(Primitive::EqFloat) }
                else if is_string { Some(Primitive::EqString) } else if is_bool { Some(Primitive::EqBool) }
                else if is_char { Some(Primitive::EqChar) } else { None },
            BinOp::Neq => if is_int { Some(Primitive::NeqInt) } else if is_float { Some(Primitive::NeqFloat) }
                else if is_string { Some(Primitive::NeqString) } else if is_bool { Some(Primitive::NeqBool) }
                else if is_char { Some(Primitive::NeqChar) } else { None },
            BinOp::Lt => if is_int { Some(Primitive::LtInt) } else if is_float { Some(Primitive::LtFloat) }
                else if is_string { Some(Primitive::LtString) } else if is_char { Some(Primitive::LtChar) } else { None },
            BinOp::Le => if is_int { Some(Primitive::LeInt) } else if is_float { Some(Primitive::LeFloat) }
                else if is_string { Some(Primitive::LeString) } else if is_char { Some(Primitive::LeChar) } else { None },
            BinOp::Gt => if is_int { Some(Primitive::GtInt) } else if is_float { Some(Primitive::GtFloat) }
                else if is_string { Some(Primitive::GtString) } else if is_char { Some(Primitive::GtChar) } else { None },
            BinOp::Ge => if is_int { Some(Primitive::GeInt) } else if is_float { Some(Primitive::GeFloat) }
                else if is_string { Some(Primitive::GeString) } else if is_char { Some(Primitive::GeChar) } else { None },
            BinOp::And => Some(Primitive::And),
            BinOp::Or => Some(Primitive::Or),
            BinOp::Concat => Some(Primitive::Concat),
            BinOp::Cons => Some(Primitive::Cons),
            BinOp::Append => Some(Primitive::Append),
        };
        match found {
            Some(p) => Ok(p),
            None => {
                let mut msg = owned("operator ");
                push_str(&mut msg, binop_name(op));
                push_str(&mut msg, " for type ");
                push_str(&mut msg, ty.to_string().as_str());
                Err(LowerError::Unsupported(msg))
            },
        }
    }

    /// Ensure application is in ANF form by wrapping non-value expressions in Let bindings.
    ///
    /// Returns a complete expression that evaluates both func and arg, binds non-values
    /// to temporaries, and then applies the function.
    fn ensure_anf_app(&mut self, func: IRExpr, arg: IRExpr, result_ty: &Type) -> (r: IRExpr)
        ensures
            r@ == anf_app(func@, arg@, result_ty@, var_id_of(old(self).next_var()),
                var_id_of(next_var_id(old(self).next_var()))),
            final(self).wf() == old(self).wf(),
            final(self).globals() == old(self).globals(),
    {
        // If both are values, create direct App
        if func.is_value() && arg.is_value() {
            return IRExpr::App { func: Box::new(func), arg: Box::new(arg), result_ty: result_ty.clone() };
        }
        let func_ty = func.ty();
        let arg_ty = arg.ty();
        let ghost n = self.next_var();
        if !func.is_value() && !arg.is_value() {
            // Both need binding - create nested lets:
            // let func_var = func in let arg_var = arg in func_var arg_var
            let func_var = self.fresh();
            let arg_var = self.fresh();
            proof {
                lemma_var_id_of(func_var, n);
                lemma_var_id_of(arg_var, next_var_id(n));
            }
            let fv = IRExpr::Var(func_var, func_ty.clone());
            let av = IRExpr::Var(arg_var, arg_ty.clone());
            assert(fv@ == IrV::Var(func_var, func_ty@) && av@ == IrV::Var(arg_var, arg_ty@));
            let inner_app = IRExpr::App { func: Box::new(fv), arg: Box::new(av), result_ty: result_ty.clone() };
            let ghost app_v = inner_app@;
            assert(app_v == IrV::App(Box::new(IrV::Var(func_var, func_ty@)), Box::new(IrV::Var(arg_var, arg_ty@)), result_ty@));
            let ghost arg_v = arg@;
            let with_arg = IRExpr::Let { var: arg_var, ty: arg_ty, value: Box::new(arg), body: Box::new(inner_app) };
            assert(with_arg@ == IrV::Let(arg_var, arg_ty@, Box::new(arg_v), Box::new(app_v)));
            IRExpr::Let { var: func_var, ty: func_ty, value: Box::new(func), body: Box::new(with_arg) }
        } else if !func.is_value() {
            // Only func needs binding:
            // let func_var = func in func_var arg
            let func_var = self.fresh();
            proof { lemma_var_id_of(func_var, n); }
            let ghost arg_v = arg@;
            let fv = IRExpr::Var(func_var, func_ty.clone());
            assert(fv@ == IrV::Var(func_var, func_ty@));
            let inner_app = IRExpr::App { func: Box::new(fv), arg: Box::new(arg), result_ty: result_ty.clone() };
            assert(inner_app@ == IrV::App(Box::new(IrV::Var(func_var, func_ty@)), Box::new(arg_v), result_ty@));
            IRExpr::Let { var: func_var, ty: func_ty, value: Box::new(func), body: Box::new(inner_app) }
        } else {
            // Only arg needs binding:
            // let arg_var = arg in func arg_var
            let arg_var = self.fresh();
            proof { lemma_var_id_of(arg_var, n); }
            let ghost func_v = func@;
            let av = IRExpr::Var(arg_var, arg_ty.clone());
            assert(av@ == IrV::Var(arg_var, arg_ty@));
            let inner_app = IRExpr::App { func: Box::new(func), arg: Box::new(av), result_ty: result_ty.clone() };
            assert(inner_app@ == IrV::App(Box::new(func_v), Box::new(IrV::Var(arg_var, arg_ty@)), result_ty@));
            IRExpr::Let { var: arg_var, ty: arg_ty, value: Box::new(arg), body: Box::new(inner_app) }
        }
    }
}

/// The function type taking the parameters `ps`, in order, to `r`.
pub open spec fn arrows_v(ps: Seq<TypeV>, r: TypeV) -> TypeV
    decreases ps.len(),
{
    if ps.len() == 0 { r } else { TypeV::Arrow(Box::new(ps[0]), Box::new(arrows_v(ps.drop_first(), r))) }
}

/// A function type built from parameters has an arrow for each, and those of its result.
proof fn lemma_arrow_depth_arrows(ps: Seq<TypeV>, r: TypeV)
    ensures
        crate::types::infer::arrow_depth(arrows_v(ps, r)) == ps.len() + crate::types::infer::arrow_depth(r),
    decreases ps.len(),
{
    if ps.len() > 0 {
        lemma_arrow_depth_arrows(ps.drop_first(), r);
    }
}

/// Adding a last parameter is taking one more argument before the result.
pub proof fn lemma_arrows_push(ps: Seq<TypeV>, p: TypeV, r: TypeV)
    ensures
        arrows_v(ps.push(p), r) == arrows_v(ps, TypeV::Arrow(Box::new(p), Box::new(r))),
    decreases ps.len(),
{
    let q = TypeV::Arrow(Box::new(p), Box::new(r));
    if ps.len() > 0 {
        assert(ps.push(p).drop_first() =~= ps.drop_first().push(p));
        assert(ps.push(p)[0] == ps[0]);
        lemma_arrows_push(ps.drop_first(), p, r);
        assert(arrows_v(ps.push(p), r) == TypeV::Arrow(Box::new(ps[0]), Box::new(arrows_v(ps.drop_first().push(p), r))));
        assert(arrows_v(ps, q) == TypeV::Arrow(Box::new(ps[0]), Box::new(arrows_v(ps.drop_first(), q))));
    } else {
        assert(ps.push(p).drop_first() =~= Seq::<TypeV>::empty());
        assert(arrows_v(Seq::<TypeV>::empty(), r) == r);
        assert(ps.push(p)[0] == p);
        assert(arrows_v(ps.push(p), r) == q);
        assert(arrows_v(ps, q) == q);
    }
}

/// The type first recorded for `v` in a list of recorded types.
pub open spec fn recorded(s: Seq<(VarId, TypeV)>, v: VarId) -> Option<TypeV>
    decreases s.len(),
{
    if s.len() == 0 {
        None
    } else if s[0].0 == v {
        Some(s[0].1)
    } else {
        recorded(s.drop_first(), v)
    }
}

/// Entries before the first one for `v` do not matter.
proof fn lemma_recorded_skip(s: Seq<(VarId, TypeV)>, i: int, v: VarId)
    requires
        0 <= i <= s.len(),
        forall|j: int| 0 <= j < i ==> s[j].0 != v,
    ensures
        recorded(s, v) == recorded(s.skip(i), v),
    decreases i,
{
    if i > 0 {
        lemma_recorded_skip(s.drop_first(), i - 1, v);
        assert(s.drop_first().skip(i - 1) =~= s.skip(i));
    } else {
        assert(s.skip(0) =~= s);
    }
}

/// Replacing the first entry of a variable changes what is recorded for it alone.
proof fn lemma_recorded_update(s: Seq<(VarId, TypeV)>, i: int, x: (VarId, TypeV), w: VarId)
    requires
        0 <= i < s.len(),
        s[i].0 == x.0,
        forall|j: int| 0 <= j < i ==> s[j].0 != x.0,
    ensures
        recorded(s.update(i, x), w) == if w == x.0 { Some(x.1) } else { recorded(s, w) },
    decreases i,
{
    let u = s.update(i, x);
    if i > 0 {
        assert(u.drop_first() =~= s.drop_first().update(i - 1, x));
        lemma_recorded_update(s.drop_first(), i - 1, x, w);
    } else {
        assert(u.drop_first() =~= s.drop_first());
    }
}

/// A variable recorded for the first time is recorded last.
proof fn lemma_recorded_push(s: Seq<(VarId, TypeV)>, x: (VarId, TypeV), w: VarId)
    requires
        forall|j: int| 0 <= j < s.len() ==> s[j].0 != x.0,
    ensures
        recorded(s.push(x), w) == if w == x.0 { Some(x.1) } else { recorded(s, w) },
    decreases s.len(),
{
    let p = s.push(x);
    if s.len() > 0 {
        assert(p[0] == s[0]);
        assert(p.drop_first() =~= s.drop_first().push(x));
        assert forall|j: int| 0 <= j < s.drop_first().len() implies s.drop_first()[j].0 != x.0 by {
            assert(s.drop_first()[j] == s[j + 1]);
        }
        lemma_recorded_push(s.drop_first(), x, w);
        if s[0].0 == w {
            assert(recorded(p, w) == Some(s[0].1));
        } else {
            assert(recorded(p, w) == recorded(p.drop_first(), w));
        }
    } else {
        assert(p[0] == x);
        assert(p.drop_first() =~= Seq::<(VarId, TypeV)>::empty());
    }
}

/// The type that an expression has without looking at what it contains.
pub open spec fn direct_type(e: Expr) -> Option<TypeV> {
    match e {
        Expr::Lit(l) => Some(crate::types::infer::literal_type(l)),
        Expr::Unit => Some(con0("unit"@)),
        Expr::Command(_) => Some(TypeV::Record(seq![
            ("exitCode"@, con0("int"@)),
            ("stdout"@, con0("string"@)),
            ("stderr"@, con0("string"@)),
        ])),
        Expr::BinOp(op, _, _) => match op {
            BinOp::Eq | BinOp::Neq | BinOp::Lt | BinOp::Le | BinOp::Gt | BinOp::Ge | BinOp::And | BinOp::Or =>
                Some(con0("bool"@)),
            BinOp::Concat => Some(con0("string"@)),
            _ => None,
        },
        Expr::UnOp(UnOp::Not, _) => Some(con0("bool"@)),
        _ => None,
    }
}

/// The type that lowering reads off an expression without consulting the checker: that of
/// a literal, unit, a command or a comparison; a local variable's recorded type; for
/// arithmetic, list operators and negation the type of the (left) operand; for `if` that of
/// the `then` branch; for a tuple the tuple of its parts' types. `None` elsewhere.
pub open spec fn local_type(e: Expr, scope: Map<Seq<char>, VarId>, table: Seq<(VarId, TypeV)>) -> Option<TypeV>
    decreases e,
{
    match e {
        Expr::Var(n) => if scope.dom().contains(n@) { recorded(table, scope[n@]) } else { None },
        Expr::BinOp(op, l, _) => match op {
            BinOp::Add | BinOp::Sub | BinOp::Mul | BinOp::Div | BinOp::Mod | BinOp::Cons | BinOp::Append =>
                local_type(l.value, scope, table),
            _ => direct_type(e),
        },
        Expr::UnOp(UnOp::Neg, x) => local_type(x.value, scope, table),
        Expr::If(_, t, _) => local_type(t.value, scope, table),
        Expr::Tuple(es) => match local_types(es@, scope, table) {
            Some(ts) => Some(TypeV::Tuple(ts)),
            None => None,
        },
        _ => direct_type(e),
    }
}

/// The `local_type` of each expression, where every one has one.
pub open spec fn local_types(s: Seq<Spanned<Expr>>, scope: Map<Seq<char>, VarId>, table: Seq<(VarId, TypeV)>) -> Option<Seq<TypeV>>
    decreases s,
{
    if s.len() == 0 {
        Some(Seq::empty())
    } else {
        match (local_types(s.drop_last(), scope, table), local_type(s.last().value, scope, table)) {
            (Some(ts), Some(t)) => Some(ts.push(t)),
            _ => None,
        }
    }
}

proof fn lemma_local_types(s: Seq<Spanned<Expr>>, scope: Map<Seq<char>, VarId>, table: Seq<(VarId, TypeV)>)
    ensures
        local_types(s, scope, table) is Some ==> {
            &&& local_types(s, scope, table)->0.len() == s.len()
            &&& forall|j: int| 0 <= j < s.len() ==> local_type(#[trigger] s[j].value, scope, table) is Some
                && local_types(s, scope, table)->0[j] == local_type(s[j].value, scope, table)->0
        },
    decreases s.len(),
{
    if s.len() > 0 {
        lemma_local_types(s.drop_last(), scope, table);
        if local_types(s, scope, table) is Some {
            assert forall|j: int| 0 <= j < s.len() implies local_type(#[trigger] s[j].value, scope, table) is Some
                && local_types(s, scope, table)->0[j] == local_type(s[j].value, scope, table)->0 by {
                if j < s.len() - 1 {
                    assert(s[j] == s.drop_last()[j]);
                }
            }
        }
    }
}

/// A lowered declaration carries its declared type: a value's expression has
/// it, and a function's type takes its parameters to the type of its body.
pub open spec fn decl_typed(d: crate::ir::tree::DeclV) -> bool {
    match d {
        crate::ir::tree::DeclV::Val(_, t, v) => typed_at(v, t),
        crate::ir::tree::DeclV::Fun(_, t, ps, body) => exists|rt: TypeV|
            t == arrows_v(ps.map_values(|p: (VarId, TypeV)| p.1), rt) && #[trigger] typed_at(body, rt),
        crate::ir::tree::DeclV::Data(..) => true,
    }
}

impl Lower {
    /// Type errors the checker has collected and not yet reported.
    pub closed spec fn checker_errors(&self) -> Seq<TypeError> {
        self.checker.pending_errors()
    }

    /// The local variables in scope, by name.
    pub closed spec fn scope(&self) -> Map<Seq<char>, VarId> {
        self.vars@
    }

    /// The recorded types of local variables, in the order they were recorded.
    pub closed spec fn var_table(&self) -> Seq<(VarId, TypeV)> {
        self.var_types@.map_values(|p: (VarId, Type)| (p.0, p.1@))
    }

    /// The type recorded for a local variable.
    fn var_type(&self, v: VarId) -> (r: Option<&Type>)
        ensures
            match r {
                Some(t) => recorded(self.var_table(), v) == Some(t@),
                None => recorded(self.var_table(), v) is None,
            },
    {
        let ghost s = self.var_table();
        let mut i: usize = 0;
        while i < self.var_types.len()
            invariant
                i <= self.var_types@.len(),
                s == self.var_table(),
                s.len() == self.var_types@.len(),
                forall|j: int| 0 <= j < i ==> s[j].0 != v,
            decreases self.var_types.len() - i,
        {
            assert(s[i as int] == (self.var_types@[i as int].0, self.var_types@[i as int].1@));
            if self.var_types[i].0 == v {
                proof {
                    lemma_recorded_skip(s, i as int, v);
                    assert(s.skip(i as int)[0] == s[i as int]);
                }
                return Some(&self.var_types[i].1);
            }
            i += 1;
        }
        proof {
            lemma_recorded_skip(s, i as int, v);
            assert(s.skip(i as int) =~= Seq::<(VarId, TypeV)>::empty());
        }
        None
    }

    /// Record the type of a local variable, replacing what was recorded.
    fn set_var_type(&mut self, v: VarId, ty: Type)
        ensures
            final(self).wf() == old(self).wf(),
            final(self).scope() == old(self).scope(),
            final(self).next_var() == old(self).next_var(),
            final(self).globals() == old(self).globals(),
            forall|w: VarId| #[trigger] recorded(final(self).var_table(), w)
                == if w == v { Some(ty@) } else { recorded(old(self).var_table(), w) },
    {
        let ghost s = self.var_table();
        let ghost tv = ty@;
        let mut i: usize = 0;
        while i < self.var_types.len()
            invariant
                self.wf() == old(self).wf(),
                self.scope() == old(self).scope(),
                self.next_var() == old(self).next_var(),
                self.globals() == old(self).globals(),
                s == old(self).var_table(),
                s == self.var_table(),
                tv == ty@,
                s.len() == self.var_types@.len(),
                i <= s.len(),
                forall|j: int| 0 <= j < i ==> s[j].0 != v,
            decreases self.var_types.len() - i,
        {
            assert(s[i as int] == (self.var_types@[i as int].0, self.var_types@[i as int].1@));
            if self.var_types[i].0 == v {
                let mut entries: Vec<(VarId, Type)> = Vec::new();
                std::mem::swap(&mut entries, &mut self.var_types);
                let ghost before = entries@;
                assert(before.map_values(|p: (VarId, Type)| (p.0, p.1@)) == s);
                let entry = (v, ty);
                assert(entry.1@ == tv);
                entries.set(i, entry);
                assert(entries@ == before.update(i as int, entry));
                self.var_types = entries;
                proof {
                    assert forall|k: int| 0 <= k < s.len() implies #[trigger] self.var_table()[k] == s.update(i as int, (v, tv))[k] by {
                        if k != i {
                            assert(self.var_types@[k] == before[k]);
                        }
                    }
                    assert(self.var_table() =~= s.update(i as int, (v, tv)));
                    assert forall|w: VarId| #[trigger] recorded(self.var_table(), w)
                        == if w == v { Some(tv) } else { recorded(s, w) } by {
                        lemma_recorded_update(s, i as int, (v, tv), w);
                    }
                }
                return;
            }
            i += 1;
        }
        self.var_types.push((v, ty));
        proof {
            assert(self.var_table() =~= s.push((v, tv)));
            assert forall|w: VarId| #[trigger] recorded(self.var_table(), w)
                == if w == v { Some(tv) } else { recorded(s, w) } by {
                lemma_recorded_push(s, (v, tv), w);
            }
        }
    }

    /// Instantiate a scheme with fresh type variables.
    fn instantiate(&mut self, scheme: &TypeScheme) -> (r: Result<Type, LowerError>)
        requires
            old(self).wf(),
        ensures
            r matches Err(e) ==> well_formed_error(e),
            final(self).wf(),
            final(self).scope() == old(self).scope(),
            final(self).next_var() == old(self).next_var(),
            final(self).var_table() == old(self).var_table(),
            final(self).globals() == old(self).globals(),
            scheme.vars@.len() == 0 ==> (r matches Ok(t) && t@ == scheme.ty@),
            match r {
                Ok(t) => t@ == crate::types::infer::instance_of(scheme@, old(self).type_supply()),
                Err(e) => e is TypeError,
            },
            crate::types::model::idempotent(crate::types::subst::inst_map(scheme.vars@, old(self).type_supply())) ==> r is Ok,
    {
        match self.checker.instantiate(scheme) {
            Ok(t) => {
                proof {
                    if scheme.vars@.len() == 0 {
                        let m = crate::types::subst::inst_map(scheme.vars@, old(self).checker.next_type_var());
                        assert(m =~= Map::<u64, TypeV>::empty());
                        crate::types::model::lemma_dapply_noop(m, scheme.ty@);
                    }
                }
                Ok(t)
            },
            Err(e) => Err(LowerError::TypeError(vec![e])),
        }
    }

    /// Get the type of an expression using local bindings.
    ///
    /// For simple expressions, computes the type directly.
    /// For complex expressions like pipes, falls back to the type checker.
    fn expr_type(&mut self, expr: &Spanned<Expr>) -> (r: Result<Type, LowerError>)
        requires
            old(self).wf(),
        ensures
            r matches Err(e) ==> well_formed_error(e),
            final(self).wf(),
            final(self).scope() == old(self).scope(),
            final(self).next_var() == old(self).next_var(),
            direct_type(expr.value) matches Some(t) ==> (r matches Ok(x) && x@ == t),
            final(self).var_table() == old(self).var_table(),
            local_type(expr.value, old(self).scope(), old(self).var_table()) matches Some(t) ==> (r matches Ok(x) && x@ == t),
            (expr.value is Var && !old(self).scope().dom().contains(expr.value->Var_0@)
                && old(self).globals().dom().contains(expr.value->Var_0@)
                && old(self).globals()[expr.value->Var_0@].0.len() == 0)
                ==> (r matches Ok(x) && x@ == old(self).globals()[expr.value->Var_0@].1),
            (expr.value is Con && old(self).constructor_schemes().dom().contains(expr.value->Con_0@)
                && old(self).constructor_schemes()[expr.value->Con_0@].0.len() == 0)
                ==> (r matches Ok(x) && x@ == old(self).constructor_schemes()[expr.value->Con_0@].1),
            (expr.value is Con && old(self).constructor_schemes().dom().contains(expr.value->Con_0@))
                ==> (match r {
                    Ok(x) => x@ == crate::types::infer::instance_of(old(self).constructor_schemes()[expr.value->Con_0@], old(self).type_supply()),
                    Err(e) => e is TypeError,
                }) && (crate::types::model::idempotent(crate::types::subst::inst_map(
                    old(self).constructor_schemes()[expr.value->Con_0@].0, old(self).type_supply())) ==> r is Ok),
            (expr.value is Var && !old(self).scope().dom().contains(expr.value->Var_0@)
                && old(self).globals().dom().contains(expr.value->Var_0@))
                ==> (match r {
                    Ok(x) => x@ == crate::types::infer::instance_of(old(self).globals()[expr.value->Var_0@], old(self).type_supply()),
                    Err(e) => e is TypeError,
                }) && (crate::types::model::idempotent(crate::types::subst::inst_map(
                    old(self).globals()[expr.value->Var_0@].0, old(self).type_supply())) ==> r is Ok),
            (expr.value is Con && !old(self).constructor_schemes().dom().contains(expr.value->Con_0@))
                ==> (r matches Err(e) && e is Internal),
            (expr.value is Annot && named_type(expr.value->Annot_1.value) is Some)
                ==> (r matches Ok(x) && x@ == named_type(expr.value->Annot_1.value)->0),
            (expr.value is App || expr.value is Lambda || expr.value is Match || expr.value is List
                || expr.value is Record || expr.value is Do || expr.value is EnvVar)
                ==> (r matches Err(e) && e is Internal),
        decreases expr,
    {
        match &expr.value {
            Expr::Lit(lit) => Ok(match lit {
                Literal::Int(_) => Type::int_type(),
                Literal::Float(_) => Type::float(),
                Literal::String(_) => Type::string(),
                Literal::Char(_) => Type::char(),
                Literal::Bool(_) => Type::bool(),
            }),
            Expr::Var(name) => {
                // First check local variables
                match self.vars.get(name.as_str()) {
                    Some(var_id) => {
                        let id = *var_id;
                        match self.var_type(id) {
                            Some(ty) => return Ok(ty.clone()),
                            None => {},
                        }
                    },
                    None => {},
                }
                // Fall back to global environment
                match self.checker.env().lookup(name.as_str()) {
                    Some(s) => {
                        let s = s.clone();
                        self.instantiate(&s)
                    },
                    None => {
                        let mut msg = owned("variable ");
                        push_str(&mut msg, name.as_str());
                        push_str(&mut msg, " not found");
                        Err(LowerError::Internal(msg))
                    },
                }
            },
            Expr::Con(name) => {
                match self.checker.env().lookup_constructor(name.as_str()) {
                    Some(s) => {
                        let s = s.clone();
                        self.instantiate(&s)
                    },
                    None => {
                        let mut msg = owned("constructor ");
                        push_str(&mut msg, name.as_str());
                        push_str(&mut msg, " not found");
                        Err(LowerError::Internal(msg))
                    },
                }
            },
            Expr::Unit => Ok(Type::unit()),
            Expr::Tuple(elems) => {
                let mut elem_tys: Vec<Type> = Vec::new();
                let mut i: usize = 0;
                while i < elems.len()
                    invariant
                        self.wf(),
                        self.scope() == old(self).scope(),
                        self.next_var() == old(self).next_var(),
                        self.var_table() == old(self).var_table(),
                        expr.value == Expr::Tuple(*elems),
                        elem_tys@.len() == i,
                        i <= elems@.len(),
                        forall|j: int| 0 <= j < i ==> local_type(#[trigger] elems@[j].value, old(self).scope(), old(self).var_table()) is Some
                            ==> elem_tys@[j]@ == local_type(elems@[j].value, old(self).scope(), old(self).var_table())->0,
                    decreases elems.len() - i,
                {
                    assert(decreases_to!(expr => expr.value));
                    assert(decreases_to!(expr.value => expr.value->Tuple_0));
                    assert(decreases_to!(*elems => elems@));
                    assert(decreases_to!(elems@ => elems@[i as int]));
                    proof { lemma_local_types(elems@, old(self).scope(), old(self).var_table()); }
                    elem_tys.push(self.expr_type(&elems[i])?);
                    i += 1;
                }
                proof {
                    lemma_tview_seq(elem_tys@);
                    if local_type(expr.value, old(self).scope(), old(self).var_table()) is Some {
                        let sc = old(self).scope();
                        let tb = old(self).var_table();
                        lemma_local_types(elems@, sc, tb);
                        assert forall|j: int| 0 <= j < elems@.len() implies tview_seq(elem_tys@)[j]
                            == local_types(elems@, sc, tb)->0[j] by {
                            assert(local_type(elems@[j].value, sc, tb) is Some);
                        }
                        assert(tview_seq(elem_tys@) =~= local_types(elems@, sc, tb)->0);
                    }
                }
                Ok(Type::Tuple(elem_tys))
            },
            Expr::BinOp(op, lhs, _) => {
                match op {
                    BinOp::Add | BinOp::Sub | BinOp::Mul | BinOp::Div | BinOp::Mod => {
                        assert(decreases_to!(expr => expr.value));
                        self.expr_type(lhs)  // Same as operand type
                    },
                    BinOp::Eq | BinOp::Neq | BinOp::Lt | BinOp::Le | BinOp::Gt | BinOp::Ge => Ok(Type::bool()),
                    BinOp::And | BinOp::Or => Ok(Type::bool()),
                    BinOp::Concat => Ok(Type::string()),
                    BinOp::Cons | BinOp::Append => {
                        assert(decreases_to!(expr => expr.value));
                        self.expr_type(lhs)
                    },
                }
            },
            Expr::UnOp(op, operand) => {
                match op {
                    UnOp::Not => Ok(Type::bool()),
                    UnOp::Neg => {
                        assert(decreases_to!(expr => expr.value));
                        self.expr_type(operand)
                    },
                }
            },
            Expr::If(_, then_branch, _) => {
                assert(decreases_to!(expr => expr.value));
                self.expr_type(then_branch)
            },
            Expr::Annot(_, ty_expr) => {
                // Type annotations have been checked; a simple one gives the type
                self.type_expr_to_type(ty_expr)
            },
            Expr::Command(_) => Ok(Type::command_result()),
            Expr::Field(record, field) => {
                assert(decreases_to!(expr => expr.value));
                let record_ty = self.expr_type(record)?;
                match &record_ty {
                    Type::Record(fields) => {
                        let mut i: usize = 0;
                        while i < fields.len()
                            invariant
                                expr.value is Field,
                                self.var_table() == old(self).var_table(),
                                self.wf(),
                                self.scope() == old(self).scope(),
                                self.next_var() == old(self).next_var(),
                                direct_type(expr.value) is None,
                            decreases fields.len() - i,
                        {
                            if fields[i].0 == field.value {
                                return Ok(fields[i].1.clone());
                            }
                            i += 1;
                        }
                        let mut msg = owned("field ");
                        push_str(&mut msg, field.value.as_str());
                        push_str(&mut msg, " not found");
                        Err(LowerError::Internal(msg))
                    },
                    _ => {
                        let mut msg = owned("expected record type for field access, got ");
                        push_str(&mut msg, record_ty.to_string().as_str());
                        Err(LowerError::Internal(msg))
                    },
                }
            },
            Expr::Pipe(lhs, rhs) => {
                // Check if both sides are commands - this is a shell pipeline
                if matches!(&lhs.value, Expr::Command(_)) && matches!(&rhs.value, Expr::Command(_)) {
                    return Ok(Type::command_result());
                }
                // Check for chained pipeline
                match &lhs.value {
                    Expr::Pipe(inner_lhs, inner_rhs) => {
                        if matches!(&inner_lhs.value, Expr::Command(_)) && matches!(&inner_rhs.value, Expr::Command(_))
                            && matches!(&rhs.value, Expr::Command(_)) {
                            return Ok(Type::command_result());
                        }
                    },
                    _ => {},
                }
                // For function pipes (lhs |> rhs = rhs(lhs)), use the type checker
                // to infer the full type
                match self.checker.infer_expr(expr) {
                    Ok(t) => Ok(t),
                    Err(e) => Err(LowerError::TypeError(vec![e])),
                }
            },
            // For complex expressions, we need more context
            // Return an error so caller uses expected type instead
            _ => Err(LowerError::Internal(owned("cannot determine expression type"))),
        }
    }

    /// Convert a TypeExpr to a Type (simple cases only).
    fn type_expr_to_type(&self, ty_expr: &Spanned<TypeExpr>) -> (r: Result<Type, LowerError>)
        ensures
            r matches Err(e) ==> e is Internal,
            named_type(ty_expr.value) matches Some(t) ==> (r matches Ok(x) && x@ == t),
        decreases ty_expr,
    {
        match &ty_expr.value {
            TypeExpr::Con(name) => {
                let n = name.as_str();
                if is_named(n, "int") { Ok(Type::int_type()) }
                else if is_named(n, "float") { Ok(Type::float()) }
                else if is_named(n, "string") { Ok(Type::string()) }
                else if is_named(n, "char") { Ok(Type::char()) }
                else if is_named(n, "bool") { Ok(Type::bool()) }
                else if is_named(n, "unit") { Ok(Type::unit()) }
                else {
                    let mut msg = owned("unknown type ");
                    push_str(&mut msg, n);
                    Err(LowerError::Internal(msg))
                }
            },
            TypeExpr::Paren(inner) => {
                assert(decreases_to!(ty_expr => ty_expr.value));
                self.type_expr_to_type(inner)
            },
            _ => Err(LowerError::Internal(owned("complex type expression"))),
        }
    }
}

/// The type that a type expression names when it is one of the primitive types, possibly
/// in parentheses.
pub open spec fn named_type(t: TypeExpr) -> Option<TypeV>
    decreases t,
{
    match t {
        TypeExpr::Con(n) => if n@ == "int"@ { Some(con0("int"@)) }
            else if n@ == "float"@ { Some(con0("float"@)) }
            else if n@ == "string"@ { Some(con0("string"@)) }
            else if n@ == "char"@ { Some(con0("char"@)) }
            else if n@ == "bool"@ { Some(con0("bool"@)) }
            else if n@ == "unit"@ { Some(con0("unit"@)) }
            else { None },
        TypeExpr::Paren(inner) => named_type(inner.value),
        _ => None,
    }
}

/// The type of an application in A-Normal Form is the application's.
proof fn lemma_anf_app_type(f: IrV, a: IrV, t: TypeV, v1: VarId, v2: VarId)
    ensures
        ir_type(anf_app(f, a, t, v1, v2)) == t,
{
    reveal_with_fuel(ir_type, 3);
}

impl Lower {
    /// Lower an expression to IR, at the type `ty` it has.
    fn lower_expr(&mut self, expr: &Spanned<Expr>, ty: &Type) -> (r: Result<IRExpr, LowerError>)
        requires
            old(self).wf(),
        ensures
            r matches Err(e) ==> well_formed_error(e),
            final(self).wf(),
            r matches Ok(ir) ==> typed_at(ir@, ty@),
            expr.value matches Expr::Lit(l) ==> (r matches Ok(ir) && ir@ == IrV::Lit(literal_ir(l), ty@)),
            expr.value matches Expr::Var(n) ==> (r matches Ok(ir) && ir@ == (if old(self).scope().dom().contains(n@) {
                IrV::Var(old(self).scope()[n@], ty@)
            } else {
                IrV::Global(n@, ty@)
            })),
            expr.value matches Expr::Con(n) ==> (r matches Ok(ir) && ir@ == IrV::Construct(n@, None, ty@)),
            expr.value is Unit ==> (r matches Ok(ir) && ir@ == IrV::Unit),
            expr.value is Redirect ==> (r matches Err(e) && e is Unsupported),
            (expr.value is Lit || expr.value is Var || expr.value is Con || expr.value is Unit)
                ==> final(self).scope() == old(self).scope(),
            (expr.value matches Expr::BinOp(op, _, _) && strict_binop(op) && r is Ok) ==> lowered_binop(r->Ok_0@, expr.value->BinOp_0,
                expr.value->BinOp_1.value, expr.value->BinOp_2.value, ty@, old(self).scope()),
            (expr.value matches Expr::BinOp(op, _, _) && !strict_binop(op) && r is Ok) ==> lowered_logical(r->Ok_0@,
                expr.value->BinOp_0 == BinOp::And, expr.value->BinOp_1.value, expr.value->BinOp_2.value, ty@, old(self).scope()),
        decreases expr, 2nat, 0nat,
    {
        match &expr.value {
            Expr::Lit(lit) => Ok(self.lower_literal(lit, ty)),
            Expr::Var(name) => {
                match self.vars.get(name.as_str()) {
                    Some(var_id) => Ok(IRExpr::Var(*var_id, ty.clone())),
                    // Must be a global variable
                    None => Ok(IRExpr::Global(name.clone(), ty.clone())),
                }
            },
            Expr::Con(name) => {
                // Constructor without argument
                Ok(IRExpr::Construct { ctor: name.clone(), arg: None, ty: ty.clone() })
            },
            Expr::Unit => Ok(IRExpr::Unit),
            Expr::App(_, _) => self.lower_app(expr, ty),
            Expr::Lambda(_, _) => self.lower_lambda(expr, ty),
            Expr::Let { .. } => self.lower_let_expr(expr, ty),
            Expr::If(_, _, _) => self.lower_if(expr, ty),
            Expr::Match(_, _) => self.lower_match(expr, ty),
            Expr::BinOp(_, _, _) => self.lower_binop(expr, ty),
            Expr::UnOp(_, _) => self.lower_unop(expr, ty),
            Expr::Tuple(_) => self.lower_tuple(expr, ty),
            Expr::List(_) => self.lower_list(expr, ty),
            Expr::Record(_) => self.lower_record(expr, ty),
            Expr::Field(_, _) => self.lower_field(expr, ty),
            Expr::Pipe(_, _) => self.lower_pipe(expr, ty),
            Expr::EnvVar(name) => {
                // Environment variable access becomes getEnv call
                let name_expr = IRExpr::Lit(IRLiteral::String(name.clone()), Type::string());
                Ok(IRExpr::Prim { op: Primitive::GetEnv, args: vec![name_expr], ty: ty.clone() })
            },
            Expr::Annot(inner, _) => {
                // Type annotations are erased
                assert(decreases_to!(expr => expr.value));
                self.lower_expr(inner, ty)
            },
            Expr::Do(_) => self.lower_do(expr, ty),
            Expr::Command(_) => self.lower_command(expr, None, ty),
            Expr::Redirect { .. } => Err(LowerError::Unsupported(owned("redirect expressions"))),
        }
    }

    /// Lower a shell command expression, with the output of `stdin`, where given,
    /// as its input.
    fn lower_command(&mut self, expr: &Spanned<Expr>, stdin: Option<IRExpr>, ty: &Type) -> (r: Result<IRExpr, LowerError>)
        requires
            old(self).wf(),
        ensures
            r matches Err(e) ==> well_formed_error(e),
            final(self).wf(),
            r matches Ok(ir) ==> typed_at(ir@, ty@),
        decreases expr, 1nat, 0nat,
    {
        match &expr.value {
            Expr::Command(parts) => {
                // Build the command parts into IR
                let mut ir_parts: Vec<IRCommandPart> = Vec::new();
                let mut i: usize = 0;
                while i < parts.len()
                    invariant
                        self.wf(),
                        expr.value == Expr::Command(*parts),
                    decreases parts.len() - i,
                {
                    match &parts[i] {
                        CommandPart::Literal(s) => {
                            ir_parts.push(IRCommandPart::Literal(s.clone()));
                        },
                        CommandPart::Interpolation(e) => {
                            assert(decreases_to!(expr => expr.value));
                            assert(decreases_to!(expr.value => expr.value->Command_0));
                            assert(decreases_to!(*parts => parts@));
                            assert(decreases_to!(parts@ => parts@[i as int]));
                            assert(decreases_to!(parts@[i as int] => **e));
                            let expr_ty = self.expr_type(e)?;
                            let ir_expr = self.lower_expr(e, &expr_ty)?;
                            ir_parts.push(IRCommandPart::Interpolation(Box::new(ir_expr)));
                        },
                    }
                    i += 1;
                }
                let stdin = match stdin {
                    Some(s) => Some(Box::new(s)),
                    None => None,
                };
                Ok(IRExpr::Command { parts: ir_parts, stdin, ty: ty.clone() })
            },
            _ => Err(LowerError::Internal(owned("expected a command"))),
        }
    }

    /// Lower a function application.
    fn lower_app(&mut self, expr: &Spanned<Expr>, result_ty: &Type) -> (r: Result<IRExpr, LowerError>)
        requires
            old(self).wf(),
        ensures
            r matches Err(e) ==> well_formed_error(e),
            final(self).wf(),
            r matches Ok(ir) ==> typed_at(ir@, result_ty@),
        decreases expr, 1nat, 0nat,
    {
        match &expr.value {
            Expr::App(func, arg) => {
                assert(decreases_to!(expr => expr.value));
                // Check if this is a constructor application
                match &func.value {
                    Expr::Con(name) => {
                        let arg_ty = self.expr_type(arg)?;
                        let ir_arg = self.lower_expr(arg, &arg_ty)?;
                        return Ok(IRExpr::Construct {
                            ctor: name.clone(),
                            arg: Some(Box::new(ir_arg)),
                            ty: result_ty.clone(),
                        });
                    },
                    _ => {},
                }
                match &func.value {
                    Expr::Var(name) => {
                        // Check if this is a trait method call
                        match self.resolve_trait_method(name.as_str(), arg)? {
                            Some(impl_name) => {
                                // Found a trait method - call the implementation function instead
                                match self.lookup_builtin(impl_name.as_str()) {
                                    Some(builtin) => return self.lower_builtin_call(builtin, arg, result_ty),
                                    None => {},
                                }
                            },
                            None => {},
                        }
                        // Check if this is a built-in function call
                        match self.lookup_builtin(name.as_str()) {
                            Some(builtin) => return self.lower_builtin_call(builtin, arg, result_ty),
                            None => {},
                        }
                    },
                    _ => {},
                }
                // Infer types
                let arg_ty = self.expr_type(arg)?;
                let func_ty = Type::arrow(arg_ty.clone(), result_ty.clone());
                // Lower function and argument
                let ir_func = self.lower_expr(func, &func_ty)?;
                let ir_arg = self.lower_expr(arg, &arg_ty)?;
                // In ANF, we need to ensure both func and arg are values
                // If not, we bind them to temporary variables using Let
                let ghost n = self.next_var();
                let r = self.ensure_anf_app(ir_func, ir_arg, result_ty);
                proof {
                    lemma_anf_app_type(ir_func@, ir_arg@, result_ty@, var_id_of(n), var_id_of(next_var_id(n)));
                }
                Ok(r)
            },
            _ => Err(LowerError::Internal(owned("expected an application"))),
        }
    }

    /// Resolve a trait method call to its implementation function.
    ///
    /// Returns the implementation function name if this is a trait method call,
    /// or None if it's not a trait method.
    fn resolve_trait_method(&mut self, method_name: &str, arg: &Spanned<Expr>) -> (r: Result<Option<String>, LowerError>)
        requires
            old(self).wf(),
        ensures
            r matches Err(e) ==> well_formed_error(e),
            final(self).wf(),
            final(self).scope() == old(self).scope(),
            final(self).next_var() == old(self).next_var(),
    {
        // Find which trait class this method belongs to
        let class_name = match self.checker.env().find_method_class(method_name) {
            Some((c, _)) => c,
            None => return Ok(None),
        };
        // Get the argument type
        let arg_ty = self.expr_type(arg)?;
        // Find the instance for this type
        let instance = match self.checker.env().find_instance(class_name.as_str(), &arg_ty) {
            Some(inst) => inst,
            None => {
                let mut msg = owned("no instance of '");
                push_str(&mut msg, class_name.as_str());
                push_str(&mut msg, "' for type ");
                push_str(&mut msg, arg_ty.to_string().as_str());
                return Err(LowerError::Internal(msg));
            },
        };
        // Look up the implementation function for this method
        let mut i: usize = 0;
        while i < instance.methods.len()
            invariant
                self.wf(),
                self.scope() == old(self).scope(),
                self.next_var() == old(self).next_var(),
            decreases instance.methods.len() - i,
        {
            if is_named(instance.methods[i].0.as_str(), method_name) {
                return Ok(Some(instance.methods[i].1.clone()));
            }
            i += 1;
        }
        let mut msg = owned("method '");
        push_str(&mut msg, method_name);
        push_str(&mut msg, "' not found in instance");
        Err(LowerError::Internal(msg))
    }

    /// Lower a built-in function call to IR.
    fn lower_builtin_call(&mut self, builtin: Primitive, arg: &Spanned<Expr>, result_ty: &Type) -> (r: Result<IRExpr, LowerError>)
        requires
            old(self).wf(),
        ensures
            r matches Err(e) ==> well_formed_error(e),
            final(self).wf(),
            r matches Ok(ir) ==> ir@ matches IrV::Prim(p, _, t) && p == builtin && t == result_ty@,
            r matches Ok(ir) ==> typed_at(ir@, result_ty@),
        decreases arg, 3nat, 0nat,
    {
        // Handle multi-argument builtins (passed as tuples)
        match builtin {
            // Two-argument functions
            Primitive::CharAt | Primitive::WriteFile => {
                // These take a tuple argument
                match &arg.value {
                    Expr::Tuple(elems) => {
                        if elems.len() == 2 {
                            assert(decreases_to!(arg => arg.value));
                            assert(decreases_to!(arg.value => arg.value->Tuple_0));
                            assert(decreases_to!(*elems => elems@));
                            assert(decreases_to!(elems@ => elems@[0]));
                            assert(decreases_to!(elems@ => elems@[1]));
                            let ty0 = self.expr_type(&elems[0])?;
                            let ty1 = self.expr_type(&elems[1])?;
                            let arg0 = self.lower_expr(&elems[0], &ty0)?;
                            let arg1 = self.lower_expr(&elems[1], &ty1)?;
                            return Ok(IRExpr::Prim { op: builtin, args: vec![arg0, arg1], ty: result_ty.clone() });
                        }
                    },
                    _ => {},
                }
                // Fall through to single arg handling for partial application
            },
            // Three-argument functions
            Primitive::Substring => {
                match &arg.value {
                    Expr::Tuple(elems) => {
                        if elems.len() == 3 {
                            assert(decreases_to!(arg => arg.value));
                            assert(decreases_to!(arg.value => arg.value->Tuple_0));
                            assert(decreases_to!(*elems => elems@));
                            assert(decreases_to!(elems@ => elems@[0]));
                            assert(decreases_to!(elems@ => elems@[1]));
                            assert(decreases_to!(elems@ => elems@[2]));
                            let ty0 = self.expr_type(&elems[0])?;
                            let ty1 = self.expr_type(&elems[1])?;
                            let ty2 = self.expr_type(&elems[2])?;
                            let arg0 = self.lower_expr(&elems[0], &ty0)?;
                            let arg1 = self.lower_expr(&elems[1], &ty1)?;
                            let arg2 = self.lower_expr(&elems[2], &ty2)?;
                            return Ok(IRExpr::Prim { op: builtin, args: vec![arg0, arg1, arg2], ty: result_ty.clone() });
                        }
                    },
                    _ => {},
                }
                // Fall through to single arg handling
            },
            _ => {},
        }
        // Single-argument builtins
        let arg_ty = self.expr_type(arg)?;
        let ir_arg = self.lower_expr(arg, &arg_ty)?;
        Ok(IRExpr::Prim { op: builtin, args: vec![ir_arg], ty: result_ty.clone() })
    }

    /// Lower a lambda expression.
    fn lower_lambda(&mut self, expr: &Spanned<Expr>, ty: &Type) -> (r: Result<IRExpr, LowerError>)
        requires
            old(self).wf(),
        ensures
            r matches Err(e) ==> well_formed_error(e),
            final(self).wf(),
            r matches Ok(ir) ==> typed_at(ir@, ty@),
        decreases expr, 1nat, 0nat,
    {
        match &expr.value {
            Expr::Lambda(params, _) => {
                // Decompose the function type
                let mut current_ty = ty;
                let mut param_tys: Vec<Type> = Vec::new();
                let mut i: usize = 0;
                assert(tview_seq(param_tys@) =~= Seq::<TypeV>::empty());
                while i < params.len()
                    invariant
                        self.wf(),
                        ty@ == arrows_v(tview_seq(param_tys@), current_ty@),
                        param_tys@.len() == i,
                        i <= params@.len(),
                    decreases params.len() - i,
                {
                    match current_ty.decompose_arrow() {
                        Some((param_ty, rest_ty)) => {
                            let ghost before = param_tys@;
                            let p = param_ty.clone();
                            param_tys.push(p);
                            proof {
                                assert(param_tys@.drop_last() =~= before);
                                assert(tview_seq(param_tys@) == tview_seq(before).push(p@));
                                lemma_arrows_push(tview_seq(before), p@, rest_ty@);
                            }
                            current_ty = rest_ty;
                        },
                        None => return Err(LowerError::Internal(owned("lambda type mismatch"))),
                    }
                    i += 1;
                }
                let result_ty = current_ty.clone();
                proof {
                    lemma_tview_seq(param_tys@);
                    assert(tview_seq(param_tys@).subrange(0, param_tys@.len() as int) =~= tview_seq(param_tys@));
                }
                // Build nested lambdas (curried form)
                self.build_curried_lambda(expr, 0, &param_tys, &result_ty)
            },
            _ => Err(LowerError::Internal(owned("expected a lambda"))),
        }
    }

    /// Build a curried lambda from the parameters from the `i`-th on.
    fn build_curried_lambda(&mut self, expr: &Spanned<Expr>, i: usize, param_tys: &Vec<Type>, result_ty: &Type)
        -> (r: Result<IRExpr, LowerError>)
        requires
            old(self).wf(),
            expr.value matches Expr::Lambda(params, _) && params@.len() == param_tys@.len(),
            i <= param_tys@.len(),
        ensures
            r matches Err(e) ==> well_formed_error(e),
            final(self).wf(),
            r matches Ok(ir) ==> typed_at(ir@, arrows_v(tview_seq(param_tys@).subrange(i as int, param_tys@.len() as int), result_ty@)),
        decreases expr, 0nat, param_tys@.len() - i,
    {
        proof { lemma_tview_seq(param_tys@); }
        let ghost tv = tview_seq(param_tys@);
        let n = param_tys.len();
        match &expr.value {
            Expr::Lambda(params, body) => {
                if i == n {
                    assert(tv.subrange(i as int, n as int) =~= Seq::<TypeV>::empty());
                    assert(decreases_to!(expr => expr.value));
                    return self.lower_expr(body, result_ty);
                }
                let param = &params[i];
                let param_ty = &param_tys[i];
                let var_id = self.bind_pattern(&param.value, param_ty)?;
                // Build the inner function type
                let mut inner_result_ty = result_ty.clone();
                let mut j: usize = n;
                assert(tv.subrange(n as int, n as int) =~= Seq::<TypeV>::empty());
                while j > i + 1
                    invariant
                        i + 1 <= j <= n,
                        n == param_tys@.len(),
                        tv == tview_seq(param_tys@),
                        tv.len() == n,
                        forall|k: int| 0 <= k < n ==> #[trigger] tv[k] == param_tys@[k]@,
                        inner_result_ty@ == arrows_v(tv.subrange(j as int, n as int), result_ty@),
                    decreases j,
                {
                    let ghost prev = inner_result_ty@;
                    inner_result_ty = Type::arrow(param_tys[j - 1].clone(), inner_result_ty);
                    proof {
                        let s = tv.subrange(j - 1, n as int);
                        assert(s.drop_first() =~= tv.subrange(j as int, n as int));
                        assert(s[0] == tv[j - 1]);
                    }
                    j -= 1;
                }
                let inner = self.build_curried_lambda(expr, i + 1, param_tys, result_ty)?;
                self.unbind_pattern(&param.value);
                let r = IRExpr::Lambda {
                    param: var_id,
                    param_ty: param_ty.clone(),
                    body: Box::new(inner),
                    result_ty: inner_result_ty,
                };
                proof {
                    let s = tv.subrange(i as int, n as int);
                    assert(s.drop_first() =~= tv.subrange(i + 1, n as int));
                    assert(s[0] == tv[i as int]);
                    assert(ir_type(r@) == TypeV::Arrow(Box::new(param_tys@[i as int]@), Box::new(arrows_v(tv.subrange(i + 1, n as int), result_ty@))));
                }
                Ok(r)
            },
            _ => Err(LowerError::Internal(owned("expected a lambda"))),
        }
    }

    /// Lower a let expression: `let p = e1 in e2`
    fn lower_let_expr(&mut self, expr: &Spanned<Expr>, ty: &Type) -> (r: Result<IRExpr, LowerError>)
        requires
            old(self).wf(),
        ensures
            r matches Err(e) ==> well_formed_error(e),
            final(self).wf(),
            r matches Ok(ir) ==> typed_at(ir@, ty@),
        decreases expr, 1nat, 0nat,
    {
        match &expr.value {
            Expr::Let { pattern, value, body, .. } => {
                assert(decreases_to!(expr => expr.value));
                let value_ty = self.expr_type(value)?;
                let ir_value = self.lower_expr(value, &value_ty)?;
                // For simple variable pattern, create a direct let binding
                match &pattern.value {
                    Pattern::Var(name) => {
                        let var = self.fresh();
                        self.vars.insert(name.clone(), var);
                        self.set_var_type(var, value_ty.clone());
                        let ir_body = self.lower_expr(body, ty)?;
                        return Ok(IRExpr::Let { var, ty: value_ty, value: Box::new(ir_value), body: Box::new(ir_body) });
                    },
                    _ => {},
                }
                // For complex patterns, translate to a match expression
                // let p = e1 in e2  =>  match e1 { p -> e2 }
                // First bind pattern variables
                self.bind_pattern(&pattern.value, &value_ty)?;
                let ir_body = self.lower_expr(body, ty)?;
                // Lower the pattern match
                let scrutinee_var = self.fresh();
                let ir_pattern = self.lower_pattern(&pattern.value, &value_ty)?;
                let m = IRExpr::Match {
                    scrutinee: Box::new(IRExpr::Var(scrutinee_var, value_ty.clone())),
                    arms: vec![(ir_pattern, ir_body)],
                    ty: ty.clone(),
                };
                let r = IRExpr::Let { var: scrutinee_var, ty: value_ty, value: Box::new(ir_value), body: Box::new(m) };
                assert(ir_type(r@) == ir_type(m@));
                Ok(r)
            },
            _ => Err(LowerError::Internal(owned("expected a let expression"))),
        }
    }

    /// Lower an if expression.
    fn lower_if(&mut self, expr: &Spanned<Expr>, ty: &Type) -> (r: Result<IRExpr, LowerError>)
        requires
            old(self).wf(),
        ensures
            r matches Err(e) ==> well_formed_error(e),
            final(self).wf(),
            r matches Ok(ir) ==> typed_at(ir@, ty@),
        decreases expr, 1nat, 0nat,
    {
        match &expr.value {
            Expr::If(cond, then_expr, else_expr) => {
                assert(decreases_to!(expr => expr.value));
                let ir_cond = self.lower_expr(cond, &Type::bool())?;
                let ir_then = self.lower_expr(then_expr, ty)?;
                let ir_else = self.lower_expr(else_expr, ty)?;
                // In ANF, condition should be a value
                if ir_cond.is_value() {
                    Ok(IRExpr::If {
                        cond: Box::new(ir_cond),
                        then_branch: Box::new(ir_then),
                        else_branch: Box::new(ir_else),
                        ty: ty.clone(),
                    })
                } else {
                    let cond_var = self.fresh();
                    let i = IRExpr::If {
                        cond: Box::new(IRExpr::Var(cond_var, Type::bool())),
                        then_branch: Box::new(ir_then),
                        else_branch: Box::new(ir_else),
                        ty: ty.clone(),
                    };
                    let r = IRExpr::Let { var: cond_var, ty: Type::bool(), value: Box::new(ir_cond), body: Box::new(i) };
                    assert(ir_type(r@) == ir_type(i@));
                    Ok(r)
                }
            },
            _ => Err(LowerError::Internal(owned("expected an if expression"))),
        }
    }

    /// Lower a match expression.
    fn lower_match(&mut self, expr: &Spanned<Expr>, ty: &Type) -> (r: Result<IRExpr, LowerError>)
        requires
            old(self).wf(),
        ensures
            r matches Err(e) ==> well_formed_error(e),
            final(self).wf(),
            r matches Ok(ir) ==> typed_at(ir@, ty@),
        decreases expr, 1nat, 0nat,
    {
        match &expr.value {
            Expr::Match(scrutinee, arms) => {
                assert(decreases_to!(expr => expr.value));
                let scrutinee_ty = self.expr_type(scrutinee)?;
                let ir_scrutinee = self.lower_expr(scrutinee, &scrutinee_ty)?;
                let mut ir_arms: Vec<(IRPattern, IRExpr)> = Vec::new();
                let mut i: usize = 0;
                while i < arms.len()
                    invariant
                        self.wf(),
                        expr.value == Expr::Match(*scrutinee, *arms),
                    decreases arms.len() - i,
                {
                    let arm = &arms[i];
                    if arm.guard.is_some() {
                        return Err(LowerError::Unsupported(owned("match guards")));
                    }
                    let ir_pattern = self.lower_pattern(&arm.pattern.value, &scrutinee_ty)?;
                    // Bind pattern variables
                    self.bind_pattern(&arm.pattern.value, &scrutinee_ty)?;
                    assert(decreases_to!(expr.value => expr.value->Match_1));
                    assert(decreases_to!(*arms => arms@));
                    assert(decreases_to!(arms@ => arms@[i as int]));
                    assert(decreases_to!(arms@[i as int] => arms@[i as int].body));
                    let ir_body = self.lower_expr(&arm.body, ty)?;
                    self.unbind_pattern(&arm.pattern.value);
                    ir_arms.push((ir_pattern, ir_body));
                    i += 1;
                }
                // Ensure scrutinee is a value
                if ir_scrutinee.is_value() {
                    Ok(IRExpr::Match { scrutinee: Box::new(ir_scrutinee), arms: ir_arms, ty: ty.clone() })
                } else {
                    let scrutinee_var = self.fresh();
                    let m = IRExpr::Match {
                        scrutinee: Box::new(IRExpr::Var(scrutinee_var, scrutinee_ty.clone())),
                        arms: ir_arms,
                        ty: ty.clone(),
                    };
                    let r = IRExpr::Let {
                        var: scrutinee_var,
                        ty: scrutinee_ty,
                        value: Box::new(ir_scrutinee),
                        body: Box::new(m),
                    };
                    assert(ir_type(r@) == ir_type(m@));
                    Ok(r)
                }
            },
            _ => Err(LowerError::Internal(owned("expected a match expression"))),
        }
    }

    /// Lower a binary operation.
    fn lower_binop(&mut self, expr: &Spanned<Expr>, result_ty: &Type) -> (r: Result<IRExpr, LowerError>)
        requires
            old(self).wf(),
        ensures
            r matches Err(e) ==> well_formed_error(e),
            final(self).wf(),
            r matches Ok(ir) ==> typed_at(ir@, result_ty@),
            (expr.value matches Expr::BinOp(op, _, _) && strict_binop(op) && r is Ok) ==> lowered_binop(r->Ok_0@, expr.value->BinOp_0,
                expr.value->BinOp_1.value, expr.value->BinOp_2.value, result_ty@, old(self).scope()),
            (expr.value matches Expr::BinOp(op, _, _) && !strict_binop(op) && r is Ok) ==> lowered_logical(r->Ok_0@,
                expr.value->BinOp_0 == BinOp::And, expr.value->BinOp_1.value, expr.value->BinOp_2.value, result_ty@, old(self).scope()),
        decreases expr, 1nat, 0nat,
    {
        match &expr.value {
            Expr::BinOp(op, lhs, rhs) => {
                assert(decreases_to!(expr => expr.value));
                let lhs_ty = self.expr_type(lhs)?;
                let ghost scope0 = self.scope();
                let ir_lhs = self.lower_expr(lhs, &lhs_ty)?;
                let ghost scope1 = self.scope();
                let ir_rhs = self.lower_expr(rhs, &lhs_ty)?;
                // Specialize the primitive based on operand type
                let prim = self.specialize_binop(*op, &lhs_ty)?;
                // Short-circuit for And/Or
                proof {
                    if is_leaf(lhs.value) {
                        assert(scope1 == scope0);
                    }
                }
                match op {
                    BinOp::And => return Ok(self.lower_short_circuit(true, ir_lhs, ir_rhs, result_ty)),
                    BinOp::Or => return Ok(self.lower_short_circuit(false, ir_lhs, ir_rhs, result_ty)),
                    _ => {},
                }
                let args = vec![ir_lhs, ir_rhs];
                proof {
                    crate::ir::tree::lemma_eview_seq(args@);
                    assert(scope0 == old(self).scope());
                    if is_leaf(lhs.value) {
                        assert(scope1 == scope0);
                    }
                    assert(leaf_lowering(args@[0]@, lhs.value, scope0));
                    if lhs.value is Lit {
                        assert(lhs_ty@ == crate::types::infer::literal_type(lhs.value->Lit_0));
                    }
                    lemma_prim_for(*op, lhs_ty@, prim, lhs.value);
                }
                Ok(IRExpr::Prim { op: prim, args, ty: result_ty.clone() })
            },
            _ => Err(LowerError::Internal(owned("expected a binary operation"))),
        }
    }

    /// Lower a unary operation.
    fn lower_unop(&mut self, expr: &Spanned<Expr>, result_ty: &Type) -> (r: Result<IRExpr, LowerError>)
        requires
            old(self).wf(),
        ensures
            r matches Err(e) ==> well_formed_error(e),
            final(self).wf(),
            r matches Ok(ir) ==> typed_at(ir@, result_ty@),
        decreases expr, 1nat, 0nat,
    {
        match &expr.value {
            Expr::UnOp(op, operand) => {
                assert(decreases_to!(expr => expr.value));
                let operand_ty = self.expr_type(operand)?;
                let ir_operand = self.lower_expr(operand, &operand_ty)?;
                let prim = match op {
                    UnOp::Not => Primitive::Not,
                    UnOp::Neg => {
                        let is_float = match &operand_ty {
                            Type::Con(name, _) => is_named(name.as_str(), "float"),
                            _ => false,
                        };
                        if is_float { Primitive::NegFloat } else { Primitive::NegInt }
                    },
                };
                Ok(IRExpr::Prim { op: prim, args: vec![ir_operand], ty: result_ty.clone() })
            },
            _ => Err(LowerError::Internal(owned("expected a unary operation"))),
        }
    }

    /// Lower a tuple expression.
    fn lower_tuple(&mut self, expr: &Spanned<Expr>, ty: &Type) -> (r: Result<IRExpr, LowerError>)
        requires
            old(self).wf(),
        ensures
            r matches Err(e) ==> well_formed_error(e),
            final(self).wf(),
            r matches Ok(ir) ==> typed_at(ir@, ty@),
        decreases expr, 1nat, 0nat,
    {
        match &expr.value {
            Expr::Tuple(elems) => {
                let elem_tys = match ty {
                    Type::Tuple(tys) => tys,
                    _ => return Err(LowerError::Internal(owned("tuple expression with non-tuple type"))),
                };
                let mut ir_elems: Vec<IRExpr> = Vec::new();
                let mut i: usize = 0;
                while i < elems.len() && i < elem_tys.len()
                    invariant
                        self.wf(),
                        expr.value == Expr::Tuple(*elems),
                    decreases elems.len() - i,
                {
                    assert(decreases_to!(expr => expr.value));
                    assert(decreases_to!(expr.value => expr.value->Tuple_0));
                    assert(decreases_to!(*elems => elems@));
                    assert(decreases_to!(elems@ => elems@[i as int]));
                    ir_elems.push(self.lower_expr(&elems[i], &elem_tys[i])?);
                    i += 1;
                }
                Ok(IRExpr::Tuple { elems: ir_elems, ty: ty.clone() })
            },
            _ => Err(LowerError::Internal(owned("expected a tuple"))),
        }
    }

    /// Lower a list expression.
    fn lower_list(&mut self, expr: &Spanned<Expr>, ty: &Type) -> (r: Result<IRExpr, LowerError>)
        requires
            old(self).wf(),
        ensures
            r matches Err(e) ==> well_formed_error(e),
            final(self).wf(),
            r matches Ok(ir) ==> typed_at(ir@, ty@),
        decreases expr, 1nat, 0nat,
    {
        match &expr.value {
            Expr::List(elems) => {
                let elem_ty = match ty {
                    Type::Con(name, args) => {
                        if is_named(name.as_str(), "list") && args.len() == 1 {
                            &args[0]
                        } else {
                            return Err(LowerError::Internal(owned("list expression with non-list type")));
                        }
                    },
                    _ => return Err(LowerError::Internal(owned("list expression with non-list type"))),
                };
                // Build list from right to left: [a, b, c] => Cons(a, Cons(b, Cons(c, Nil)))
                let nil = IRExpr::Construct { ctor: owned("Nil"), arg: None, ty: ty.clone() };
                let mut result = nil;
                let mut i: usize = elems.len();
                while i > 0
                    invariant
                        self.wf(),
                        i <= elems@.len(),
                        expr.value == Expr::List(*elems),
                        ir_type(result@) == ty@,
                    decreases i,
                {
                    i -= 1;
                    assert(decreases_to!(expr => expr.value));
                    assert(decreases_to!(expr.value => expr.value->List_0));
                    assert(decreases_to!(*elems => elems@));
                    assert(decreases_to!(elems@ => elems@[i as int]));
                    let ir_elem = self.lower_expr(&elems[i], elem_ty)?;
                    // Cons takes element and list, returns list
                    result = IRExpr::Prim { op: Primitive::Cons, args: vec![ir_elem, result], ty: ty.clone() };
                }
                Ok(result)
            },
            _ => Err(LowerError::Internal(owned("expected a list"))),
        }
    }

    /// Lower a record expression.
    fn lower_record(&mut self, expr: &Spanned<Expr>, ty: &Type) -> (r: Result<IRExpr, LowerError>)
        requires
            old(self).wf(),
        ensures
            r matches Err(e) ==> well_formed_error(e),
            final(self).wf(),
            r matches Ok(ir) ==> typed_at(ir@, ty@),
        decreases expr, 1nat, 0nat,
    {
        match &expr.value {
            Expr::Record(fields) => {
                let field_tys = match ty {
                    Type::Record(flds) => flds,
                    _ => return Err(LowerError::Internal(owned("record expression with non-record type"))),
                };
                let mut ir_fields: Vec<(String, IRExpr)> = Vec::new();
                let mut i: usize = 0;
                while i < fields.len()
                    invariant
                        self.wf(),
                        expr.value == Expr::Record(*fields),
                    decreases fields.len() - i,
                {
                    let name = &fields[i].0;
                    // The type of the field, its last entry where it has several
                    let mut found: Option<&Type> = None;
                    let mut k: usize = 0;
                    while k < field_tys.len()
                        decreases field_tys.len() - k,
                    {
                        if field_tys[k].0 == name.value {
                            found = Some(&field_tys[k].1);
                        }
                        k += 1;
                    }
                    let field_ty = match found {
                        Some(t) => t,
                        None => {
                            let mut msg = owned("unknown field ");
                            push_str(&mut msg, name.value.as_str());
                            return Err(LowerError::Internal(msg));
                        },
                    };
                    assert(decreases_to!(expr => expr.value));
                    assert(decreases_to!(expr.value => expr.value->Record_0));
                    assert(decreases_to!(*fields => fields@));
                    assert(decreases_to!(fields@ => fields@[i as int]));
                    assert(decreases_to!(fields@[i as int] => fields@[i as int].1));
                    let ir_expr = self.lower_expr(&fields[i].1, field_ty)?;
                    ir_fields.push((name.value.clone(), ir_expr));
                    i += 1;
                }
                Ok(IRExpr::Record { fields: ir_fields, ty: ty.clone() })
            },
            _ => Err(LowerError::Internal(owned("expected a record"))),
        }
    }

    /// Lower a field access expression.
    fn lower_field(&mut self, expr: &Spanned<Expr>, ty: &Type) -> (r: Result<IRExpr, LowerError>)
        requires
            old(self).wf(),
        ensures
            r matches Err(e) ==> well_formed_error(e),
            final(self).wf(),
            r matches Ok(ir) ==> typed_at(ir@, ty@),
        decreases expr, 1nat, 0nat,
    {
        match &expr.value {
            Expr::Field(record, field) => {
                assert(decreases_to!(expr => expr.value));
                let record_ty = self.expr_type(record)?;
                let ir_record = self.lower_expr(record, &record_ty)?;
                Ok(IRExpr::Field { record: Box::new(ir_record), field: field.value.clone(), ty: ty.clone() })
            },
            _ => Err(LowerError::Internal(owned("expected a field access"))),
        }
    }

    /// Lower a pipe expression.
    ///
    /// For command pipelines (`cmd1` |> `cmd2`), pipes stdout of cmd1 to stdin of cmd2.
    /// For function pipelines (x |> f), becomes function application f(x).
    fn lower_pipe(&mut self, expr: &Spanned<Expr>, result_ty: &Type) -> (r: Result<IRExpr, LowerError>)
        requires
            old(self).wf(),
        ensures
            r matches Err(e) ==> well_formed_error(e),
            final(self).wf(),
            r matches Ok(ir) ==> typed_at(ir@, result_ty@),
        decreases expr, 1nat, 0nat,
    {
        match &expr.value {
            Expr::Pipe(lhs, rhs) => {
                assert(decreases_to!(expr => expr.value));
                // Check if both sides are commands - if so, create a shell pipeline
                if matches!(&lhs.value, Expr::Command(_)) && matches!(&rhs.value, Expr::Command(_)) {
                    // Lower the left command first
                    let ir_lhs = self.lower_command(lhs, None, &Type::command_result())?;
                    // Lower the right command with lhs as stdin
                    return self.lower_command(rhs, Some(ir_lhs), result_ty);
                }
                // Check for chained pipeline: (cmd1 |> cmd2) |> cmd3
                // The LHS would be a Pipe expression where both sides are commands
                match &lhs.value {
                    Expr::Pipe(pipe_lhs, pipe_rhs) => {
                        if matches!(&rhs.value, Expr::Command(_)) && matches!(&pipe_lhs.value, Expr::Command(_))
                            && matches!(&pipe_rhs.value, Expr::Command(_)) {
                            // Lower the left pipeline first
                            let ir_lhs = self.lower_pipe(lhs, &Type::command_result())?;
                            // Lower the right command with lhs as stdin
                            return self.lower_command(rhs, Some(ir_lhs), result_ty);
                        }
                    },
                    _ => {},
                }
                // Regular function application: e1 |> e2  =>  e2 e1
                let lhs_ty = self.expr_type(lhs)?;
                let rhs_ty = Type::arrow(lhs_ty.clone(), result_ty.clone());
                let ir_lhs = self.lower_expr(lhs, &lhs_ty)?;
                let ir_rhs = self.lower_expr(rhs, &rhs_ty)?;
                Ok(IRExpr::App { func: Box::new(ir_rhs), arg: Box::new(ir_lhs), result_ty: result_ty.clone() })
            },
            _ => Err(LowerError::Internal(owned("expected a pipe"))),
        }
    }

    /// Lower a do block.
    fn lower_do(&mut self, expr: &Spanned<Expr>, ty: &Type) -> (r: Result<IRExpr, LowerError>)
        requires
            old(self).wf(),
        ensures
            r matches Err(e) ==> well_formed_error(e),
            final(self).wf(),
            r matches Ok(ir) ==> typed_at(ir@, ty@),
        decreases expr, 1nat, 0nat,
    {
        match &expr.value {
            Expr::Do(stmts) => {
                if stmts.len() == 0 {
                    return Ok(IRExpr::Unit);
                }
                // For now, just sequence the statements
                // Full monadic desugaring would require more work
                self.lower_do_stmts(expr, 0, ty)
            },
            _ => Err(LowerError::Internal(owned("expected a do block"))),
        }
    }

    /// Lower the statements of a do block from the `i`-th on.
    fn lower_do_stmts(&mut self, expr: &Spanned<Expr>, i: usize, result_ty: &Type) -> (r: Result<IRExpr, LowerError>)
        requires
            old(self).wf(),
            expr.value matches Expr::Do(stmts) && i < stmts@.len(),
        ensures
            r matches Err(e) ==> well_formed_error(e),
            final(self).wf(),
            r matches Ok(ir) ==> typed_at(ir@, result_ty@),
        decreases expr, 0nat, (match expr.value { Expr::Do(stmts) => stmts@.len(), _ => 0 }) - i,
    {
        match &expr.value {
            Expr::Do(stmts) => {
                assert(decreases_to!(expr => expr.value));
                assert(decreases_to!(expr.value => expr.value->Do_0));
                assert(decreases_to!(*stmts => stmts@));
                assert(decreases_to!(stmts@ => stmts@[i as int]));
                assert(i < stmts@.len());
                if i == stmts.len() - 1 {
                    return match &stmts[i] {
                        DoStmt::Expr(e) => {
                            assert(decreases_to!(stmts@[i as int] => stmts@[i as int]->Expr_0));
                            self.lower_expr(e, result_ty)
                        },
                        DoStmt::Bind(_, _) | DoStmt::Let(_, _) => {
                            Err(LowerError::Unsupported(owned("do block ending with bind/let")))
                        },
                    };
                }
                match &stmts[i] {
                    DoStmt::Expr(e) => {
                        // Ignore result, continue with rest
                        assert(decreases_to!(stmts@[i as int] => stmts@[i as int]->Expr_0));
                        let e_ty = self.expr_type(e)?;
                        let ir_e = self.lower_expr(e, &e_ty)?;
                        let rest = self.lower_do_stmts(expr, i + 1, result_ty)?;
                        let var = self.fresh();
                        Ok(IRExpr::Let { var, ty: e_ty, value: Box::new(ir_e), body: Box::new(rest) })
                    },
                    DoStmt::Let(pattern, value) => {
                        assert(decreases_to!(stmts@[i as int] => stmts@[i as int]->Let_1));
                        let value_ty = self.expr_type(value)?;
                        let var_id = self.bind_pattern(&pattern.value, &value_ty)?;
                        let ir_value = self.lower_expr(value, &value_ty)?;
                        let rest = self.lower_do_stmts(expr, i + 1, result_ty)?;
                        self.unbind_pattern(&pattern.value);
                        Ok(IRExpr::Let { var: var_id, ty: value_ty, value: Box::new(ir_value), body: Box::new(rest) })
                    },
                    DoStmt::Bind(pattern, value) => {
                        // For now, treat bind same as let (no monadic desugaring)
                        assert(decreases_to!(stmts@[i as int] => stmts@[i as int]->Bind_1));
                        let value_ty = self.expr_type(value)?;
                        let var_id = self.bind_pattern(&pattern.value, &value_ty)?;
                        let ir_value = self.lower_expr(value, &value_ty)?;
                        let rest = self.lower_do_stmts(expr, i + 1, result_ty)?;
                        self.unbind_pattern(&pattern.value);
                        Ok(IRExpr::Let { var: var_id, ty: value_ty, value: Box::new(ir_value), body: Box::new(rest) })
                    },
                }
            },
            _ => Err(LowerError::Internal(owned("expected a do block"))),
        }
    }
}

impl Lower {
    /// Lower a pattern to IR.
    fn lower_pattern(&mut self, pattern: &Pattern, ty: &Type) -> (r: Result<IRPattern, LowerError>)
        requires
            old(self).wf(),
        ensures
            r matches Err(e) ==> well_formed_error(e),
            final(self).wf(),
            final(self).scope() == old(self).scope(),
            pattern is Wildcard ==> (r matches Ok(p) && p is Wildcard),
            (pattern is List || pattern is Cons || pattern is Or || pattern is As)
                ==> (r matches Err(e) && e is Unsupported),
        decreases pattern,
    {
        match pattern {
            Pattern::Wildcard => Ok(IRPattern::Wildcard),
            Pattern::Var(name) => {
                let var_id = match self.vars.get(name.as_str()) {
                    Some(v) => *v,
                    None => self.fresh(),
                };
                Ok(IRPattern::Var(var_id, ty.clone()))
            },
            Pattern::Lit(lit) => {
                let ir_lit = match lit {
                    Literal::Int(n) => IRLiteral::Int(*n),
                    Literal::Float(f) => IRLiteral::Float(f.clone()),
                    Literal::String(s) => IRLiteral::String(s.clone()),
                    Literal::Char(c) => IRLiteral::Char(*c),
                    Literal::Bool(b) => IRLiteral::Bool(*b),
                };
                Ok(IRPattern::Lit(ir_lit))
            },
            Pattern::Con(name, arg) => {
                let ir_arg = match arg {
                    Some(arg_pat) => {
                        // The argument is lowered at unit: the constructor's own
                        // type is not looked up
                        Some(Box::new(self.lower_pattern(&arg_pat.value, &Type::unit())?))
                    },
                    None => None,
                };
                Ok(IRPattern::Con { ctor: name.clone(), arg: ir_arg })
            },
            Pattern::Tuple(elems) => {
                let n = elems.len();
                let mut ir_elems: Vec<IRPattern> = Vec::new();
                let mut i: usize = 0;
                while i < n
                    invariant
                        self.wf(),
                        self.scope() == old(self).scope(),
                        n == elems@.len(),
                        *pattern == Pattern::Tuple(*elems),
                    decreases n - i,
                {
                    assert(decreases_to!(*pattern => pattern->Tuple_0));
                    assert(decreases_to!(*elems => elems@));
                    assert(decreases_to!(elems@ => elems@[i as int]));
                    // Element types come from a tuple type, else each is unit
                    let ir = match ty {
                        Type::Tuple(tys) => {
                            if i < tys.len() {
                                self.lower_pattern(&elems[i].value, &tys[i])?
                            } else {
                                break;
                            }
                        },
                        _ => self.lower_pattern(&elems[i].value, &Type::unit())?,
                    };
                    ir_elems.push(ir);
                    i += 1;
                }
                Ok(IRPattern::Tuple(ir_elems))
            },
            Pattern::Record(fields) => {
                let n = fields.len();
                let mut ir_fields: Vec<(String, IRPattern)> = Vec::new();
                let mut i: usize = 0;
                while i < n
                    invariant
                        self.wf(),
                        self.scope() == old(self).scope(),
                        n == fields@.len(),
                        *pattern == Pattern::Record(*fields),
                    decreases n - i,
                {
                    let name = &fields[i].0;
                    // The field's type, its last entry in a record type, else unit
                    let mut field_ty = Type::unit();
                    match ty {
                        Type::Record(flds) => {
                            let mut k: usize = 0;
                            while k < flds.len()
                                decreases flds.len() - k,
                            {
                                if flds[k].0 == name.value {
                                    field_ty = flds[k].1.clone();
                                }
                                k += 1;
                            }
                        },
                        _ => {},
                    }
                    assert(decreases_to!(*pattern => pattern->Record_0));
                    assert(decreases_to!(*fields => fields@));
                    assert(decreases_to!(fields@ => fields@[i as int]));
                    assert(decreases_to!(fields@[i as int] => fields@[i as int].1));
                    let ir_pat = self.lower_pattern(&fields[i].1.value, &field_ty)?;
                    ir_fields.push((name.value.clone(), ir_pat));
                    i += 1;
                }
                Ok(IRPattern::Record(ir_fields))
            },
            Pattern::List(_) | Pattern::Cons(_, _) => Err(LowerError::Unsupported(owned("list patterns"))),
            Pattern::Or(_, _) => Err(LowerError::Unsupported(owned("or patterns"))),
            Pattern::As(_, _) => Err(LowerError::Unsupported(owned("as patterns"))),
            Pattern::Annot(inner, _) => self.lower_pattern(&inner.value, ty),
        }
    }

    /// Bind pattern variables to fresh VarIds.
    fn bind_pattern(&mut self, pattern: &Pattern, ty: &Type) -> (r: Result<VarId, LowerError>)
        requires
            old(self).wf(),
        ensures
            r matches Err(e) ==> well_formed_error(e),
            final(self).wf(),
            r is Ok,
            pattern matches Pattern::Var(n) ==> (r matches Ok(v) && final(self).scope() == old(self).scope().insert(n@, v)),
        decreases pattern,
    {
        match pattern {
            Pattern::Wildcard => Ok(self.fresh()),
            Pattern::Var(name) => {
                let var_id = self.fresh();
                self.vars.insert(name.clone(), var_id);
                self.set_var_type(var_id, ty.clone());
                Ok(var_id)
            },
            Pattern::Tuple(elems) => {
                let n = elems.len();
                let mut i: usize = 0;
                while i < n
                    invariant
                        self.wf(),
                        n == elems@.len(),
                        *pattern == Pattern::Tuple(*elems),
                    decreases n - i,
                {
                    assert(decreases_to!(*pattern => pattern->Tuple_0));
                    assert(decreases_to!(*elems => elems@));
                    assert(decreases_to!(elems@ => elems@[i as int]));
                    match ty {
                        Type::Tuple(tys) => {
                            if i < tys.len() {
                                self.bind_pattern(&elems[i].value, &tys[i])?;
                            } else {
                                break;
                            }
                        },
                        _ => {
                            self.bind_pattern(&elems[i].value, &Type::unit())?;
                        },
                    }
                    i += 1;
                }
                Ok(self.fresh())
            },
            Pattern::Con(_, Some(arg)) => {
                self.bind_pattern(&arg.value, &Type::unit())?;
                Ok(self.fresh())
            },
            Pattern::Con(_, None) => Ok(self.fresh()),
            Pattern::Annot(inner, _) => self.bind_pattern(&inner.value, ty),
            _ => Ok(self.fresh()),
        }
    }

    /// Remove pattern bindings.
    fn unbind_pattern(&mut self, pattern: &Pattern)
        requires
            old(self).wf(),
        ensures
            final(self).wf(),
            pattern matches Pattern::Var(n) ==> final(self).scope() == old(self).scope().remove(n@),
        decreases pattern,
    {
        match pattern {
            Pattern::Var(name) => {
                self.vars.remove(name.as_str());
            },
            Pattern::Tuple(elems) => {
                let mut i: usize = 0;
                while i < elems.len()
                    invariant
                        self.wf(),
                        *pattern == Pattern::Tuple(*elems),
                    decreases elems.len() - i,
                {
                    assert(decreases_to!(*pattern => pattern->Tuple_0));
                    assert(decreases_to!(*elems => elems@));
                    assert(decreases_to!(elems@ => elems@[i as int]));
                    self.unbind_pattern(&elems[i].value);
                    i += 1;
                }
            },
            Pattern::Con(_, Some(arg)) => {
                self.unbind_pattern(&arg.value);
            },
            Pattern::Annot(inner, _) => {
                self.unbind_pattern(&inner.value);
            },
            _ => {},
        }
    }
}

impl Lower {
    /// Lower a program from AST to IR: type check it, then lower each
    /// declaration. Every declaration that comes out carries its declared type.
    pub fn lower_program(&mut self, program: &Program) -> (r: Result<IRProgram, LowerError>)
        requires
            old(self).wf(),
        ensures
            r matches Err(e) ==> well_formed_error(e),
            final(self).wf(),
            r matches Ok(p) ==> p.decls@.len() <= program.decls@.len()
                && forall|i: int| 0 <= i < p.decls@.len() ==> decl_typed(#[trigger] p.decls@[i]@),
            r matches Ok(p) ==> {
                let kept = kept_decls(program.decls@);
                &&& p.decls@.len() == kept.len()
                &&& forall|i: int| 0 <= i < kept.len() ==> lowered_as(#[trigger] p.decls@[i]@, kept[i])
            },
            r matches Err(LowerError::TypeError(es)) ==> es@.len() > 0,
            (exists|i: int| 0 <= i < program.decls@.len()
                && crate::types::infer::decl_surely_fails(#[trigger] program.decls@[i].value))
                ==> r matches Err(LowerError::TypeError(_)),
            (old(self).checker_errors().len() == 0
                && forall|i: int| 0 <= i < program.decls@.len()
                    ==> crate::types::infer::decl_surely_passes(#[trigger] program.decls@[i].value))
                ==> r is Ok,
    {
        // First, type check the entire program
        match self.checker.check_program(program) {
            Ok(()) => {},
            Err(es) => return Err(LowerError::TypeError(es)),
        }
        // Then lower each declaration
        let mut decls: Vec<IRDecl> = Vec::new();
        let mut i: usize = 0;
        while i < program.decls.len()
            invariant
                self.wf(),
                i <= program.decls@.len(),
                decls@.len() <= i,
                forall|k: int| 0 <= k < decls@.len() ==> decl_typed(#[trigger] decls@[k]@),
                decls@.len() == kept_decls(program.decls@.take(i as int)).len(),
                !(exists|k: int| 0 <= k < program.decls@.len()
                    && crate::types::infer::decl_surely_fails(#[trigger] program.decls@[k].value)),
                forall|k: int| 0 <= k < decls@.len()
                    ==> lowered_as(#[trigger] decls@[k]@, kept_decls(program.decls@.take(i as int))[k]),
            decreases program.decls.len() - i,
        {
            proof {
                assert(program.decls@.take(i + 1).drop_last() =~= program.decls@.take(i as int));
                assert(program.decls@.take(i + 1).last() == program.decls@[i as int]);
            }
            match self.lower_decl(&program.decls[i].value)? {
                Some(ir_decl) => decls.push(ir_decl),
                None => {},
            }
            i += 1;
        }
        proof { assert(program.decls@.take(program.decls@.len() as int) =~= program.decls@); }
        Ok(IRProgram::new(decls))
    }

    /// Lower a standalone expression with a known type (for REPL use).
    ///
    /// The type should be pre-computed by the caller's type checker.
    pub fn lower_expr_with_type(&mut self, expr: &Spanned<Expr>, ty: &Type) -> (r: Result<IRExpr, LowerError>)
        requires
            old(self).wf(),
        ensures
            r matches Err(e) ==> well_formed_error(e),
            final(self).wf(),
            r matches Ok(ir) ==> typed_at(ir@, ty@),
            expr.value matches Expr::Lit(l) ==> (r matches Ok(ir) && ir@ == IrV::Lit(literal_ir(l), ty@)),
            expr.value matches Expr::Var(n) ==> (r matches Ok(ir) && ir@ == (if old(self).scope().dom().contains(n@) {
                IrV::Var(old(self).scope()[n@], ty@)
            } else {
                IrV::Global(n@, ty@)
            })),
            expr.value matches Expr::Con(n) ==> (r matches Ok(ir) && ir@ == IrV::Construct(n@, None, ty@)),
            expr.value is Unit ==> (r matches Ok(ir) && ir@ == IrV::Unit),
            expr.value is Redirect ==> (r matches Err(e) && e is Unsupported),
            (expr.value matches Expr::BinOp(op, _, _) && strict_binop(op) && r is Ok) ==> lowered_binop(r->Ok_0@, expr.value->BinOp_0,
                expr.value->BinOp_1.value, expr.value->BinOp_2.value, ty@, old(self).scope()),
            (expr.value matches Expr::BinOp(op, _, _) && !strict_binop(op) && r is Ok) ==> lowered_logical(r->Ok_0@,
                expr.value->BinOp_0 == BinOp::And, expr.value->BinOp_1.value, expr.value->BinOp_2.value, ty@, old(self).scope()),
    {
        self.lower_expr(expr, ty)
    }

    /// Lower a standalone function declaration (for REPL use).
    ///
    /// Note: The declaration must already be type-checked.
    pub fn lower_fun_standalone(&mut self, fun_decl: &FunDecl) -> (r: Result<IRDecl, LowerError>)
        requires
            old(self).wf(),
        ensures
            r matches Err(e) ==> well_formed_error(e),
            final(self).wf(),
            r matches Ok(d) ==> d is Fun && decl_typed(d@) && lowered_as(d@, Decl::Fun(*fun_decl)),
            fun_decl.clauses@.len() != 1 ==> (r matches Err(e) && e is Unsupported),
            (fun_decl.clauses@.len() == 1 && old(self).globals().dom().contains(fun_decl.name.value@)
                && old(self).globals()[fun_decl.name.value@].0.len() == 0
                && crate::types::infer::arrow_depth(old(self).globals()[fun_decl.name.value@].1) >= fun_decl.clauses@[0].params@.len()
                && fun_decl.clauses@[0].body.value is Lit) ==> r is Ok,
    {
        match self.lower_fun_decl(fun_decl)? {
            Some(d) => Ok(d),
            None => Err(LowerError::Internal(owned("Failed to lower function"))),
        }
    }

    /// Lower a declaration.
    fn lower_decl(&mut self, decl: &Decl) -> (r: Result<Option<IRDecl>, LowerError>)
        requires
            old(self).wf(),
        ensures
            r matches Err(e) ==> well_formed_error(e),
            final(self).wf(),
            r matches Ok(Some(d)) ==> decl_typed(d@),
            (decl is Type || decl is Trait || decl is Impl) ==> r matches Ok(None),
            lowers_to_ir(*decl) ==> (r is Ok ==> (r->Ok_0 is Some && lowered_as(r->Ok_0->0@, *decl))),
            decl is Datatype ==> r is Ok,
    {
        match decl {
            Decl::Val(val_decl) => self.lower_val_decl(val_decl),
            Decl::Fun(fun_decl) => self.lower_fun_decl(fun_decl),
            // Type aliases don't generate IR
            Decl::Type(_) => Ok(None),
            Decl::Datatype(dt) => {
                // Generate data type representation; a constructor's argument
                // type is given as unit
                let mut constructors: Vec<(String, Option<Type>)> = Vec::new();
                let mut i: usize = 0;
                while i < dt.constructors.len()
                    invariant
                        i <= dt.constructors@.len(),
                        constructors@.len() == i,
                        forall|j: int| 0 <= j < i ==> {
                            &&& (#[trigger] constructors@[j]).0@ == dt.constructors@[j].name.value@
                            &&& (constructors@[j].1 is Some <==> dt.constructors@[j].arg is Some)
                        },
                    decreases dt.constructors.len() - i,
                {
                    let c = &dt.constructors[i];
                    let arg_ty = match &c.arg {
                        Some(_) => Some(Type::unit()),
                        None => None,
                    };
                    constructors.push((c.name.value.clone(), arg_ty));
                    i += 1;
                }
                let mut params: Vec<String> = Vec::new();
                let mut k: usize = 0;
                while k < dt.params.len()
                    invariant
                        k <= dt.params@.len(),
                        params@.len() == k,
                        forall|j: int| 0 <= j < k ==> (#[trigger] params@[j])@ == dt.params@[j].value@,
                    decreases dt.params.len() - k,
                {
                    params.push(dt.params[k].value.clone());
                    k += 1;
                }
                Ok(Some(IRDecl::Data { name: dt.name.value.clone(), params, constructors }))
            },
            // Traits and their implementations generate no IR of their own
            Decl::Trait(_) => Ok(None),
            Decl::Impl(_) => Ok(None),
        }
    }

    /// Lower a value declaration.
    fn lower_val_decl(&mut self, val: &ValDecl) -> (r: Result<Option<IRDecl>, LowerError>)
        requires
            old(self).wf(),
        ensures
            r matches Err(e) ==> well_formed_error(e),
            final(self).wf(),
            r matches Ok(Some(d)) ==> d is Val && decl_typed(d@),
            r is Ok ==> (r->Ok_0 is Some && lowered_as(r->Ok_0->0@, Decl::Val(*val))),
            !(val.pattern.value is Var) ==> (r matches Err(e) && e is Unsupported),
    {
        // Get the name from the pattern (must be a simple variable for now)
        let name = match &val.pattern.value {
            Pattern::Var(name) => name.clone(),
            _ => return Err(LowerError::Unsupported(owned("complex patterns in val declarations"))),
        };
        // Get the type from the environment (set during check_program)
        let scheme = match self.checker.env().lookup(name.as_str()) {
            Some(s) => s.clone(),
            None => {
                let mut msg = owned("let ");
                push_str(&mut msg, name.as_str());
                push_str(&mut msg, " not in environment");
                return Err(LowerError::Internal(msg));
            },
        };
        let ty = self.instantiate(&scheme)?;
        // Lower the expression
        let value = self.lower_expr(&val.expr, &ty)?;
        Ok(Some(IRDecl::Val { name, ty, value }))
    }

    /// Lower a function declaration.
    fn lower_fun_decl(&mut self, fun: &FunDecl) -> (r: Result<Option<IRDecl>, LowerError>)
        requires
            old(self).wf(),
        ensures
            r matches Err(e) ==> well_formed_error(e),
            final(self).wf(),
            r matches Ok(d) ==> d matches Some(f) && f is Fun && decl_typed(f@),
            r is Ok ==> lowered_as(r->Ok_0->0@, Decl::Fun(*fun)),
            fun.clauses@.len() != 1 ==> (r matches Err(e) && e is Unsupported),
            (fun.clauses@.len() == 1 && old(self).globals().dom().contains(fun.name.value@)
                && old(self).globals()[fun.name.value@].0.len() == 0
                && crate::types::infer::arrow_depth(old(self).globals()[fun.name.value@].1) >= fun.clauses@[0].params@.len()
                && fun.clauses@[0].body.value is Lit) ==> r is Ok,
    {
        let name = fun.name.value.clone();
        // For now, handle single-clause functions
        if fun.clauses.len() != 1 {
            return Err(LowerError::Unsupported(owned("multi-clause function definitions")));
        }
        // Get the function type from the environment
        let scheme = match self.checker.env().lookup(name.as_str()) {
            Some(s) => s.clone(),
            None => {
                let mut msg = owned("function ");
                push_str(&mut msg, name.as_str());
                push_str(&mut msg, " not in environment");
                return Err(LowerError::Internal(msg));
            },
        };
        let ty = self.instantiate(&scheme)?;
        let clause = &fun.clauses[0];
        proof {
            lemma_arrow_depth_arrows(Seq::<TypeV>::empty(), ty@);
        }
        // Create parameters
        let mut params: Vec<(VarId, Type)> = Vec::new();
        let mut current_ty = &ty;
        let mut i: usize = 0;
        assert(params@.map_values(|p: (VarId, Type)| p.1@) =~= Seq::<TypeV>::empty());
        while i < clause.params.len()
            invariant
                self.wf(),
                i <= clause.params@.len(),
                ty@ == arrows_v(params@.map_values(|p: (VarId, Type)| p.1@), current_ty@),
                fun.clauses@.len() == 1,
                params@.len() == i,
                *clause == fun.clauses@[0],
                (old(self).globals().dom().contains(fun.name.value@) && old(self).globals()[fun.name.value@].0.len() == 0)
                    ==> ty@ == old(self).globals()[fun.name.value@].1,
                crate::types::infer::arrow_depth(ty@) >= clause.params@.len() ==>
                    crate::types::infer::arrow_depth(current_ty@) + i >= clause.params@.len(),
            decreases clause.params.len() - i,
        {
            match current_ty.decompose_arrow() {
                Some((p, rest)) => {
                    let param_ty = p.clone();
                    let var_id = self.bind_pattern(&clause.params[i].value, &param_ty)?;
                    let ghost before = params@;
                    params.push((var_id, param_ty));
                    proof {
                        assert(params@.map_values(|p: (VarId, Type)| p.1@)
                            =~= before.map_values(|p: (VarId, Type)| p.1@).push(p@));
                        lemma_arrows_push(before.map_values(|p: (VarId, Type)| p.1@), p@, rest@);
                    }
                    current_ty = rest;
                },
                None => {
                    proof {
                        assert(crate::types::infer::arrow_depth(current_ty@) == 0);
                        assert(crate::types::infer::arrow_depth(ty@) < clause.params@.len());
                        assert(clause.params@.len() == fun.clauses@[0].params@.len());
                        if old(self).globals().dom().contains(fun.name.value@) && old(self).globals()[fun.name.value@].0.len() == 0 {
                            assert(ty@ == old(self).globals()[fun.name.value@].1);
                        }
                    }
                    return Err(LowerError::Internal(owned("function type mismatch")));
                },
            }
            i += 1;
        }
        // The remaining type is the body type
        let body_ty = current_ty.clone();
        // Lower the body
        let body = self.lower_expr(&clause.body, &body_ty)?;
        // Clean up parameter bindings
        let mut k: usize = 0;
        while k < clause.params.len()
            invariant
                self.wf(),
            decreases clause.params.len() - k,
        {
            self.unbind_pattern(&clause.params[k].value);
            k += 1;
        }
        let d = IRDecl::Fun { name, ty, params, body };
        proof {
            let ps = params@.map_values(|p: (VarId, Type)| (p.0, p.1@));
            assert(ps.map_values(|p: (VarId, TypeV)| p.1) =~= params@.map_values(|p: (VarId, Type)| p.1@));
            assert(typed_at(body@, body_ty@));
        }
        Ok(Some(d))
    }
}

/// The name of a binary operator as the lowering's messages give it.
pub open spec fn binop_text(op: BinOp) -> Seq<char> {
    match op {
        BinOp::Add => "Add"@,
        BinOp::Sub => "Sub"@,
        BinOp::Mul => "Mul"@,
        BinOp::Div => "Div"@,
        BinOp::Mod => "Mod"@,
        BinOp::Eq => "Eq"@,
        BinOp::Neq => "Neq"@,
        BinOp::Lt => "Lt"@,
        BinOp::Le => "Le"@,
        BinOp::Gt => "Gt"@,
        BinOp::Ge => "Ge"@,
        BinOp::And => "And"@,
        BinOp::Or => "Or"@,
        BinOp::Concat => "Concat"@,
        BinOp::Cons => "Cons"@,
        BinOp::Append => "Append"@,
    }
}

/// The name of a binary operator as the lowering's messages give it.
fn binop_name(op: BinOp) -> (s: &'static str)
    ensures
        s@ == binop_text(op),
{
    match op {
        BinOp::Add => "Add",
        BinOp::Sub => "Sub",
        BinOp::Mul => "Mul",
        BinOp::Div => "Div",
        BinOp::Mod => "Mod",
        BinOp::Eq => "Eq",
        BinOp::Neq => "Neq",
        BinOp::Lt => "Lt",
        BinOp::Le => "Le",
        BinOp::Gt => "Gt",
        BinOp::Ge => "Ge",
        BinOp::And => "And",
        BinOp::Or => "Or",
        BinOp::Concat => "Concat",
        BinOp::Cons => "Cons",
        BinOp::Append => "Append",
    }
}

} // verus!
