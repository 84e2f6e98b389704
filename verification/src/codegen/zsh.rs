//! Zsh code generator for Neap
//!
//! This module transpiles Neap IR to zsh shell scripts.
//! All values are represented as JSON for uniform handling.

use vstd::prelude::*;
use crate::ir::base::{Primitive, VarId, primitive_arity};
use crate::ir::tree::{
    Binding, DeclV, IRCommandPart, IRDecl, IRExpr, IRLiteral, IRPattern, IRProgram, IrV, LitV, PartV, PatV,
    aview_seq, bview_seq, cview, cview_seq, decls_view, eview, eview_seq, fview_seq, lemma_aview_seq,
    lemma_bview_seq, lemma_cview_seq, lemma_eview_seq, lemma_fview_seq,
};
use crate::text::{decimal, push_char, push_decimal, push_str};
use crate::types::model::TypeV;
use crate::types::repr::Type;
use super::runtime::RUNTIME;

verus! {

// ========== The text of the generated code ==========

/// `n` levels of indentation, four spaces each.
pub open spec fn indent_text(n: nat) -> Seq<char>
    decreases n,
{
    if n == 0 { Seq::empty() } else { indent_text((n - 1) as nat) + "    "@ }
}

/// The decimal notation of a signed integer.
pub open spec fn int_text(n: i64) -> Seq<char> {
    if n < 0 { "-"@ + decimal((-(n as int)) as nat) } else { decimal(n as nat) }
}

/// Text with each single quote replaced by `'"'"'`.
pub open spec fn escape_quotes(s: Seq<char>) -> Seq<char>
    decreases s.len(),
{
    if s.len() == 0 {
        s
    } else {
        escape_quotes(s.drop_last()) + if s.last() == '\'' { "'\"'\"'"@ } else { seq![s.last()] }
    }
}

/// A string quoted for the shell.
pub open spec fn shell_quoted(s: Seq<char>) -> Seq<char> {
    "'"@ + escape_quotes(s) + "'"@
}

/// The zsh expression for a literal (a float is written as its digits).
pub open spec fn literal_code(l: LitV) -> Seq<char> {
    match l {
        LitV::Int(n) => int_text(n),
        LitV::Float(f) => f,
        LitV::Str(s) => "$(jq -n --arg s "@ + shell_quoted(s) + " '$s')"@,
        LitV::Char(c) => "\""@ + seq![c] + "\""@,
        LitV::Bool(b) => if b { "true"@ } else { "false"@ },
    }
}

/// The runtime function that implements a primitive.
pub open spec fn runtime_fn(op: Primitive) -> Seq<char> {
    match op {
        Primitive::AddInt => "__neap_add_int"@,
        Primitive::SubInt => "__neap_sub_int"@,
        Primitive::MulInt => "__neap_mul_int"@,
        Primitive::DivInt => "__neap_div_int"@,
        Primitive::ModInt => "__neap_mod_int"@,
        Primitive::NegInt => "__neap_neg_int"@,
        Primitive::AddFloat => "__neap_add_float"@,
        Primitive::SubFloat => "__neap_sub_float"@,
        Primitive::MulFloat => "__neap_mul_float"@,
        Primitive::DivFloat => "__neap_div_float"@,
        Primitive::NegFloat => "__neap_neg_float"@,
        Primitive::EqInt => "__neap_eq_int"@,
        Primitive::NeqInt => "__neap_neq_int"@,
        Primitive::LtInt => "__neap_lt_int"@,
        Primitive::LeInt => "__neap_le_int"@,
        Primitive::GtInt => "__neap_gt_int"@,
        Primitive::GeInt => "__neap_ge_int"@,
        Primitive::EqFloat => "__neap_eq_float"@,
        Primitive::NeqFloat => "__neap_neq_float"@,
        Primitive::LtFloat => "__neap_lt_float"@,
        Primitive::LeFloat => "__neap_le_float"@,
        Primitive::GtFloat => "__neap_gt_float"@,
        Primitive::GeFloat => "__neap_ge_float"@,
        Primitive::EqString => "__neap_eq_string"@,
        Primitive::NeqString => "__neap_neq_string"@,
        Primitive::LtString => "__neap_lt_string"@,
        Primitive::LeString => "__neap_le_string"@,
        Primitive::GtString => "__neap_gt_string"@,
        Primitive::GeString => "__neap_ge_string"@,
        Primitive::EqBool => "__neap_eq_bool"@,
        Primitive::NeqBool => "__neap_neq_bool"@,
        Primitive::EqChar => "__neap_eq_char"@,
        Primitive::NeqChar => "__neap_neq_char"@,
        Primitive::LtChar => "__neap_lt_char"@,
        Primitive::LeChar => "__neap_le_char"@,
        Primitive::GtChar => "__neap_gt_char"@,
        Primitive::GeChar => "__neap_ge_char"@,
        Primitive::Not => "__neap_not"@,
        Primitive::And => "__neap_and"@,
        Primitive::Or => "__neap_or"@,
        Primitive::Concat => "__neap_concat"@,
        Primitive::StringLength => "__neap_string_length"@,
        Primitive::CharAt => "__neap_char_at"@,
        Primitive::IntToFloat => "__neap_int_to_float"@,
        Primitive::FloatToInt => "__neap_float_to_int"@,
        Primitive::IntToString => "__neap_int_to_string"@,
        Primitive::FloatToString => "__neap_float_to_string"@,
        Primitive::CharToString => "__neap_char_to_string"@,
        Primitive::CharToInt => "__neap_char_to_int"@,
        Primitive::IntToChar => "__neap_int_to_char"@,
        Primitive::BoolToString => "__neap_bool_to_string"@,
        Primitive::StringIdentity => "__neap_string_identity"@,
        Primitive::Cons => "__neap_cons"@,
        Primitive::Append => "__neap_append"@,
        Primitive::ListLength => "__neap_list_length"@,
        Primitive::PrintNoNewline => "__neap_print_no_newline"@,
        Primitive::ReadFile => "__neap_read_file"@,
        Primitive::WriteFile => "__neap_write_file"@,
        Primitive::GetEnv => "__neap_get_env"@,
        Primitive::Assert => "__neap_assert"@,
        Primitive::Panic => "__neap_panic"@,
        Primitive::Print => "__neap_print"@,
        Primitive::Substring => "__neap_substring"@,
        Primitive::ReadLine => "__neap_read_line"@,
    }
}

/// How many arguments the call of a primitive's runtime function passes.
pub open spec fn call_arity(op: Primitive) -> nat {
    if op == Primitive::ReadLine { 0 } else { primitive_arity(op) as nat }
}

/// The first `n` arguments, each after a space.
pub open spec fn spaced(args: Seq<Seq<char>>, n: nat) -> Seq<char>
    decreases n,
{
    if n == 0 { Seq::empty() } else { spaced(args, (n - 1) as nat) + " "@ + args[n - 1] }
}

/// The zsh expression for a primitive applied to argument expressions.
pub open spec fn prim_code(op: Primitive, args: Seq<Seq<char>>) -> Seq<char> {
    "$("@ + runtime_fn(op) + spaced(args, call_arity(op)) + ")"@
}

/// The zsh test that a pattern matches (bindings are made separately).
pub open spec fn condition_code(s: Seq<char>, p: PatV) -> Seq<char> {
    match p {
        PatV::Lit(l) => "[[ "@ + s + " == "@ + literal_code(l) + " ]]"@,
        PatV::Con(c, _) => "[[ $(__neap_tag "@ + s + ") == \""@ + c + "\" ]]"@,
        _ => "true"@,
    }
}

/// Law: the test of an arm's pattern. A literal pattern holds exactly where the scrutinee
/// equals the literal: the test is a `==` comparison of the scrutinee with the literal's
/// code. A constructor pattern compares the scrutinee's tag with the constructor's name by
/// `==`. Wildcards, variables, tuples and records always hold.
pub proof fn law_pattern_tests(s: Seq<char>, p: PatV)
    ensures
        p matches PatV::Lit(l) ==> condition_code(s, p) == "[[ "@ + s + " == "@ + literal_code(l) + " ]]"@,
        p matches PatV::Con(c, _) ==> condition_code(s, p) == "[[ $(__neap_tag "@ + s + ") == \""@ + c + "\" ]]"@,
        (p is Wildcard || p is Var || p is Tuple || p is Record) ==> condition_code(s, p) == "true"@,
{
}

/// The number of nodes of an expression (a bound on the temporaries and nesting it needs).
pub open spec fn ir_size(e: IrV) -> nat
    decreases e,
{
    match e {
        IrV::Let(_, _, value, body) => 1 + ir_size(*value) + ir_size(*body),
        IrV::LetRec(bs, body) => 1 + size_binds(bs) + ir_size(*body),
        IrV::Lambda(_, _, body, _) => 1 + ir_size(*body),
        IrV::App(f, a, _) => 1 + ir_size(*f) + ir_size(*a),
        IrV::If(c, t, f, _) => 1 + ir_size(*c) + ir_size(*t) + ir_size(*f),
        IrV::Match(s, arms, _) => 1 + ir_size(*s) + size_arms(arms),
        IrV::Prim(_, args, _) => 1 + size_seq(args),
        IrV::Construct(_, arg, _) => 1 + match arg {
            Some(a) => ir_size(*a),
            None => 0,
        },
        IrV::Tuple(es, _) => 1 + size_seq(es),
        IrV::TupleProj(t, _, _) => 1 + ir_size(*t),
        IrV::Record(fs, _) => 1 + size_fields(fs),
        IrV::Field(r, _, _) => 1 + ir_size(*r),
        IrV::Command(parts, stdin, _) => 1 + size_parts(parts) + match stdin {
            Some(x) => ir_size(*x),
            None => 0,
        },
        _ => 1,
    }
}

pub open spec fn size_seq(s: Seq<IrV>) -> nat
    decreases s,
{
    if s.len() == 0 { 0 } else { size_seq(s.drop_last()) + ir_size(s.last()) }
}

pub open spec fn size_binds(s: Seq<(VarId, crate::types::model::TypeV, IrV)>) -> nat
    decreases s,
{
    if s.len() == 0 { 0 } else { size_binds(s.drop_last()) + ir_size(s.last().2) }
}

pub open spec fn size_arms(s: Seq<(PatV, IrV)>) -> nat
    decreases s,
{
    if s.len() == 0 { 0 } else { size_arms(s.drop_last()) + ir_size(s.last().1) }
}

pub open spec fn size_fields(s: Seq<(Seq<char>, IrV)>) -> nat
    decreases s,
{
    if s.len() == 0 { 0 } else { size_fields(s.drop_last()) + ir_size(s.last().1) }
}

pub open spec fn size_parts(s: Seq<PartV>) -> nat
    decreases s,
{
    if s.len() == 0 {
        0
    } else {
        size_parts(s.drop_last()) + match s.last() {
            PartV::Literal(_) => 0,
            PartV::Interpolation(e) => ir_size(*e),
        }
    }
}

/// The size of the code a declaration holds.
pub open spec fn decl_size(d: DeclV) -> nat {
    match d {
        DeclV::Val(_, _, v) => ir_size(v),
        DeclV::Fun(_, _, _, b) => ir_size(b),
        DeclV::Data(..) => 0,
    }
}

pub open spec fn decls_size(s: Seq<DeclV>) -> nat
    decreases s.len(),
{
    if s.len() == 0 { 0 } else { decls_size(s.drop_last()) + decl_size(s.last()) }
}

/// The lines every compiled script starts with, the runtime included.
pub open spec fn script_header() -> Seq<char> {
    "#!/usr/bin/env zsh"@ + "\n"@ + "set -uo pipefail"@ + "\n"@ + "\n"@ + RUNTIME@ + "\n"@
}

/// The lines every compiled script ends with.
pub open spec fn script_footer() -> Seq<char> {
    "\n"@ + "__main \"$@\""@ + "\n"@
}

/// Every primitive application in an expression has the arguments its runtime call passes.
pub open spec fn prims_ok(e: IrV) -> bool
    decreases e,
{
    match e {
        IrV::Prim(op, args, _) => args.len() >= call_arity(op)
            && forall|i: int| 0 <= i < args.len() ==> prims_ok(#[trigger] args[i]),
        IrV::Let(_, _, value, body) => prims_ok(*value) && prims_ok(*body),
        IrV::LetRec(bs, body) => (forall|i: int| 0 <= i < bs.len() ==> prims_ok(#[trigger] bs[i].2))
            && prims_ok(*body),
        IrV::Lambda(_, _, body, _) => prims_ok(*body),
        IrV::App(f, a, _) => prims_ok(*f) && prims_ok(*a),
        IrV::If(c, t, f, _) => prims_ok(*c) && prims_ok(*t) && prims_ok(*f),
        IrV::Match(s, arms, _) => prims_ok(*s)
            && forall|i: int| 0 <= i < arms.len() ==> prims_ok(#[trigger] arms[i].1),
        IrV::Construct(_, arg, _) => match arg {
            Some(a) => prims_ok(*a),
            None => true,
        },
        IrV::Tuple(es, _) => forall|i: int| 0 <= i < es.len() ==> prims_ok(#[trigger] es[i]),
        IrV::TupleProj(t, _, _) => prims_ok(*t),
        IrV::Record(fs, _) => forall|i: int| 0 <= i < fs.len() ==> prims_ok(#[trigger] fs[i].1),
        IrV::Field(r, _, _) => prims_ok(*r),
        IrV::Command(parts, stdin, _) => (forall|i: int| 0 <= i < parts.len() ==> match #[trigger] parts[i] {
            PartV::Interpolation(x) => prims_ok(*x),
            PartV::Literal(_) => true,
        }) && match stdin {
            Some(x) => prims_ok(*x),
            None => true,
        },
        _ => true,
    }
}

/// Every declaration's code is well applied (see `prims_ok`).
pub open spec fn program_prims_ok(ds: Seq<DeclV>) -> bool {
    forall|i: int| 0 <= i < ds.len() ==> decl_prims_ok(#[trigger] ds[i])
}

pub open spec fn decl_prims_ok(d: DeclV) -> bool {
    match d {
        DeclV::Val(_, _, v) => prims_ok(v),
        DeclV::Fun(_, _, _, b) => prims_ok(b),
        DeclV::Data(..) => true,
    }
}

// ========== Building text ==========

fn push_usize(s: &mut String, n: usize)
    ensures
        final(s)@ == old(s)@ + decimal(n as nat),
{
    push_decimal(s, n as u64);
}

pub(crate) fn push_i64(s: &mut String, n: i64)
    ensures
        final(s)@ == old(s)@ + int_text(n),
{
    if n < 0 {
        push_str(s, "-");
        let m: u64 = if n == i64::MIN { 9223372036854775808u64 } else { (-n) as u64 };
        push_decimal(s, m);
    } else {
        push_decimal(s, n as u64);
    }
}

fn text(t: &str) -> (s: String)
    ensures
        s@ == t@,
{
    t.to_owned()
}

/// Escape a string for shell use.
fn shell_escape(s: &str) -> (r: String)
    ensures
        r@ == shell_quoted(s@),
{
    // Use single quotes and escape embedded single quotes
    let cs = crate::syntax::token::chars_of(s);
    let mut r = text("'");
    let mut i: usize = 0;
    while i < cs.len()
        invariant
            i <= cs@.len(),
            cs@ == s@,
            r@ == "'"@ + escape_quotes(cs@.take(i as int)),
        decreases cs.len() - i,
    {
        assert(cs@.take(i + 1).drop_last() =~= cs@.take(i as int));
        if cs[i] == '\'' {
            push_str(&mut r, "'\"'\"'");
        } else {
            push_char(&mut r, cs[i]);
        }
        i += 1;
    }
    assert(cs@.take(i as int) =~= cs@);
    push_str(&mut r, "'");
    r
}

/// Code generator for zsh output.
pub struct ZshCodegen {
    /// The generated code
    output: String,
    /// Current indentation level
    indent: usize,
    /// Counter for generating unique temporary variables
    temp_counter: usize,
    /// The names of the program's functions (to distinguish them from value globals)
    function_names: Vec<String>,
}

/// The shell text of one part of a command, where it needs no statements.
pub open spec fn part_code(p: PartV) -> Option<Seq<char>> {
    match p {
        PartV::Literal(t) => Some(t),
        PartV::Interpolation(x) => match simple_code(*x) {
            Some(c) => Some("$("@ + c + " | jq -r '.')"@),
            None => None,
        },
    }
}

/// The shell text of a command, where none of its parts needs statements.
pub open spec fn parts_code(s: Seq<PartV>) -> Option<Seq<char>>
    decreases s.len(),
{
    if s.len() == 0 {
        Some(Seq::empty())
    } else {
        match (parts_code(s.drop_last()), part_code(s.last())) {
            (Some(a), Some(b)) => Some(a + b),
            _ => None,
        }
    }
}

/// What an expression emits and evaluates to, where it keeps to the fragment that needs
/// no temporaries: literals, variables, globals, unit, `let` and recursive bindings, application, primitives,
/// tuples, records, projections, field access, constructors and commands whose parts are
/// text or such values, built from such expressions. The
/// lines emitted (at indentation `d`, with `fs` the program's functions) and the code;
/// `None` outside the fragment.
pub open spec fn straight(e: IrV, d: nat, fs: Seq<Seq<char>>) -> Option<(Seq<char>, Seq<char>)>
    decreases e,
{
    match e {
        IrV::Lit(l, _) => Some((Seq::empty(), literal_code(l))),
        IrV::Var(id, _) => Some((Seq::empty(), "\"$_"@ + decimal(id.id() as nat) + "\""@)),
        IrV::Global(n, _) => Some((Seq::empty(), if fs.contains(n) { "\"__"@ + n + "\""@ } else { var_ref_text(n) })),
        IrV::Unit => Some((Seq::empty(), "null"@)),
        IrV::Let(x, _, v, b) => match straight(*v, d, fs) {
            Some((ov, cv)) => match straight(*b, d, fs) {
                Some((ob, cb)) => Some((ov + indent_text(d) + "local "@ + var_text(x) + "="@ + cv + "\n"@ + ob, cb)),
                None => None,
            },
            None => None,
        },
        IrV::LetRec(bs, body) => match straight_binds(bs, d, fs) {
            Some(ob) => match straight(*body, d, fs) {
                Some((o, c)) => Some((ob + o, c)),
                None => None,
            },
            None => None,
        },
        IrV::App(f, a, _) => match straight(*f, d, fs) {
            Some((of, cf)) => match straight(*a, d, fs) {
                Some((oa, ca)) => Some((of + oa, "$(__neap_call "@ + cf + " "@ + ca + ")"@)),
                None => None,
            },
            None => None,
        },
        IrV::Prim(op, args, _) => match straight_seq(args, d, fs) {
            Some((o, cs)) => Some((o, prim_code(op, cs))),
            None => None,
        },
        IrV::Tuple(es, _) => match straight_seq(es, d, fs) {
            Some((o, cs)) => Some((o, "$(jq -nc '["@ + tuple_args_text(cs) + "]')"@)),
            None => None,
        },
        IrV::TupleProj(t, i, _) => match straight(*t, d, fs) {
            Some((o, c)) => Some((o, "$(__neap_tuple_proj "@ + c + " "@ + decimal(i as nat) + ")"@)),
            None => None,
        },
        IrV::Field(r, f, _) => match straight(*r, d, fs) {
            Some((o, c)) => Some((o, "$(__neap_field "@ + c + " \""@ + f + "\")"@)),
            None => None,
        },
        IrV::Construct(k, arg, _) => match arg {
            Some(a) => match straight(*a, d, fs) {
                Some((o, c)) => Some((o, "$(__neap_construct1 \""@ + k + "\" "@ + c + ")"@)),
                None => None,
            },
            None => Some((Seq::empty(), "$(__neap_construct0 \""@ + k + "\")"@)),
        },
        IrV::Record(fields, _) => if fields.len() == 0 {
            Some((Seq::empty(), "'{}'"@))
        } else {
            match straight_fields(fields, d, fs) {
                Some((o, cs)) => Some((o, record_code_text(fields.map_values(|f: (Seq<char>, IrV)| f.0), cs))),
                None => None,
            }
        },
        IrV::Command(parts, stdin, _) => match parts_code(parts) {
            Some(c) => match stdin {
                None => Some((Seq::empty(), "$(__neap_run_cmd \""@ + c + "\")"@)),
                Some(x) => match straight(*x, d, fs) {
                    Some((o, cx)) => Some((o, "$(__neap_run_cmd \"echo "@ + cx + " | "@ + c + "\")"@)),
                    None => None,
                },
            },
            None => None,
        },
        _ => None,
    }
}

/// What a sequence of expressions of the fragment emits, in order, and their codes.
pub open spec fn straight_seq(s: Seq<IrV>, d: nat, fs: Seq<Seq<char>>) -> Option<(Seq<char>, Seq<Seq<char>>)>
    decreases s,
{
    if s.len() == 0 {
        Some((Seq::empty(), Seq::empty()))
    } else {
        match straight_seq(s.drop_last(), d, fs) {
            Some((o, cs)) => match straight(s.last(), d, fs) {
                Some((o2, c)) => Some((o + o2, cs.push(c))),
                None => None,
            },
            None => None,
        }
    }
}

/// The lines that a group of recursive bindings of the fragment emits: each value's own
/// lines, then its `local` line, in order.
pub open spec fn straight_binds(s: Seq<(VarId, TypeV, IrV)>, d: nat, fs: Seq<Seq<char>>) -> Option<Seq<char>>
    decreases s,
{
    if s.len() == 0 {
        Some(Seq::empty())
    } else {
        match straight_binds(s.drop_last(), d, fs) {
            Some(a) => match straight(s.last().2, d, fs) {
                Some((o, c)) => Some(a + o + indent_text(d) + "local "@ + var_text(s.last().0) + "="@ + c + "\n"@),
                None => None,
            },
            None => None,
        }
    }
}

proof fn lemma_straight_binds_prefix(s: Seq<(VarId, TypeV, IrV)>, n: int, d: nat, fs: Seq<Seq<char>>)
    requires
        0 <= n <= s.len(),
    ensures
        straight_binds(s, d, fs) is Some ==> straight_binds(s.take(n), d, fs) is Some,
    decreases s.len(),
{
    if s.len() > 0 && n < s.len() {
        lemma_straight_binds_prefix(s.drop_last(), n, d, fs);
        assert(s.drop_last().take(n) =~= s.take(n));
    } else if n == s.len() {
        assert(s.take(n) =~= s);
    }
}

/// What the values of record fields of the fragment emit, in order, and their codes.
pub open spec fn straight_fields(s: Seq<(Seq<char>, IrV)>, d: nat, fs: Seq<Seq<char>>) -> Option<(Seq<char>, Seq<Seq<char>>)>
    decreases s,
{
    if s.len() == 0 {
        Some((Seq::empty(), Seq::empty()))
    } else {
        match straight_fields(s.drop_last(), d, fs) {
            Some((o, cs)) => match straight(s.last().1, d, fs) {
                Some((o2, c)) => Some((o + o2, cs.push(c))),
                None => None,
            },
            None => None,
        }
    }
}

proof fn lemma_straight_fields_prefix(s: Seq<(Seq<char>, IrV)>, n: int, d: nat, fs: Seq<Seq<char>>)
    requires
        0 <= n <= s.len(),
    ensures
        straight_fields(s, d, fs) is Some ==> straight_fields(s.take(n), d, fs) is Some,
    decreases s.len(),
{
    if s.len() > 0 && n < s.len() {
        lemma_straight_fields_prefix(s.drop_last(), n, d, fs);
        assert(s.drop_last().take(n) =~= s.take(n));
    } else if n == s.len() {
        assert(s.take(n) =~= s);
    }
}

/// The lines of a `straight` result.
pub open spec fn out_of(r: Option<(Seq<char>, Seq<char>)>) -> Seq<char> {
    (r->0).0
}

/// The code of a `straight` result.
pub open spec fn code_of(r: Option<(Seq<char>, Seq<char>)>) -> Seq<char> {
    (r->0).1
}

/// The lines of a `straight_seq` result.
pub open spec fn seq_out(r: Option<(Seq<char>, Seq<Seq<char>>)>) -> Seq<char> {
    (r->0).0
}

/// The codes of a `straight_seq` result.
pub open spec fn seq_codes(r: Option<(Seq<char>, Seq<Seq<char>>)>) -> Seq<Seq<char>> {
    (r->0).1
}

proof fn lemma_straight_seq_prefix(s: Seq<IrV>, n: int, d: nat, fs: Seq<Seq<char>>)
    requires
        0 <= n <= s.len(),
    ensures
        straight_seq(s, d, fs) is Some ==> straight_seq(s.take(n), d, fs) is Some,
    decreases s.len(),
{
    if s.len() > 0 && n < s.len() {
        lemma_straight_seq_prefix(s.drop_last(), n, d, fs);
        assert(s.drop_last().take(n) =~= s.take(n));
    } else if n == s.len() {
        assert(s.take(n) =~= s);
    }
}

/// The lines that bind a function's parameters to its positional arguments.
pub open spec fn param_lines(ps: Seq<(VarId, TypeV)>, d: nat) -> Seq<char>
    decreases ps.len(),
{
    if ps.len() == 0 {
        Seq::empty()
    } else {
        param_lines(ps.drop_last(), d) + indent_text(d) + "local "@ + var_text(ps.last().0) + "=$"@
            + decimal(ps.len() as nat) + "\n"@
    }
}

/// The text of a function whose body keeps to the `straight` fragment, at indentation `d`.
pub open spec fn fun_text(name: Seq<char>, ps: Seq<(VarId, TypeV)>, body: IrV, d: nat, fs: Seq<Seq<char>>) -> Option<Seq<char>> {
    match straight(body, d + 1, fs) {
        Some((o, c)) => Some(indent_text(d) + "__"@ + name + "() {\n"@ + param_lines(ps, d + 1) + o
            + indent_text(d + 1) + "echo "@ + c + "\n"@ + indent_text(d) + "}\n"@),
        None => None,
    }
}

/// The pieces a conditional emits make up its text.
#[verifier::rlimit(50)]
proof fn lemma_if_text(e: IrV, d: nat, fs: Seq<Seq<char>>, t: nat, decl: Seq<char>, tst: Seq<char>, s1: Seq<char>, s2: Seq<char>)
    requires
        e is If,
        if_text(e, d, fs, t) is Some,
        decl == "local "@ + ("__t"@ + decimal(t)),
        tst == "if [[ "@ + code_of(straight(*e->If_0, d, fs)) + " == \"true\" ]]; then"@,
        s1 == ("__t"@ + decimal(t)) + "="@ + code_of(straight(*e->If_1, d + 1, fs)),
        s2 == ("__t"@ + decimal(t)) + "="@ + code_of(straight(*e->If_2, d + 1, fs)),
    ensures
        (indent_text(d) + decl + "\n"@) + out_of(straight(*e->If_0, d, fs)) + (indent_text(d) + tst + "\n"@)
            + out_of(straight(*e->If_1, d + 1, fs)) + (indent_text(d + 1) + s1 + "\n"@)
            + (indent_text(d) + "else"@ + "\n"@) + out_of(straight(*e->If_2, d + 1, fs))
            + (indent_text(d + 1) + s2 + "\n"@) + (indent_text(d) + "fi"@ + "\n"@) == if_text(e, d, fs, t)->0,
{
    reveal(if_text);
    let i0 = indent_text(d);
    let i1 = indent_text(d + 1);
    let nl = "\n"@;
    let v = "__t"@ + decimal(t);
    let oc = out_of(straight(*e->If_0, d, fs));
    let ot = out_of(straight(*e->If_1, d + 1, fs));
    let oe = out_of(straight(*e->If_2, d + 1, fs));
    let cc = code_of(straight(*e->If_0, d, fs));
    let ct = code_of(straight(*e->If_1, d + 1, fs));
    let ce = code_of(straight(*e->If_2, d + 1, fs));
    assert((i0 + decl + nl) + oc + (i0 + tst + nl) + ot + (i1 + s1 + nl) + (i0 + "else"@ + nl) + oe + (i1 + s2 + nl)
        + (i0 + "fi"@ + nl) =~= i0 + "local "@ + v + nl
            + oc + i0 + "if [[ "@ + cc + " == \"true\" ]]; then"@ + nl
            + ot + i1 + v + "="@ + ct + nl
            + i0 + "else"@ + nl
            + oe + i1 + v + "="@ + ce + nl
            + i0 + "fi"@ + nl);
}

/// Nine pieces appended one after another make up their concatenation.
proof fn lemma_appended(
    o0: Seq<char>, o1: Seq<char>, o2: Seq<char>, o3: Seq<char>, o4: Seq<char>,
    o5: Seq<char>, o6: Seq<char>, o7: Seq<char>, o8: Seq<char>, o9: Seq<char>,
    x1: Seq<char>, x2: Seq<char>, x3: Seq<char>, x4: Seq<char>, x5: Seq<char>,
    x6: Seq<char>, x7: Seq<char>, x8: Seq<char>, x9: Seq<char>,
)
    requires
        o1 == o0 + x1, o2 == o1 + x2, o3 == o2 + x3, o4 == o3 + x4, o5 == o4 + x5,
        o6 == o5 + x6, o7 == o6 + x7, o8 == o7 + x8, o9 == o8 + x9,
    ensures
        o9 == o0 + (x1 + x2 + x3 + x4 + x5 + x6 + x7 + x8 + x9),
{
    vstd::seq_lib::lemma_concat_associative(o0, x1, x2);
    vstd::seq_lib::lemma_concat_associative(o0, x1 + x2, x3);
    vstd::seq_lib::lemma_concat_associative(o0, x1 + x2 + x3, x4);
    vstd::seq_lib::lemma_concat_associative(o0, x1 + x2 + x3 + x4, x5);
    vstd::seq_lib::lemma_concat_associative(o0, x1 + x2 + x3 + x4 + x5, x6);
    vstd::seq_lib::lemma_concat_associative(o0, x1 + x2 + x3 + x4 + x5 + x6, x7);
    vstd::seq_lib::lemma_concat_associative(o0, x1 + x2 + x3 + x4 + x5 + x6 + x7, x8);
    vstd::seq_lib::lemma_concat_associative(o0, x1 + x2 + x3 + x4 + x5 + x6 + x7 + x8, x9);
}

/// A line appended is its three parts.
proof fn lemma_line(o: Seq<char>, a: Seq<char>, b: Seq<char>, c: Seq<char>)
    ensures
        o + a + b + c == o + (a + b + c),
{
    vstd::seq_lib::lemma_concat_associative(o, a, b);
    vstd::seq_lib::lemma_concat_associative(o, a + b, c);
}

/// What a lambda emits, where its body keeps to the `straight` fragment: a function
/// numbered `t` that binds its parameter and echoes its body's value. `None` for anything
/// else.
#[verifier::opaque]
pub open spec fn lambda_text(e: IrV, d: nat, fs: Seq<Seq<char>>, t: nat) -> Option<Seq<char>> {
    match e {
        IrV::Lambda(p, _, body, _) => {
            let sb = straight(*body, d + 1, fs);
            let name = "__lambda_"@ + decimal(t);
            if sb is Some {
                Some(indent_text(d) + name + "() {"@ + "\n"@
                    + indent_text(d + 1) + "local "@ + var_text(p) + "=$1"@ + "\n"@
                    + out_of(sb) + indent_text(d + 1) + "echo "@ + code_of(sb) + "\n"@
                    + indent_text(d) + "}"@ + "\n"@)
            } else {
                None
            }
        },
        _ => None,
    }
}

/// Five pieces appended one after another make up their concatenation.
proof fn lemma_appended5(
    o0: Seq<char>, o1: Seq<char>, o2: Seq<char>, o3: Seq<char>, o4: Seq<char>, o5: Seq<char>,
    x1: Seq<char>, x2: Seq<char>, x3: Seq<char>, x4: Seq<char>, x5: Seq<char>,
)
    requires
        o1 == o0 + x1, o2 == o1 + x2, o3 == o2 + x3, o4 == o3 + x4, o5 == o4 + x5,
    ensures
        o5 == o0 + (x1 + x2 + x3 + x4 + x5),
{
    vstd::seq_lib::lemma_concat_associative(o0, x1, x2);
    vstd::seq_lib::lemma_concat_associative(o0, x1 + x2, x3);
    vstd::seq_lib::lemma_concat_associative(o0, x1 + x2 + x3, x4);
    vstd::seq_lib::lemma_concat_associative(o0, x1 + x2 + x3 + x4, x5);
}

/// The pieces a function emits make up its text.
#[verifier::rlimit(50)]
proof fn lemma_function_pieces(d: nat, name: Seq<char>, pv: Seq<char>, ob: Seq<char>, cb: Seq<char>,
    head: Seq<char>, bind: Seq<char>, echo: Seq<char>)
    requires
        head == name + "() {"@,
        bind == "local "@ + pv + "=$1"@,
        echo == "echo "@ + cb,
    ensures
        (indent_text(d) + head + "\n"@) + (indent_text(d + 1) + bind + "\n"@) + ob
            + (indent_text(d + 1) + echo + "\n"@) + (indent_text(d) + "}"@ + "\n"@)
        == indent_text(d) + name + "() {"@ + "\n"@
            + indent_text(d + 1) + "local "@ + pv + "=$1"@ + "\n"@
            + ob + indent_text(d + 1) + "echo "@ + cb + "\n"@
            + indent_text(d) + "}"@ + "\n"@,
{
    let i0 = indent_text(d);
    let i1 = indent_text(d + 1);
    let nl = "\n"@;
    let close = "}"@;
    assert((i0 + head + nl) + (i1 + bind + nl) + ob + (i1 + echo + nl) + (i0 + close + nl)
        =~= i0 + name + "() {"@ + nl + i1 + "local "@ + pv + "=$1"@ + nl + ob + i1 + "echo "@ + cb + nl + i0 + close + nl);
}

/// What a conditional emits, where its condition and branches keep to the `straight`
/// fragment: a temporary (numbered `t`) declared, the test, each branch setting the
/// temporary; the code is a reference to the temporary. `None` for anything else.
#[verifier::opaque]
pub open spec fn if_text(e: IrV, d: nat, fs: Seq<Seq<char>>, t: nat) -> Option<Seq<char>> {
    match e {
        IrV::If(c, th, el, _) => {
            let v = "__t"@ + decimal(t);
            let sc = straight(*c, d, fs);
            let st = straight(*th, d + 1, fs);
            let se = straight(*el, d + 1, fs);
            if sc is Some && st is Some && se is Some {
                Some(indent_text(d) + "local "@ + v + "\n"@
                    + out_of(sc) + indent_text(d) + "if [[ "@ + code_of(sc) + " == \"true\" ]]; then"@ + "\n"@
                    + out_of(st) + indent_text(d + 1) + v + "="@ + code_of(st) + "\n"@
                    + indent_text(d) + "else"@ + "\n"@
                    + out_of(se) + indent_text(d + 1) + v + "="@ + code_of(se) + "\n"@
                    + indent_text(d) + "fi"@ + "\n"@)
            } else {
                None
            }
        },
        _ => None,
    }
}

/// The line that binds a value whose expression keeps to the `straight` fragment.
pub open spec fn val_text(n: Seq<char>, v: IrV, d: nat, fs: Seq<Seq<char>>) -> Seq<char> {
    out_of(straight(v, d, fs)) + indent_text(d) + "local "@ + n + "="@ + code_of(straight(v, d, fs)) + "\n"@
}

/// The functions of a program, each followed by a blank line, where every body keeps to
/// the `straight` fragment.
pub open spec fn fun_section(ds: Seq<DeclV>, fs: Seq<Seq<char>>) -> Option<Seq<char>>
    decreases ds.len(),
{
    if ds.len() == 0 {
        Some(Seq::empty())
    } else {
        match fun_section(ds.drop_last(), fs) {
            Some(a) => match ds.last() {
                DeclV::Fun(n, _, ps, b) => match fun_text(n, ps, b, 0, fs) {
                    Some(t) => Some(a + t + "\n"@),
                    None => None,
                },
                _ => Some(a),
            },
            None => None,
        }
    }
}

/// The body of `__main`: one `local` line per value, in order, where every value keeps
/// to the `straight` fragment.
pub open spec fn main_section(ds: Seq<DeclV>, fs: Seq<Seq<char>>) -> Option<Seq<char>>
    decreases ds.len(),
{
    if ds.len() == 0 {
        Some(Seq::empty())
    } else {
        match main_section(ds.drop_last(), fs) {
            Some(a) => match ds.last() {
                DeclV::Val(n, _, v) => if straight(v, 1, fs) is Some { Some(a + val_text(n, v, 1, fs)) } else { None },
                _ => Some(a),
            },
            None => None,
        }
    }
}

/// The compiled program (between the script's header and footer), where every value and
/// function body keeps to the `straight` fragment; `fs` are the program's functions.
pub open spec fn program_code(ds: Seq<DeclV>, fs: Seq<Seq<char>>) -> Option<Seq<char>> {
    match (fun_section(ds, fs), main_section(ds, fs)) {
        (Some(f), Some(m)) => Some(program_banner() + f + "__main() {\n"@ + m + "}\n"@),
        _ => None,
    }
}

/// The names of a program's functions, in order.
pub open spec fn fun_names(ds: Seq<DeclV>) -> Seq<Seq<char>>
    decreases ds.len(),
{
    if ds.len() == 0 {
        Seq::empty()
    } else {
        match ds.last() {
            DeclV::Fun(n, _, _, _) => fun_names(ds.drop_last()).push(n),
            _ => fun_names(ds.drop_last()),
        }
    }
}

proof fn lemma_fun_section_prefix(ds: Seq<DeclV>, n: int, fs: Seq<Seq<char>>)
    requires
        0 <= n <= ds.len(),
    ensures
        fun_section(ds, fs) is Some ==> fun_section(ds.take(n), fs) is Some,
    decreases ds.len(),
{
    if ds.len() > 0 && n < ds.len() {
        lemma_fun_section_prefix(ds.drop_last(), n, fs);
        assert(ds.drop_last().take(n) =~= ds.take(n));
    } else if n == ds.len() {
        assert(ds.take(n) =~= ds);
    }
}

proof fn lemma_main_section_prefix(ds: Seq<DeclV>, n: int, fs: Seq<Seq<char>>)
    requires
        0 <= n <= ds.len(),
    ensures
        main_section(ds, fs) is Some ==> main_section(ds.take(n), fs) is Some,
    decreases ds.len(),
{
    if ds.len() > 0 && n < ds.len() {
        lemma_main_section_prefix(ds.drop_last(), n, fs);
        assert(ds.drop_last().take(n) =~= ds.take(n));
    } else if n == ds.len() {
        assert(ds.take(n) =~= ds);
    }
}

/// The banner that opens the compiled program.
pub open spec fn program_banner() -> Seq<char> {
    "# ══════════════════════════════════════════════════════════════════════════════"@ + "\n"@ + "# Compiled Program"@ + "\n"@ + "# ══════════════════════════════════════════════════════════════════════════════"@ + "\n"@ + "\n"@
}

/// The quoted shell reference to the variable `name`.
pub open spec fn var_ref_text(name: Seq<char>) -> Seq<char> {
    "\"$"@ + name + "\""@
}

/// Every arm of a match tests a data constructor.
pub open spec fn all_con_arms(s: Seq<(PatV, IrV)>) -> bool {
    forall|j: int| 0 <= j < s.len() ==> (#[trigger] s[j]).0 is Con
}

/// The binding an arm's constructor pattern makes of the payload: none, or one variable.
pub open spec fn arm_binding(arg: Option<Box<PatV>>, d: nat, sv: Seq<char>) -> Option<Seq<char>> {
    match arg {
        None => Some(Seq::empty()),
        Some(p) => match *p {
            PatV::Var(id, _) => Some(indent_text(d) + "local "@ + var_text(id) + "="@
                + ("$(__neap_get "@ + var_ref_text(sv) + " '._0')"@) + "\n"@),
            PatV::Wildcard => Some(Seq::empty()),
            _ => None,
        },
    }
}

/// What one arm of a match on constructors emits, at indentation `d` of the match, where
/// its body keeps to the `straight` fragment: `rv` receives the value, `sv` holds the
/// scrutinee.
pub open spec fn adt_arm_text(arm: (PatV, IrV), d: nat, fs: Seq<Seq<char>>, rv: Seq<char>, sv: Seq<char>) -> Option<Seq<char>> {
    match arm.0 {
        PatV::Con(c, arg) => match arm_binding(arg, d + 2, sv) {
            Some(b) => match straight(arm.1, d + 2, fs) {
                Some((o, code)) => Some(((indent_text(d + 1) + (c + ")"@)) + "\n"@) + b + o
                    + ((indent_text(d + 2) + (rv + "="@ + code)) + "\n"@) + ((indent_text(d + 2) + ";;"@) + "\n"@)),
                None => None,
            },
            None => None,
        },
        _ => None,
    }
}

/// What the arms of a match on constructors emit, in order.
pub open spec fn adt_arms_text(s: Seq<(PatV, IrV)>, d: nat, fs: Seq<Seq<char>>, rv: Seq<char>, sv: Seq<char>) -> Option<Seq<char>>
    decreases s.len(),
{
    if s.len() == 0 {
        Some(Seq::empty())
    } else {
        match adt_arms_text(s.drop_last(), d, fs, rv, sv) {
            Some(a) => match adt_arm_text(s.last(), d, fs, rv, sv) {
                Some(t) => Some(a + t),
                None => None,
            },
            None => None,
        }
    }
}

proof fn lemma_adt_arms_prefix(s: Seq<(PatV, IrV)>, n: int, d: nat, fs: Seq<Seq<char>>, rv: Seq<char>, sv: Seq<char>)
    requires
        0 <= n <= s.len(),
    ensures
        adt_arms_text(s, d, fs, rv, sv) is Some ==> adt_arms_text(s.take(n), d, fs, rv, sv) is Some,
    decreases s.len(),
{
    if s.len() > 0 && n < s.len() {
        lemma_adt_arms_prefix(s.drop_last(), n, d, fs, rv, sv);
        assert(s.drop_last().take(n) =~= s.take(n));
    } else if n == s.len() {
        assert(s.take(n) =~= s);
    }
}

/// The line that opens a match on a data constructor's tag.
pub open spec fn case_head(depth: nat, scrutinee: Seq<char>) -> Seq<char> {
    indent_text(depth) + "case $(__neap_tag "@ + var_ref_text(scrutinee) + ") in\n"@
}

/// The shell name of a variable.
pub open spec fn var_text(id: VarId) -> Seq<char> {
    "_"@ + decimal(id.id() as nat)
}

/// `s` ends with `t`.
pub open spec fn ends_with(s: Seq<char>, t: Seq<char>) -> bool {
    t.len() <= s.len() && s.subrange(s.len() - t.len(), s.len() as int) == t
}

/// The code of an expression that needs no statements: a literal, a variable or unit.
pub open spec fn simple_code(e: IrV) -> Option<Seq<char>> {
    match e {
        IrV::Lit(l, _) => Some(literal_code(l)),
        IrV::Var(id, _) => Some("\"$_"@ + decimal(id.id() as nat) + "\""@),
        IrV::Unit => Some("null"@),
        _ => None,
    }
}

/// `b` continues `a`: the same code with more after it, at the same indentation.
pub open spec fn extends(a: ZshCodegen, b: ZshCodegen) -> bool {
    &&& a.out().is_prefix_of(b.out())
    &&& b.depth() == a.depth()
    &&& b.functions() == a.functions()
    &&& a.temps() <= b.temps()
}

impl Default for ZshCodegen {
    fn default() -> (r: Self)
        ensures
            r.out().len() == 0,
            r.depth() == 0,
            r.temps() == 0,
    {
        Self::new()
    }
}

impl ZshCodegen {
    /// The code generated so far.
    pub closed spec fn out(&self) -> Seq<char> {
        self.output@
    }

    /// The current indentation level.
    pub closed spec fn depth(&self) -> nat {
        self.indent as nat
    }

    /// How many temporaries and lambdas have been named.
    pub closed spec fn temps(&self) -> nat {
        self.temp_counter as nat
    }

    /// The function names known to the generator.
    pub closed spec fn functions(&self) -> Seq<Seq<char>> {
        self.function_names@.map_values(|n: String| n@)
    }

    /// Create a new code generator.
    pub fn new() -> (r: Self)
        ensures
            r.out().len() == 0,
            r.depth() == 0,
            r.temps() == 0,
            r.functions().len() == 0,
    {
        ZshCodegen { output: String::new(), indent: 0, temp_counter: 0, function_names: Vec::new() }
    }

    /// Generate zsh code from an IR program.
    pub fn generate(self, program: &IRProgram) -> (code: String)
        requires
            self.out().len() == 0,
            self.depth() == 0,
            self.temps() + 4 * decls_size(decls_view(program.decls@)) <= usize::MAX,
            2 * decls_size(decls_view(program.decls@)) + 4 <= usize::MAX,
            program_prims_ok(decls_view(program.decls@)),
        ensures
            script_header().is_prefix_of(code@),
            code@.len() >= script_header().len() + script_footer().len(),
            code@.skip(code@.len() - script_footer().len()) == script_footer(),
            (script_header() + program_banner()).is_prefix_of(code@),
            program_code(decls_view(program.decls@), self.functions() + fun_names(decls_view(program.decls@))) is Some
                ==> code@ == script_header() + program_code(decls_view(program.decls@), self.functions() + fun_names(decls_view(program.decls@)))->0
                    + script_footer(),
    {
        let mut gen = self;
        let ghost ds = decls_view(program.decls@);
        // First pass: collect function names
        let mut i: usize = 0;
        proof { assert(self.functions() + fun_names(ds.take(0)) =~= self.functions()); }
        while i < program.decls.len()
            invariant
                i <= program.decls@.len(),
                gen.out().len() == 0,
                gen.depth() == 0,
                gen.temps() == self.temps(),
                ds == decls_view(program.decls@),
                gen.functions() == self.functions() + fun_names(ds.take(i as int)),
            decreases program.decls.len() - i,
        {
            proof {
                assert(ds.take(i + 1).drop_last() =~= ds.take(i as int));
                assert(ds.take(i + 1).last() == ds[i as int]);
                assert(ds[i as int] == program.decls@[i as int]@);
            }
            match &program.decls[i] {
                IRDecl::Fun { name, .. } => {
                    let ghost before = gen.function_names@;
                    gen.function_names.push(text(name.as_str()));
                    proof {
                        assert(gen.function_names@.map_values(|n: String| n@)
                            =~= before.map_values(|n: String| n@).push(name@));
                        assert(gen.functions() =~= self.functions() + fun_names(ds.take(i + 1)));
                    }
                },
                _ => {},
            }
            i += 1;
        }
        proof { assert(ds.take(i as int) =~= ds); }
        // Second pass: generate code
        gen.emit_shebang();
        gen.emit_runtime();
        let ghost before = gen.out();
        assert(before == script_header());
        gen.emit_program(program);
        let ghost middle = gen.out();
        gen.emit_main_call();
        proof {
            assert(gen.out() == middle + script_footer());
            assert(gen.out().skip(gen.out().len() - script_footer().len()) =~= script_footer());
            assert(before.is_prefix_of(middle));
            assert(script_header().is_prefix_of(gen.out())) by {
                assert forall|k: int| 0 <= k < script_header().len() implies gen.out()[k] == script_header()[k] by {
                    assert(middle[k] == before[k]);
                }
            }
        }
        gen.output
    }

    /// Generate a fresh temporary variable name.
    fn fresh_temp(&mut self) -> (name: String)
        requires
            old(self).temp_counter < usize::MAX,
        ensures
            name@ == "__t"@ + decimal(old(self).temps()),
            final(self).temps() == old(self).temps() + 1,
            final(self).out() == old(self).out(),
            final(self).depth() == old(self).depth(),
            final(self).functions() == old(self).functions(),
    {
        let mut name = text("__t");
        push_usize(&mut name, self.temp_counter);
        self.temp_counter += 1;
        name
    }

    /// Emit a line of code with current indentation.
    fn emit(&mut self, line: &str)
        ensures
            final(self).out() == old(self).out() + indent_text(old(self).depth()) + line@ + "\n"@,
            extends(*old(self), *final(self)),
            final(self).depth() == old(self).depth(),
            final(self).temps() == old(self).temps(),
            final(self).functions() == old(self).functions(),
    {
        let mut i: usize = 0;
        while i < self.indent
            invariant
                i <= self.indent,
                self.indent == old(self).indent,
                self.temp_counter == old(self).temp_counter,
                self.function_names == old(self).function_names,
                self.output@ == old(self).output@ + indent_text(i as nat),
            decreases self.indent - i,
        {
            push_str(&mut self.output, "    ");
            i += 1;
        }
        push_str(&mut self.output, line);
        push_char(&mut self.output, '\n');
        proof { reveal_strlit("\n"); }
        assert(self.output@ =~= old(self).output@ + indent_text(old(self).depth()) + line@ + "\n"@);
        proof {
            lemma_prefix_append(old(self).out(), indent_text(old(self).depth()) + line@ + "\n"@);
            assert(old(self).out() + (indent_text(old(self).depth()) + line@ + "\n"@) =~= self.out());
        }
    }

    /// Emit an empty line.
    fn emit_blank(&mut self)
        ensures
            final(self).out() == old(self).out() + "\n"@,
            extends(*old(self), *final(self)),
            final(self).depth() == old(self).depth(),
            final(self).temps() == old(self).temps(),
            final(self).functions() == old(self).functions(),
    {
        push_char(&mut self.output, '\n');
        proof { reveal_strlit("\n"); }
        assert(self.output@ =~= old(self).output@ + "\n"@);
        proof { lemma_prefix_append(old(self).out(), "\n"@); }
    }

    /// Emit the shebang and shell options.
    fn emit_shebang(&mut self)
        requires
            old(self).depth() == 0,
        ensures
            final(self).out() == old(self).out() + "#!/usr/bin/env zsh"@ + "\n"@ + "set -uo pipefail"@ + "\n"@ + "\n"@,
            final(self).depth() == old(self).depth(),
            final(self).temps() == old(self).temps(),
            final(self).functions() == old(self).functions(),
    {
        self.emit("#!/usr/bin/env zsh");
        self.emit("set -uo pipefail");
        self.emit_blank();
        assert(self.out() =~= old(self).out() + "#!/usr/bin/env zsh"@ + "\n"@ + "set -uo pipefail"@ + "\n"@ + "\n"@);
    }

    /// Emit the runtime library.
    fn emit_runtime(&mut self)
        ensures
            final(self).out() == old(self).out() + RUNTIME@ + "\n"@,
            final(self).depth() == old(self).depth(),
            final(self).temps() == old(self).temps(),
            final(self).functions() == old(self).functions(),
    {
        push_str(&mut self.output, RUNTIME);
        self.emit_blank();
    }

    /// Emit the main call at the end.
    fn emit_main_call(&mut self)
        requires
            old(self).depth() == 0,
        ensures
            final(self).out() == old(self).out() + script_footer(),
            final(self).depth() == old(self).depth(),
            final(self).temps() == old(self).temps(),
            final(self).functions() == old(self).functions(),
    {
        self.emit_blank();
        self.emit("__main \"$@\"");
        assert(self.out() =~= old(self).out() + script_footer());
    }

    /// Whether a global name is one of the program's functions.
    fn is_function(&self, name: &String) -> (b: bool)
        ensures
            b == self.functions().contains(name@),
    {
        let mut i: usize = 0;
        while i < self.function_names.len()
            invariant
                i <= self.function_names@.len(),
                forall|j: int| 0 <= j < i ==> self.function_names@[j]@ != name@,
            decreases self.function_names.len() - i,
        {
            if self.function_names[i] == *name {
                assert(self.functions()[i as int] == name@);
                return true;
            }
            i += 1;
        }
        proof {
            if self.functions().contains(name@) {
                let k = choose|k: int| 0 <= k < self.functions().len() && self.functions()[k] == name@;
                assert(self.function_names@[k]@ == name@);
            }
        }
        false
    }
}

proof fn lemma_size_seq_prefix(s: Seq<IrV>, i: int)
    requires
        0 <= i < s.len(),
    ensures
        size_seq(s.take(i + 1)) == size_seq(s.take(i)) + ir_size(s[i]),
        size_seq(s.take(i + 1)) <= size_seq(s),
    decreases s.len(),
{
    assert(s.take(i + 1).drop_last() =~= s.take(i));
    if i + 1 < s.len() {
        lemma_size_seq_prefix(s.drop_last(), i);
        assert(s.drop_last().take(i + 1) =~= s.take(i + 1));
    } else {
        assert(s.take(i + 1) =~= s);
    }
}

proof fn lemma_size_binds_prefix(s: Seq<(VarId, crate::types::model::TypeV, IrV)>, i: int)
    requires
        0 <= i < s.len(),
    ensures
        size_binds(s.take(i + 1)) == size_binds(s.take(i)) + ir_size(s[i].2),
        size_binds(s.take(i + 1)) <= size_binds(s),
    decreases s.len(),
{
    assert(s.take(i + 1).drop_last() =~= s.take(i));
    if i + 1 < s.len() {
        lemma_size_binds_prefix(s.drop_last(), i);
        assert(s.drop_last().take(i + 1) =~= s.take(i + 1));
    } else {
        assert(s.take(i + 1) =~= s);
    }
}

proof fn lemma_size_arms_prefix(s: Seq<(PatV, IrV)>, i: int)
    requires
        0 <= i < s.len(),
    ensures
        size_arms(s.take(i + 1)) == size_arms(s.take(i)) + ir_size(s[i].1),
        size_arms(s.take(i + 1)) <= size_arms(s),
    decreases s.len(),
{
    assert(s.take(i + 1).drop_last() =~= s.take(i));
    if i + 1 < s.len() {
        lemma_size_arms_prefix(s.drop_last(), i);
        assert(s.drop_last().take(i + 1) =~= s.take(i + 1));
    } else {
        assert(s.take(i + 1) =~= s);
    }
}

proof fn lemma_size_fields_prefix(s: Seq<(Seq<char>, IrV)>, i: int)
    requires
        0 <= i < s.len(),
    ensures
        size_fields(s.take(i + 1)) == size_fields(s.take(i)) + ir_size(s[i].1),
        size_fields(s.take(i + 1)) <= size_fields(s),
    decreases s.len(),
{
    assert(s.take(i + 1).drop_last() =~= s.take(i));
    if i + 1 < s.len() {
        lemma_size_fields_prefix(s.drop_last(), i);
        assert(s.drop_last().take(i + 1) =~= s.take(i + 1));
    } else {
        assert(s.take(i + 1) =~= s);
    }
}

proof fn lemma_size_parts_prefix(s: Seq<PartV>, i: int)
    requires
        0 <= i < s.len(),
    ensures
        size_parts(s.take(i + 1)) == size_parts(s.take(i)) + match s[i] {
            PartV::Literal(_) => 0,
            PartV::Interpolation(e) => ir_size(*e),
        },
        size_parts(s.take(i + 1)) <= size_parts(s),
    decreases s.len(),
{
    assert(s.take(i + 1).drop_last() =~= s.take(i));
    if i + 1 < s.len() {
        lemma_size_parts_prefix(s.drop_last(), i);
        assert(s.drop_last().take(i + 1) =~= s.take(i + 1));
    } else {
        assert(s.take(i + 1) =~= s);
    }
}

proof fn lemma_decls_size_prefix(s: Seq<DeclV>, i: int)
    requires
        0 <= i < s.len(),
    ensures
        decls_size(s.take(i + 1)) == decls_size(s.take(i)) + decl_size(s[i]),
        decls_size(s.take(i + 1)) <= decls_size(s),
    decreases s.len(),
{
    assert(s.take(i + 1).drop_last() =~= s.take(i));
    if i + 1 < s.len() {
        lemma_decls_size_prefix(s.drop_last(), i);
        assert(s.drop_last().take(i + 1) =~= s.take(i + 1));
    } else {
        assert(s.take(i + 1) =~= s);
    }
}

proof fn lemma_prefix_trans(a: Seq<char>, b: Seq<char>, c: Seq<char>)
    requires
        a.is_prefix_of(b),
        b.is_prefix_of(c),
    ensures
        a.is_prefix_of(c),
{
    assert forall|k: int| 0 <= k < a.len() implies c[k] == a[k] by {
        assert(b[k] == a[k]);
    }
}

proof fn lemma_prefix_append(a: Seq<char>, t: Seq<char>)
    ensures
        a.is_prefix_of(a + t),
{
    assert forall|k: int| 0 <= k < a.len() implies (a + t)[k] == a[k] by {}
}

/// The `jq` arguments that pass element codes, each under its own name:
/// `--argjson a<code> <code>`, separated by spaces.
pub open spec fn tuple_args_text(codes: Seq<Seq<char>>) -> Seq<char>
    decreases codes.len(),
{
    if codes.len() == 0 {
        Seq::empty()
    } else {
        let prev = tuple_args_text(codes.drop_last());
        let c = codes.last();
        (if codes.len() > 1 { prev + " "@ } else { prev }) + "--argjson a"@ + c + " "@ + c
    }
}

/// The `jq` arguments that pass field codes as `$f0`, `$f1`, ...
pub open spec fn record_args_text(codes: Seq<Seq<char>>) -> Seq<char>
    decreases codes.len(),
{
    if codes.len() == 0 {
        Seq::empty()
    } else {
        let prev = record_args_text(codes.drop_last());
        let i = (codes.len() - 1) as nat;
        (if codes.len() > 1 { prev + " "@ } else { prev }) + "--argjson f"@ + decimal(i) + " "@ + codes.last()
    }
}

/// The members of the object that a record builds: `"name": $fI`, separated by commas.
pub open spec fn record_members_text(names: Seq<Seq<char>>) -> Seq<char>
    decreases names.len(),
{
    if names.len() == 0 {
        Seq::empty()
    } else {
        let prev = record_members_text(names.drop_last());
        let i = (names.len() - 1) as nat;
        (if names.len() > 1 { prev + ", "@ } else { prev }) + "\""@ + names.last() + "\": $f"@ + decimal(i)
    }
}

/// The `jq` program of a record with the given field names and codes.
pub open spec fn record_code_text(names: Seq<Seq<char>>, codes: Seq<Seq<char>>) -> Seq<char> {
    "$(jq -nc "@ + record_args_text(codes) + " '{ "@ + record_members_text(names) + " }')"@
}

/// The element codes of a tuple, each passed to `jq` under its own name.
fn tuple_args(codes: &Vec<String>) -> (r: String)
    ensures
        r@ == tuple_args_text(codes@.map_values(|c: String| c@)),
{
    let ghost cs = codes@.map_values(|c: String| c@);
    let mut r = String::new();
    let mut i: usize = 0;
    assert(cs.take(0) =~= Seq::<Seq<char>>::empty());
    while i < codes.len()
        invariant
            i <= codes@.len(),
            cs == codes@.map_values(|c: String| c@),
            r@ == tuple_args_text(cs.take(i as int)),
        decreases codes.len() - i,
    {
        proof {
            let t = cs.take(i + 1);
            assert(t.drop_last() =~= cs.take(i as int));
            assert(t.last() == codes@[i as int]@);
        }
        if i > 0 {
            push_str(&mut r, " ");
        }
        push_str(&mut r, "--argjson a");
        push_str(&mut r, codes[i].as_str());
        push_str(&mut r, " ");
        push_str(&mut r, codes[i].as_str());
        i += 1;
    }
    assert(cs.take(i as int) =~= cs);
    r
}

/// The `jq` program of a record: its arguments and the object they fill.
fn record_code(names: &Vec<String>, codes: &Vec<String>) -> (r: String)
    requires
        names@.len() == codes@.len(),
    ensures
        r@ == record_code_text(names@.map_values(|n: String| n@), codes@.map_values(|c: String| c@)),
{
    let ghost cs = codes@.map_values(|c: String| c@);
    let ghost ns = names@.map_values(|n: String| n@);
    let mut jq_args = String::new();
    let mut obj_parts = String::new();
    let mut i: usize = 0;
    assert(cs.take(0) =~= Seq::<Seq<char>>::empty());
    assert(ns.take(0) =~= Seq::<Seq<char>>::empty());
    while i < codes.len()
        invariant
            names@.len() == codes@.len(),
            i <= codes@.len(),
            cs == codes@.map_values(|c: String| c@),
            ns == names@.map_values(|n: String| n@),
            jq_args@ == record_args_text(cs.take(i as int)),
            obj_parts@ == record_members_text(ns.take(i as int)),
        decreases codes.len() - i,
    {
        proof {
            let t = cs.take(i + 1);
            assert(t.drop_last() =~= cs.take(i as int));
            assert(t.last() == codes@[i as int]@);
            let u = ns.take(i + 1);
            assert(u.drop_last() =~= ns.take(i as int));
            assert(u.last() == names@[i as int]@);
        }
        if i > 0 {
            push_str(&mut jq_args, " ");
            push_str(&mut obj_parts, ", ");
        }
        push_str(&mut jq_args, "--argjson f");
        push_usize(&mut jq_args, i);
        push_str(&mut jq_args, " ");
        push_str(&mut jq_args, codes[i].as_str());
        push_str(&mut obj_parts, "\"");
        push_str(&mut obj_parts, names[i].as_str());
        push_str(&mut obj_parts, "\": $f");
        push_usize(&mut obj_parts, i);
        i += 1;
    }
    assert(cs.take(i as int) =~= cs);
    assert(ns.take(i as int) =~= ns);
    let mut r = text("$(jq -nc ");
    push_str(&mut r, jq_args.as_str());
    push_str(&mut r, " '{ ");
    push_str(&mut r, obj_parts.as_str());
    push_str(&mut r, " }')");
    r
}

/// `"$name"`: the value of a shell variable.
fn var_ref(name: &str) -> (r: String)
    ensures
        r@ == "\"$"@ + name@ + "\""@,
{
    let mut r = text("\"$");
    push_str(&mut r, name);
    push_str(&mut r, "\"");
    r
}

/// `_N`: the shell variable of an IR variable.
fn var_name(id: VarId) -> (r: String)
    ensures
        r@ == var_text(id),
{
    let mut r = text("_");
    push_decimal(&mut r, id.raw());
    r
}

impl ZshCodegen {
    /// Emit the complete program.
    #[verifier::rlimit(80)]
    fn emit_program(&mut self, program: &IRProgram)
        requires
            old(self).depth() == 0,
            old(self).temps() + 4 * decls_size(decls_view(program.decls@)) <= usize::MAX,
            2 * decls_size(decls_view(program.decls@)) + 4 <= usize::MAX,
            program_prims_ok(decls_view(program.decls@)),
        ensures
            extends(*old(self), *final(self)),
            (old(self).out() + program_banner()).is_prefix_of(final(self).out()),
            ends_with(final(self).out(), "}\n"@),
            program.decls@.len() == 0 ==> final(self).out() == old(self).out() + program_banner() + "__main() {\n"@ + "}\n"@,
            program_code(decls_view(program.decls@), old(self).functions()) is Some ==> final(self).out() == old(self).out() + program_code(decls_view(program.decls@), old(self).functions())->0,
    {
        let ghost ds = decls_view(program.decls@);
        let ghost start = self.temps();
        self.emit("# ══════════════════════════════════════════════════════════════════════════════");
        self.emit("# Compiled Program");
        self.emit("# ══════════════════════════════════════════════════════════════════════════════");
        self.emit_blank();
        let ghost b0 = self.out();
        proof {
            assert(old(self).out().is_prefix_of(self.out())) by {
                assert forall|k: int| 0 <= k < old(self).out().len() implies self.out()[k] == old(self).out()[k] by {}
            }
            assert(indent_text(0) =~= Seq::<char>::empty());
            assert(b0 =~= old(self).out() + program_banner());
            assert(b0.is_prefix_of(b0));
        }
        // First pass: emit all function declarations
        let mut i: usize = 0;
        while i < program.decls.len()
            invariant
                i <= program.decls@.len(),
                ds == decls_view(program.decls@),
                self.depth() == 0,
                self.functions() == old(self).functions(),
                old(self).out().is_prefix_of(self.out()),
                b0.is_prefix_of(self.out()),
                program.decls@.len() == 0 ==> self.out() == b0,
                fun_section(ds, old(self).functions()) is Some ==> (fun_section(ds.take(i as int), old(self).functions()) is Some
                    && self.out() == b0 + fun_section(ds.take(i as int), old(self).functions())->0),
                start <= self.temps() <= start + 2 * decls_size(ds.take(i as int)),
                start + 4 * decls_size(ds) <= usize::MAX,
                2 * decls_size(ds) + 4 <= usize::MAX,
                program_prims_ok(ds),
            decreases program.decls.len() - i,
        {
            proof {
                lemma_decls_size_prefix(ds, i as int);
                lemma_fun_section_prefix(ds, i + 1, old(self).functions());
                assert(ds.take(i + 1).drop_last() =~= ds.take(i as int));
                assert(ds.take(i + 1).last() == ds[i as int]);
                assert(ds[i as int] == program.decls@[i as int]@);
            }
            let ghost before = self.out();
            match &program.decls[i] {
                IRDecl::Fun { .. } => {
                    self.emit_decl(&program.decls[i]);
                    let ghost mid = self.out();
                    self.emit_blank();
                    proof { lemma_prefix_trans(before, mid, self.out()); }
                },
                _ => {},
            }
            proof {
                assert(before.is_prefix_of(self.out()));
                lemma_prefix_trans(old(self).out(), before, self.out());
                lemma_prefix_trans(b0, before, self.out());
            }
            i += 1;
        }
        // Emit __main function with all value declarations
        let ghost o1 = self.out();
        self.emit("__main() {");
        let ghost m0 = self.out();
        proof {
            lemma_prefix_trans(old(self).out(), o1, self.out());
            lemma_prefix_trans(b0, o1, self.out());
            assert(m0.is_prefix_of(m0));
            assert(ds.take(program.decls@.len() as int) =~= ds);
        }
        self.indent += 1;
        let mut i: usize = 0;
        while i < program.decls.len()
            invariant
                i <= program.decls@.len(),
                ds == decls_view(program.decls@),
                self.depth() == 1,
                self.functions() == old(self).functions(),
                old(self).out().is_prefix_of(self.out()),
                b0.is_prefix_of(self.out()),
                program.decls@.len() == 0 ==> self.out() == m0,
                main_section(ds, old(self).functions()) is Some ==> (main_section(ds.take(i as int), old(self).functions()) is Some
                    && self.out() == m0 + main_section(ds.take(i as int), old(self).functions())->0),
                start <= self.temps() <= start + 2 * decls_size(ds) + 2 * decls_size(ds.take(i as int)),
                start + 4 * decls_size(ds) <= usize::MAX,
                2 * decls_size(ds) + 4 <= usize::MAX,
                program_prims_ok(ds),
            decreases program.decls.len() - i,
        {
            proof {
                lemma_decls_size_prefix(ds, i as int);
                lemma_main_section_prefix(ds, i + 1, old(self).functions());
                assert(ds.take(i + 1).drop_last() =~= ds.take(i as int));
                assert(ds.take(i + 1).last() == ds[i as int]);
                assert(ds[i as int] == program.decls@[i as int]@);
            }
            let ghost before = self.out();
            match &program.decls[i] {
                IRDecl::Val { .. } => self.emit_decl(&program.decls[i]),
                _ => {},
            }
            proof {
                if main_section(ds, old(self).functions()) is Some {
                    assert(self.out() =~= m0 + main_section(ds.take(i + 1), old(self).functions())->0);
                }
            }
            proof {
                lemma_prefix_trans(old(self).out(), before, self.out());
                lemma_prefix_trans(b0, before, self.out());
            }
            i += 1;
        }
        self.indent -= 1;
        let ghost o2 = self.out();
        self.emit("}");
        proof {
            lemma_prefix_trans(old(self).out(), o2, self.out());
            lemma_prefix_trans(b0, o2, self.out());
            reveal_strlit("}");
            reveal_strlit("\n");
            reveal_strlit("}\n");
            reveal_strlit("__main() {");
            reveal_strlit("__main() {\n");
            let tail = "}\n"@;
            assert(self.out() =~= o2 + tail);
            assert(self.out().subrange(self.out().len() - tail.len(), self.out().len() as int) =~= tail);
            if program.decls@.len() == 0 {
                assert(self.out() =~= old(self).out() + program_banner() + "__main() {\n"@ + "}\n"@);
            }
            if program_code(ds, old(self).functions()) is Some {
                assert(ds.take(ds.len() as int) =~= ds);
                assert(self.out() =~= old(self).out() + program_code(ds, old(self).functions())->0);
            }
        }
    }
}

impl ZshCodegen {
    /// Emit a declaration.
    fn emit_decl(&mut self, decl: &IRDecl)
        requires
            old(self).depth() + 2 * decl_size(decl@) + 2 <= usize::MAX,
            old(self).temps() + 2 * decl_size(decl@) <= usize::MAX,
            decl_prims_ok(decl@),
        ensures
            extends(*old(self), *final(self)),
            final(self).temps() <= old(self).temps() + 2 * decl_size(decl@),
            match decl@ {
                DeclV::Fun(n, _, ps, b) => {
                    &&& (old(self).out() + indent_text(old(self).depth()) + "__"@ + n + "() {\n"@).is_prefix_of(final(self).out())
                    &&& ends_with(final(self).out(), indent_text(old(self).depth()) + "}\n"@)
                    &&& fun_text(n, ps, b, old(self).depth(), old(self).functions()) is Some
                        ==> final(self).out() == old(self).out() + fun_text(n, ps, b, old(self).depth(), old(self).functions())->0
                },
                DeclV::Val(n, _, v) => straight(v, old(self).depth(), old(self).functions()) is Some
                    ==> final(self).out() == old(self).out() + val_text(n, v, old(self).depth(), old(self).functions()),
                DeclV::Data(_, _, _) => final(self).out() == old(self).out(),
            },
    {
        match decl {
            IRDecl::Val { name, value, .. } => {
                let val_code = self.emit_expr(value);
                let mut line = text("local ");
                push_str(&mut line, name.as_str());
                push_str(&mut line, "=");
                push_str(&mut line, val_code.as_str());
                let ghost mid = self.out();
                self.emit(line.as_str());
                proof {
                    lemma_prefix_trans(old(self).out(), mid, self.out());
                    let st = straight(value@, old(self).depth(), old(self).functions());
                    if st is Some {
                        let tail = indent_text(old(self).depth()) + "local "@ + name@ + "="@ + code_of(st) + "\n"@;
                        assert(mid == old(self).out() + out_of(st));
                        assert(line@ == "local "@ + name@ + "="@ + code_of(st));
                        assert(self.out() =~= mid + tail);
                        assert(self.out() =~= old(self).out() + (out_of(st) + tail));
                    }
                }
            },
            IRDecl::Fun { name, params, body, .. } => {
                self.emit_fun_decl(name.as_str(), params, body);
            },
            IRDecl::Data { .. } => {
                // Data type declarations don't generate code;
                // constructors are handled inline
                proof { lemma_prefix_append(self.out(), Seq::empty()); assert(self.out() + Seq::<char>::empty() =~= self.out()); }
            },
        }
    }

    /// Emit a function declaration.
    #[verifier::rlimit(60)]
    fn emit_fun_decl(&mut self, name: &str, params: &Vec<(VarId, Type)>, body: &IRExpr)
        requires
            old(self).depth() + 2 * ir_size(body@) + 2 <= usize::MAX,
            old(self).temps() + 2 * ir_size(body@) <= usize::MAX,
            prims_ok(body@),
        ensures
            extends(*old(self), *final(self)),
            final(self).temps() <= old(self).temps() + 2 * ir_size(body@),
            (old(self).out() + indent_text(old(self).depth()) + "__"@ + name@ + "() {\n"@).is_prefix_of(final(self).out()),
            ends_with(final(self).out(), indent_text(old(self).depth()) + "}\n"@),
            fun_text(name@, params@.map_values(|p: (VarId, Type)| (p.0, p.1@)), body@, old(self).depth(), old(self).functions()) is Some ==> final(self).out() == old(self).out() + fun_text(name@, params@.map_values(|p: (VarId, Type)| (p.0, p.1@)), body@, old(self).depth(), old(self).functions())->0,
    {
        let ghost pv = params@.map_values(|p: (VarId, Type)| (p.0, p.1@));
        let mut head = text("__");
        push_str(&mut head, name);
        push_str(&mut head, "() {");
        self.emit(head.as_str());
        let ghost h = self.out();
        proof {
            reveal_strlit("() {");
            reveal_strlit("\n");
            reveal_strlit("() {\n");
            assert(h =~= old(self).out() + indent_text(old(self).depth()) + "__"@ + name@ + "() {\n"@);
        }
        proof {
            assert(h.is_prefix_of(h));
            assert(pv.take(0) =~= Seq::<(VarId, TypeV)>::empty());
            assert(h + param_lines(pv.take(0), old(self).depth() + 1) =~= h);
        }
        self.indent += 1;
        // Bind parameters to positional arguments
        let mut i: usize = 0;
        while i < params.len()
            invariant
                i <= params@.len(),
                self.depth() == old(self).depth() + 1,
                self.temps() == old(self).temps(),
                self.functions() == old(self).functions(),
                old(self).out().is_prefix_of(self.out()),
                h.is_prefix_of(self.out()),
                pv == params@.map_values(|p: (VarId, Type)| (p.0, p.1@)),
                self.out() == h + param_lines(pv.take(i as int), old(self).depth() + 1),
            decreases params.len() - i,
        {
            let mut line = text("local ");
            push_str(&mut line, var_name(params[i].0).as_str());
            push_str(&mut line, "=$");
            push_usize(&mut line, i + 1);
            let ghost before = self.out();
            self.emit(line.as_str());
            proof {
                lemma_prefix_trans(old(self).out(), before, self.out());
                lemma_prefix_trans(h, before, self.out());
                assert(pv.take(i + 1).drop_last() =~= pv.take(i as int));
                assert(pv.take(i + 1).last() == pv[i as int]);
                assert(self.out() =~= h + param_lines(pv.take(i + 1), old(self).depth() + 1));
            }
            i += 1;
        }
        proof { assert(pv.take(i as int) =~= pv); }
        // Generate body
        let ghost b1 = self.out();
        let result = self.emit_expr(body);
        let mut line = text("echo ");
        push_str(&mut line, result.as_str());
        let ghost b2 = self.out();
        self.emit(line.as_str());
        self.indent -= 1;
        let ghost b3 = self.out();
        self.emit("}");
        proof {
            reveal_strlit("}");
            reveal_strlit("\n");
            reveal_strlit("}\n");
            assert(self.out() =~= b3 + (indent_text(old(self).depth()) + "}\n"@));
            let tail = indent_text(old(self).depth()) + "}\n"@;
            assert(self.out().subrange(self.out().len() - tail.len(), self.out().len() as int) =~= tail);
            lemma_prefix_trans(h, b1, b2);
            lemma_prefix_trans(h, b2, b3);
            lemma_prefix_trans(h, b3, self.out());
            lemma_prefix_trans(old(self).out(), b1, b2);
            lemma_prefix_trans(old(self).out(), b2, b3);
            lemma_prefix_trans(old(self).out(), b3, self.out());
            if fun_text(name@, params@.map_values(|p: (VarId, Type)| (p.0, p.1@)), body@, old(self).depth(), old(self).functions()) is Some {
                let st = straight(body@, old(self).depth() + 1, old(self).functions());
                let o = out_of(st);
                let c = code_of(st);
                assert(b2 == b1 + o);
                assert(result@ == c);
                assert(b3 =~= b2 + indent_text(old(self).depth() + 1) + "echo "@ + c + "\n"@);
                let t = indent_text(old(self).depth()) + "__"@ + name@ + "() {\n"@ + param_lines(pv, old(self).depth() + 1) + o
                    + indent_text(old(self).depth() + 1) + "echo "@ + c + "\n"@ + indent_text(old(self).depth()) + "}\n"@;
                assert(fun_text(name@, params@.map_values(|p: (VarId, Type)| (p.0, p.1@)), body@, old(self).depth(), old(self).functions())->0 == t);
                assert(self.out() =~= old(self).out() + t);
            }
        }
    }

    /// Emit an expression and return the zsh expression that evaluates to its value.
    #[verifier::rlimit(100)]
    #[verifier::spinoff_prover]
    fn emit_expr(&mut self, expr: &IRExpr) -> (code: String)
        requires
            old(self).depth() + 2 * ir_size(expr@) <= usize::MAX,
            old(self).temps() + 2 * ir_size(expr@) <= usize::MAX,
            prims_ok(expr@),
        ensures
            extends(*old(self), *final(self)),
            final(self).temps() <= old(self).temps() + 2 * ir_size(expr@),
            expr@ is Lit ==> code@ == literal_code(expr@->Lit_0) && final(self).out() == old(self).out(),
            expr@ is Var ==> code@ == "\"$_"@ + decimal(expr@->Var_0.id() as nat) + "\""@
                && final(self).out() == old(self).out(),
            expr@ is Unit ==> code@ == "null"@ && final(self).out() == old(self).out(),
            straight(expr@, old(self).depth(), old(self).functions()) is Some ==> (
                final(self).out() == old(self).out() + out_of(straight(expr@, old(self).depth(), old(self).functions()))
                && code@ == code_of(straight(expr@, old(self).depth(), old(self).functions()))),
            (expr@ is Lambda && lambda_text(expr@, old(self).depth(), old(self).functions(), old(self).temps()) is Some) ==> (final(self).out() == old(self).out() + lambda_text(expr@, old(self).depth(), old(self).functions(), old(self).temps())->0
                && code@ == "\""@ + ("__lambda_"@ + decimal(old(self).temps())) + "\""@),
            (expr@ is If && if_text(expr@, old(self).depth(), old(self).functions(), old(self).temps()) is Some) ==> (final(self).out() == old(self).out() + if_text(expr@, old(self).depth(), old(self).functions(), old(self).temps())->0
                && code@ == var_ref_text("__t"@ + decimal(old(self).temps()))),
        decreases expr@,
    {
        let ghost ev = expr@;
        let ghost o0 = self.out();
        let ghost t0 = self.temps();
        match expr {
            IRExpr::Lit(lit, _) => {
                proof { lemma_prefix_append(o0, Seq::empty()); assert(o0 + Seq::<char>::empty() =~= o0); }
                self.emit_literal(lit)
            },
            IRExpr::Var(id, _) => {
                proof { lemma_prefix_append(o0, Seq::empty()); assert(o0 + Seq::<char>::empty() =~= o0); }
                let mut r = text("\"$_");
                push_decimal(&mut r, id.raw());
                push_str(&mut r, "\"");
                r
            },
            IRExpr::Global(name, _) => {
                proof { lemma_prefix_append(o0, Seq::empty()); assert(o0 + Seq::<char>::empty() =~= o0); }
                if self.is_function(name) {
                    // Function reference - emit the runtime function name as a string
                    let mut r = text("\"__");
                    push_str(&mut r, name.as_str());
                    push_str(&mut r, "\"");
                    proof { assert(self.out() =~= o0 + Seq::<char>::empty()); }
                    r
                } else {
                    proof { assert(self.out() =~= o0 + Seq::<char>::empty()); }
                    // Value reference - emit as shell variable
                    var_ref(name.as_str())
                }
            },
            IRExpr::Unit => {
                proof { lemma_prefix_append(o0, Seq::empty()); assert(o0 + Seq::<char>::empty() =~= o0); }
                text("null")
            },
            IRExpr::Let { var, value, body, .. } => {
                assert(decreases_to!(ev => ev->Let_2));
                assert(decreases_to!(ev => ev->Let_3));
                let val_code = self.emit_expr(value);
                let mut line = text("local ");
                push_str(&mut line, var_name(*var).as_str());
                push_str(&mut line, "=");
                push_str(&mut line, val_code.as_str());
                let ghost o1 = self.out();
                self.emit(line.as_str());
                let ghost o2 = self.out();
                let r = self.emit_expr(body);
                proof {
                    lemma_prefix_trans(o0, o1, o2);
                    lemma_prefix_trans(o0, o2, self.out());
                    if straight(ev, old(self).depth(), old(self).functions()) is Some {
                        assert(self.out() =~= o0 + out_of(straight(ev, old(self).depth(), old(self).functions())));
                    }
                }
                r
            },
            IRExpr::LetRec { bindings, body } => {
                assert(decreases_to!(ev => ev->LetRec_0));
                assert(decreases_to!(ev => ev->LetRec_1));
                // For recursive bindings, we emit them as local variables
                // This works because zsh functions can reference variables defined later
                proof { lemma_bview_seq(bindings@); }
                let ghost s = bview_seq(bindings@);
                let mut i: usize = 0;
                assert(size_binds(s.take(0)) == 0);
                while i < bindings.len()
                    invariant
                        i <= bindings@.len(),
                        s == bview_seq(bindings@),
                        s.len() == bindings@.len(),
                        forall|j: int| 0 <= j < s.len() ==> #[trigger] s[j] == (bindings@[j].var, bindings@[j].ty@, eview(bindings@[j].value)),
                        self.depth() == old(self).depth(),
                        self.functions() == old(self).functions(),
                        o0.is_prefix_of(self.out()),
                        o0 == old(self).out(),
                        t0 == old(self).temps(),
                        t0 <= self.temps() <= t0 + 2 * size_binds(s.take(i as int)),
                        old(self).depth() + 2 * ir_size(ev) <= usize::MAX,
                        old(self).temps() + 2 * ir_size(ev) <= usize::MAX,
                        ir_size(ev) == 1 + size_binds(s) + ir_size(*ev->LetRec_1),
                        prims_ok(ev),
                        ev is LetRec,
                        ev == expr@,
                        ev->LetRec_0 == s,
                        decreases_to!(ev => s),
                        straight_binds(s, old(self).depth(), old(self).functions()) is Some ==> (straight_binds(s.take(i as int), old(self).depth(), old(self).functions()) is Some && self.out() == o0 + straight_binds(s.take(i as int), old(self).depth(), old(self).functions())->0),
                    decreases bindings.len() - i,
                {
                    proof {
                        lemma_size_binds_prefix(s, i as int);
                        assert(decreases_to!(s => s[i as int]));
                        assert(decreases_to!(s[i as int] => s[i as int].2));
                        lemma_straight_binds_prefix(s, i + 1, old(self).depth(), old(self).functions());
                        assert(s.take(i + 1).drop_last() =~= s.take(i as int));
                        assert(s.take(i + 1).last() == s[i as int]);
                    }
                    let ghost ob = self.out();
                    let val_code = self.emit_expr(&bindings[i].value);
                    let mut line = text("local ");
                    push_str(&mut line, var_name(bindings[i].var).as_str());
                    push_str(&mut line, "=");
                    push_str(&mut line, val_code.as_str());
                    let ghost o1 = self.out();
                    self.emit(line.as_str());
                    proof {
                        lemma_prefix_trans(o0, o1, self.out());
                        if straight_binds(s, old(self).depth(), old(self).functions()) is Some {
                            let st = straight(s[i as int].2, old(self).depth(), old(self).functions());
                            assert(o1 == ob + out_of(st));
                            lemma_line(o1, indent_text(old(self).depth()), line@, "\n"@);
                            vstd::seq_lib::lemma_concat_associative(o0, straight_binds(s.take(i as int), old(self).depth(), old(self).functions())->0, out_of(st));
                            assert(self.out() =~= o0 + straight_binds(s.take(i + 1), old(self).depth(), old(self).functions())->0);
                        }
                    }
                    i += 1;
                }
                proof { assert(s.take(i as int) =~= s); }
                let ghost o1 = self.out();
                let r = self.emit_expr(body);
                proof {
                    lemma_prefix_trans(o0, o1, self.out());
                    if straight(ev, old(self).depth(), old(self).functions()) is Some {
                        assert(self.out() =~= o0 + out_of(straight(ev, old(self).depth(), old(self).functions())));
                    }
                }
                r
            },
            IRExpr::Lambda { param, body, .. } => {
                assert(decreases_to!(ev => ev->Lambda_2));
                // For lambdas, we create a named function and return its name
                let mut fn_name = text("__lambda_");
                push_usize(&mut fn_name, self.temp_counter);
                self.temp_counter += 1;
                let mut head = fn_name.clone();
                push_str(&mut head, "() {");
                self.emit(head.as_str());
                self.indent += 1;
                let mut bind = text("local ");
                push_str(&mut bind, var_name(*param).as_str());
                push_str(&mut bind, "=$1");
                let ghost o1 = self.out();
                self.emit(bind.as_str());
                let ghost o2 = self.out();
                let result = self.emit_expr(body);
                let mut echo = text("echo ");
                push_str(&mut echo, result.as_str());
                let ghost o3 = self.out();
                self.emit(echo.as_str());
                self.indent -= 1;
                let ghost o4 = self.out();
                self.emit("}");
                proof {
                    lemma_prefix_trans(o0, o1, o2);
                    lemma_prefix_trans(o0, o2, o3);
                    lemma_prefix_trans(o0, o3, o4);
                    lemma_prefix_trans(o0, o4, self.out());
                    reveal(lambda_text);
                    if lambda_text(ev, old(self).depth(), old(self).functions(), old(self).temps()) is Some {
                        let d = old(self).depth();
                        let fs = old(self).functions();
                        let sb = straight(*ev->Lambda_2, d + 1, fs);
                        let nl = "\n"@;
                        lemma_line(o0, indent_text(d), head@, nl);
                        lemma_line(o1, indent_text(d + 1), bind@, nl);
                        lemma_line(o3, indent_text(d + 1), echo@, nl);
                        lemma_line(o4, indent_text(d), "}"@, nl);
                        lemma_appended5(o0, o1, o2, o3, o4, self.out(),
                            indent_text(d) + head@ + nl, indent_text(d + 1) + bind@ + nl, out_of(sb),
                            indent_text(d + 1) + echo@ + nl, indent_text(d) + "}"@ + nl);
                        lemma_function_pieces(d, "__lambda_"@ + decimal(old(self).temps()), var_text(*param),
                            out_of(sb), code_of(sb), head@, bind@, echo@);
                    }
                }
                // Return the function name as a string
                let mut r = text("\"");
                push_str(&mut r, fn_name.as_str());
                push_str(&mut r, "\"");
                r
            },
            IRExpr::App { func, arg, .. } => {
                assert(decreases_to!(ev => ev->App_0));
                assert(decreases_to!(ev => ev->App_1));
                let func_code = self.emit_expr(func);
                let ghost o1 = self.out();
                let arg_code = self.emit_expr(arg);
                proof {
                    lemma_prefix_trans(o0, o1, self.out());
                    if straight(ev, old(self).depth(), old(self).functions()) is Some {
                        assert(self.out() =~= o0 + out_of(straight(ev, old(self).depth(), old(self).functions())));
                    }
                }
                let mut r = text("$(__neap_call ");
                push_str(&mut r, func_code.as_str());
                push_str(&mut r, " ");
                push_str(&mut r, arg_code.as_str());
                push_str(&mut r, ")");
                proof {
                    if straight(ev, old(self).depth(), old(self).functions()) is Some {
                        assert(r@ =~= code_of(straight(ev, old(self).depth(), old(self).functions())));
                    }
                }
                r
            },
            IRExpr::If { cond, then_branch, else_branch, .. } => {
                assert(decreases_to!(ev => ev->If_0));
                assert(decreases_to!(ev => ev->If_1));
                assert(decreases_to!(ev => ev->If_2));
                let result_var = self.fresh_temp();
                let mut decl = text("local ");
                push_str(&mut decl, result_var.as_str());
                self.emit(decl.as_str());
                let ghost o1 = self.out();
                let cond_code = self.emit_expr(cond);
                let mut test = text("if [[ ");
                push_str(&mut test, cond_code.as_str());
                push_str(&mut test, " == \"true\" ]]; then");
                let ghost o2 = self.out();
                self.emit(test.as_str());
                self.indent += 1;
                let ghost o3 = self.out();
                let then_code = self.emit_expr(then_branch);
                let mut set1 = result_var.clone();
                push_str(&mut set1, "=");
                push_str(&mut set1, then_code.as_str());
                let ghost o4 = self.out();
                self.emit(set1.as_str());
                self.indent -= 1;
                let ghost o5 = self.out();
                self.emit("else");
                self.indent += 1;
                let ghost o6 = self.out();
                let else_code = self.emit_expr(else_branch);
                let mut set2 = result_var.clone();
                push_str(&mut set2, "=");
                push_str(&mut set2, else_code.as_str());
                let ghost o7 = self.out();
                self.emit(set2.as_str());
                self.indent -= 1;
                let ghost o8 = self.out();
                self.emit("fi");
                proof {
                    lemma_prefix_trans(o0, o1, o2);
                    lemma_prefix_trans(o0, o2, o3);
                    lemma_prefix_trans(o0, o3, o4);
                    lemma_prefix_trans(o0, o4, o5);
                    lemma_prefix_trans(o0, o5, o6);
                    lemma_prefix_trans(o0, o6, o7);
                    lemma_prefix_trans(o0, o7, o8);
                    lemma_prefix_trans(o0, o8, self.out());
                    reveal(if_text);
                    if if_text(ev, old(self).depth(), old(self).functions(), old(self).temps()) is Some {
                        let d = old(self).depth();
                        let fs = old(self).functions();
let v = "__t"@ + decimal(old(self).temps());
                        let sc = straight(*ev->If_0, d, fs);
                        let st = straight(*ev->If_1, d + 1, fs);
                        let se = straight(*ev->If_2, d + 1, fs);
                        let i0 = indent_text(d);
                        let i1 = indent_text(d + 1);
                        let nl = "\n"@;
                        lemma_line(o0, i0, decl@, nl);
                        lemma_line(o2, i0, test@, nl);
                        lemma_line(o4, i1, set1@, nl);
                        lemma_line(o5, i0, "else"@, nl);
                        lemma_line(o7, i1, set2@, nl);
                        lemma_line(o8, i0, "fi"@, nl);
                        lemma_appended(o0, o1, o2, o3, o4, o5, o6, o7, o8, self.out(),
                            i0 + decl@ + nl, out_of(sc), i0 + test@ + nl, out_of(st), i1 + set1@ + nl,
                            i0 + "else"@ + nl, out_of(se), i1 + set2@ + nl, i0 + "fi"@ + nl);
                        lemma_if_text(ev, d, fs, old(self).temps(), decl@, test@, set1@, set2@);
                    }
                }
                var_ref(result_var.as_str())
            },
            IRExpr::Match { scrutinee, arms, .. } => {
                assert(decreases_to!(ev => ev->Match_0));
                assert(decreases_to!(ev => ev->Match_1));
                proof { lemma_aview_seq(arms@); }
                let result_var = self.fresh_temp();
                let mut decl = text("local ");
                push_str(&mut decl, result_var.as_str());
                self.emit(decl.as_str());
                let ghost o1 = self.out();
                let scrutinee_code = self.emit_expr(scrutinee);
                let scrutinee_var = self.fresh_temp();
                let mut bind = text("local ");
                push_str(&mut bind, scrutinee_var.as_str());
                push_str(&mut bind, "=");
                push_str(&mut bind, scrutinee_code.as_str());
                let ghost o2 = self.out();
                self.emit(bind.as_str());
                let ghost o3 = self.out();
                // Emit pattern matching as case statement for ADTs or if-else chain
                self.emit_match(result_var.as_str(), scrutinee_var.as_str(), arms);
                proof {
                    lemma_prefix_trans(o0, o1, o2);
                    lemma_prefix_trans(o0, o2, o3);
                    lemma_prefix_trans(o0, o3, self.out());
                }
                var_ref(result_var.as_str())
            },
            IRExpr::Prim { op, args, .. } => {
                assert(decreases_to!(ev => ev->Prim_1));
                proof { lemma_eview_seq(args@); }
                let arg_codes = self.emit_exprs(args);
                self.emit_primitive(op, &arg_codes)
            },
            IRExpr::Tuple { elems, .. } => {
                assert(decreases_to!(ev => ev->Tuple_0));
                proof { lemma_eview_seq(elems@); }
                let elem_codes = self.emit_exprs(elems);
                let mut r = text("$(jq -nc '[");
                push_str(&mut r, tuple_args(&elem_codes).as_str());
                push_str(&mut r, "]')");
                proof {
                    if straight(ev, old(self).depth(), old(self).functions()) is Some {
                        assert(r@ =~= code_of(straight(ev, old(self).depth(), old(self).functions())));
                    }
                }
                r
            },
            IRExpr::TupleProj { tuple, index, .. } => {
                assert(decreases_to!(ev => ev->TupleProj_0));
                let tuple_code = self.emit_expr(tuple);
                let mut r = text("$(__neap_tuple_proj ");
                push_str(&mut r, tuple_code.as_str());
                push_str(&mut r, " ");
                push_usize(&mut r, *index);
                push_str(&mut r, ")");
                proof {
                    if straight(ev, old(self).depth(), old(self).functions()) is Some {
                        assert(r@ =~= code_of(straight(ev, old(self).depth(), old(self).functions())));
                    }
                }
                r
            },
            IRExpr::Record { fields, .. } => {
                assert(decreases_to!(ev => ev->Record_0));
                // Build a JSON object
                if fields.len() == 0 {
                    proof { lemma_prefix_append(o0, Seq::empty()); assert(o0 + Seq::<char>::empty() =~= o0); }
                    proof { reveal_strlit("'{}'"); }
                    text("'{}'")
                } else {
                    proof { lemma_fview_seq(fields@); }
                    let (names, codes) = self.emit_field_values(fields);
                    let r = record_code(&names, &codes);
                    proof {
                        if straight(ev, old(self).depth(), old(self).functions()) is Some {
                            assert(fview_seq(fields@) == ev->Record_0);
                            assert(r@ == code_of(straight(ev, old(self).depth(), old(self).functions())));
                        }
                    }
                    r
                }
            },
            IRExpr::Field { record, field, .. } => {
                assert(decreases_to!(ev => ev->Field_0));
                let record_code = self.emit_expr(record);
                let mut r = text("$(__neap_field ");
                push_str(&mut r, record_code.as_str());
                push_str(&mut r, " \"");
                push_str(&mut r, field.as_str());
                push_str(&mut r, "\")");
                proof {
                    if straight(ev, old(self).depth(), old(self).functions()) is Some {
                        assert(r@ =~= code_of(straight(ev, old(self).depth(), old(self).functions())));
                    }
                }
                r
            },
            IRExpr::Construct { ctor, arg, .. } => {
                match arg {
                    Some(payload) => {
                        assert(decreases_to!(ev => ev->Construct_1));
                        assert(decreases_to!(ev->Construct_1 => (ev->Construct_1)->0));
                        let payload_code = self.emit_expr(payload);
                        let mut r = text("$(__neap_construct1 \"");
                        push_str(&mut r, ctor.as_str());
                        push_str(&mut r, "\" ");
                        push_str(&mut r, payload_code.as_str());
                        push_str(&mut r, ")");
                        proof {
                            if straight(ev, old(self).depth(), old(self).functions()) is Some {
                                assert(r@ =~= code_of(straight(ev, old(self).depth(), old(self).functions())));
                            }
                        }
                        r
                    },
                    None => {
                        proof { lemma_prefix_append(o0, Seq::empty()); assert(o0 + Seq::<char>::empty() =~= o0); }
                        let mut r = text("$(__neap_construct0 \"");
                        push_str(&mut r, ctor.as_str());
                        push_str(&mut r, "\")");
                        proof {
                            assert(r@ =~= code_of(straight(ev, old(self).depth(), old(self).functions())));
                            assert(self.out() =~= o0 + Seq::<char>::empty());
                        }
                        r
                    },
                }
            },
            IRExpr::Command { parts, stdin, .. } => {
                assert(decreases_to!(ev => ev->Command_0));
                proof { lemma_cview_seq(parts@); }
                let cmd_str = self.emit_command_parts(parts);
                match stdin {
                    Some(stdin_expr) => {
                        assert(decreases_to!(ev => ev->Command_1));
                        assert(decreases_to!(ev->Command_1 => (ev->Command_1)->0));
                        let ghost o1 = self.out();
                        let stdin_code = self.emit_expr(stdin_expr);
                        proof { lemma_prefix_trans(o0, o1, self.out()); }
                        // Pipe stdin to command
                        let mut r = text("$(__neap_run_cmd \"echo ");
                        push_str(&mut r, stdin_code.as_str());
                        push_str(&mut r, " | ");
                        push_str(&mut r, cmd_str.as_str());
                        push_str(&mut r, "\")");
                        proof {
                            if straight(ev, old(self).depth(), old(self).functions()) is Some {
                                assert(r@ =~= code_of(straight(ev, old(self).depth(), old(self).functions())));
                            }
                        }
                        r
                    },
                    None => {
                        let mut r = text("$(__neap_run_cmd \"");
                        push_str(&mut r, cmd_str.as_str());
                        push_str(&mut r, "\")");
                        proof {
                            if straight(ev, old(self).depth(), old(self).functions()) is Some {
                                assert(r@ =~= code_of(straight(ev, old(self).depth(), old(self).functions())));
                                assert(self.out() =~= o0 + Seq::<char>::empty());
                            }
                        }
                        r
                    },
                }
            },
        }
    }
}

/// How many arguments the runtime call of a primitive passes.
pub(crate) fn call_arity_of(op: Primitive) -> (n: usize)
    ensures
        n == call_arity(op),
{
    match op {
        Primitive::ReadLine => 0,
        _ => op.arity(),
    }
}

fn runtime_fn_name(op: Primitive) -> (s: &'static str)
    ensures
        s@ == runtime_fn(op),
{
    match op {
        Primitive::AddInt => "__neap_add_int",
        Primitive::SubInt => "__neap_sub_int",
        Primitive::MulInt => "__neap_mul_int",
        Primitive::DivInt => "__neap_div_int",
        Primitive::ModInt => "__neap_mod_int",
        Primitive::NegInt => "__neap_neg_int",
        Primitive::AddFloat => "__neap_add_float",
        Primitive::SubFloat => "__neap_sub_float",
        Primitive::MulFloat => "__neap_mul_float",
        Primitive::DivFloat => "__neap_div_float",
        Primitive::NegFloat => "__neap_neg_float",
        Primitive::EqInt => "__neap_eq_int",
        Primitive::NeqInt => "__neap_neq_int",
        Primitive::LtInt => "__neap_lt_int",
        Primitive::LeInt => "__neap_le_int",
        Primitive::GtInt => "__neap_gt_int",
        Primitive::GeInt => "__neap_ge_int",
        Primitive::EqFloat => "__neap_eq_float",
        Primitive::NeqFloat => "__neap_neq_float",
        Primitive::LtFloat => "__neap_lt_float",
        Primitive::LeFloat => "__neap_le_float",
        Primitive::GtFloat => "__neap_gt_float",
        Primitive::GeFloat => "__neap_ge_float",
        Primitive::EqString => "__neap_eq_string",
        Primitive::NeqString => "__neap_neq_string",
        Primitive::LtString => "__neap_lt_string",
        Primitive::LeString => "__neap_le_string",
        Primitive::GtString => "__neap_gt_string",
        Primitive::GeString => "__neap_ge_string",
        Primitive::EqBool => "__neap_eq_bool",
        Primitive::NeqBool => "__neap_neq_bool",
        Primitive::EqChar => "__neap_eq_char",
        Primitive::NeqChar => "__neap_neq_char",
        Primitive::LtChar => "__neap_lt_char",
        Primitive::LeChar => "__neap_le_char",
        Primitive::GtChar => "__neap_gt_char",
        Primitive::GeChar => "__neap_ge_char",
        Primitive::Not => "__neap_not",
        Primitive::And => "__neap_and",
        Primitive::Or => "__neap_or",
        Primitive::Concat => "__neap_concat",
        Primitive::StringLength => "__neap_string_length",
        Primitive::CharAt => "__neap_char_at",
        Primitive::IntToFloat => "__neap_int_to_float",
        Primitive::FloatToInt => "__neap_float_to_int",
        Primitive::IntToString => "__neap_int_to_string",
        Primitive::FloatToString => "__neap_float_to_string",
        Primitive::CharToString => "__neap_char_to_string",
        Primitive::CharToInt => "__neap_char_to_int",
        Primitive::IntToChar => "__neap_int_to_char",
        Primitive::BoolToString => "__neap_bool_to_string",
        Primitive::StringIdentity => "__neap_string_identity",
        Primitive::Cons => "__neap_cons",
        Primitive::Append => "__neap_append",
        Primitive::ListLength => "__neap_list_length",
        Primitive::PrintNoNewline => "__neap_print_no_newline",
        Primitive::ReadFile => "__neap_read_file",
        Primitive::WriteFile => "__neap_write_file",
        Primitive::GetEnv => "__neap_get_env",
        Primitive::Assert => "__neap_assert",
        Primitive::Panic => "__neap_panic",
        Primitive::Print => "__neap_print",
        Primitive::Substring => "__neap_substring",
        Primitive::ReadLine => "__neap_read_line",
    }
}

impl ZshCodegen {
    /// Emit a literal value.
    pub fn emit_literal(&self, lit: &IRLiteral) -> (code: String)
        ensures
            code@ == literal_code(lit@),
    {
        match lit {
            IRLiteral::Int(n) => {
                let mut r = String::new();
                push_i64(&mut r, *n);
                assert(r@ =~= int_text(*n));
                r
            },
            IRLiteral::Float(f) => f.clone(),
            IRLiteral::String(s) => {
                let mut r = text("$(jq -n --arg s ");
                push_str(&mut r, shell_escape(s.as_str()).as_str());
                push_str(&mut r, " '$s')");
                r
            },
            IRLiteral::Char(c) => {
                let mut r = text("\"");
                push_char(&mut r, *c);
                push_str(&mut r, "\"");
                assert(r@ =~= "\""@ + seq![*c] + "\""@);
                r
            },
            IRLiteral::Bool(b) => if *b { text("true") } else { text("false") },
        }
    }

    /// Emit a primitive operation.
    fn emit_primitive(&self, prim: &Primitive, args: &Vec<String>) -> (code: String)
        requires
            args@.len() >= call_arity(*prim),
        ensures
            code@ == prim_code(*prim, args@.map_values(|a: String| a@)),
    {
        let ghost vs = args@.map_values(|a: String| a@);
        let n = call_arity_of(*prim);
        let mut r = text("$(");
        push_str(&mut r, runtime_fn_name(*prim));
        let mut i: usize = 0;
        while i < n
            invariant
                i <= n,
                n == call_arity(*prim),
                n <= args@.len(),
                vs == args@.map_values(|a: String| a@),
                r@ == "$("@ + runtime_fn(*prim) + spaced(vs, i as nat),
            decreases n - i,
        {
            push_str(&mut r, " ");
            push_str(&mut r, args[i].as_str());
            i += 1;
            assert(r@ =~= "$("@ + runtime_fn(*prim) + spaced(vs, i as nat));
        }
        push_str(&mut r, ")");
        r
    }

    /// Emit a condition for pattern matching.
    fn emit_pattern_condition(&self, scrutinee: &str, pattern: &IRPattern) -> (code: String)
        ensures
            code@ == condition_code(scrutinee@, pattern@),
            pattern@ matches PatV::Lit(l) ==> code@ == "[[ "@ + scrutinee@ + " == "@ + literal_code(l) + " ]]"@,
            pattern@ matches PatV::Con(c, _) ==> code@ == "[[ $(__neap_tag "@ + scrutinee@ + ") == \""@ + c + "\" ]]"@,
    {
        match pattern {
            IRPattern::Lit(lit) => {
                let lit_code = self.emit_literal(lit);
                let mut r = text("[[ ");
                push_str(&mut r, scrutinee);
                push_str(&mut r, " == ");
                push_str(&mut r, lit_code.as_str());
                push_str(&mut r, " ]]");
                r
            },
            IRPattern::Con { ctor, .. } => {
                let mut r = text("[[ $(__neap_tag ");
                push_str(&mut r, scrutinee);
                push_str(&mut r, ") == \"");
                push_str(&mut r, ctor.as_str());
                push_str(&mut r, "\" ]]");
                r
            },
            // Tuples and records always match in structure (the type system guarantees it)
            IRPattern::Wildcard | IRPattern::Var(_, _) | IRPattern::Tuple(_) | IRPattern::Record(_) => text("true"),
        }
    }

    /// Emit pattern bindings (extracting matched values).
    fn emit_pattern_bindings(&mut self, scrutinee: &str, pattern: &IRPattern)
        ensures
            extends(*old(self), *final(self)),
            final(self).temps() == old(self).temps(),
            match pattern@ {
                PatV::Var(id, _) => final(self).out() == old(self).out() + indent_text(old(self).depth())
                    + "local "@ + var_text(id) + "="@ + scrutinee@ + "\n"@,
                PatV::Wildcard | PatV::Lit(_) => final(self).out() == old(self).out(),
                _ => true,
            },
        decreases pattern@,
    {
        let ghost o0 = self.out();
        match pattern {
            IRPattern::Var(id, _) => {
                let mut line = text("local ");
                push_str(&mut line, var_name(*id).as_str());
                push_str(&mut line, "=");
                push_str(&mut line, scrutinee);
                self.emit(line.as_str());
                proof {
                    assert(self.out() =~= old(self).out() + indent_text(old(self).depth())
                        + "local "@ + var_text(*id) + "="@ + scrutinee@ + "\n"@);
                }
            },
            IRPattern::Tuple(pats) => {
                assert(decreases_to!(pattern@ => pattern@->Tuple_0));
                proof { crate::ir::tree::lemma_pview_seq(pats@); }
                let mut i: usize = 0;
                while i < pats.len()
                    invariant
                        i <= pats@.len(),
                        self.depth() == old(self).depth(),
                        self.temps() == old(self).temps(),
                        self.functions() == old(self).functions(),
                        o0 == old(self).out(),
                        o0.is_prefix_of(self.out()),
                        decreases_to!(pattern@ => pattern@->Tuple_0),
                        pattern@->Tuple_0 == crate::ir::tree::pview_seq(pats@),
                        crate::ir::tree::pview_seq(pats@).len() == pats@.len(),
                        forall|j: int| 0 <= j < pats@.len() ==> #[trigger] crate::ir::tree::pview_seq(pats@)[j] == pats@[j]@,
                    decreases pats.len() - i,
                {
                    assert(decreases_to!(pattern@->Tuple_0 => (pattern@->Tuple_0)[i as int]));
                    let mut elem = text("$(__neap_tuple_proj ");
                    push_str(&mut elem, scrutinee);
                    push_str(&mut elem, " ");
                    push_usize(&mut elem, i);
                    push_str(&mut elem, ")");
                    let ghost o1 = self.out();
                    self.emit_pattern_bindings(elem.as_str(), &pats[i]);
                    proof { lemma_prefix_trans(o0, o1, self.out()); }
                    i += 1;
                }
            },
            IRPattern::Record(fields) => {
                assert(decreases_to!(pattern@ => pattern@->Record_0));
                proof { crate::ir::tree::lemma_pview_fields(fields@); }
                let mut i: usize = 0;
                while i < fields.len()
                    invariant
                        i <= fields@.len(),
                        self.depth() == old(self).depth(),
                        self.temps() == old(self).temps(),
                        self.functions() == old(self).functions(),
                        o0 == old(self).out(),
                        o0.is_prefix_of(self.out()),
                        decreases_to!(pattern@ => pattern@->Record_0),
                        pattern@->Record_0 == crate::ir::tree::pview_fields(fields@),
                        crate::ir::tree::pview_fields(fields@).len() == fields@.len(),
                        forall|j: int| 0 <= j < fields@.len() ==> #[trigger] crate::ir::tree::pview_fields(fields@)[j] == (fields@[j].0@, fields@[j].1@),
                    decreases fields.len() - i,
                {
                    assert(decreases_to!(pattern@->Record_0 => (pattern@->Record_0)[i as int]));
                    assert(decreases_to!((pattern@->Record_0)[i as int] => (pattern@->Record_0)[i as int].1));
                    let mut field = text("$(__neap_field ");
                    push_str(&mut field, scrutinee);
                    push_str(&mut field, " \"");
                    push_str(&mut field, fields[i].0.as_str());
                    push_str(&mut field, "\")");
                    let ghost o1 = self.out();
                    self.emit_pattern_bindings(field.as_str(), &fields[i].1);
                    proof { lemma_prefix_trans(o0, o1, self.out()); }
                    i += 1;
                }
            },
            IRPattern::Con { arg, .. } => {
                match arg {
                    Some(a) => {
                        assert(decreases_to!(pattern@ => pattern@->Con_1));
                        assert(decreases_to!(pattern@->Con_1 => (pattern@->Con_1)->0));
                        let mut payload = text("$(__neap_get ");
                        push_str(&mut payload, scrutinee);
                        push_str(&mut payload, " '._0')");
                        self.emit_pattern_bindings(payload.as_str(), a);
                    },
                    None => {
                        proof { lemma_prefix_append(o0, Seq::empty()); assert(o0 + Seq::<char>::empty() =~= o0); }
                    },
                }
            },
            IRPattern::Wildcard | IRPattern::Lit(_) => {
                // No bindings to emit
                proof { lemma_prefix_append(o0, Seq::empty()); assert(o0 + Seq::<char>::empty() =~= o0); }
                assert(self.out() == old(self).out());
            },
        }
    }

    /// Emit a sequence of expressions, in order, and return their codes.
    fn emit_exprs(&mut self, es: &Vec<IRExpr>) -> (codes: Vec<String>)
        requires
            old(self).depth() + 2 * size_seq(eview_seq(es@)) <= usize::MAX,
            old(self).temps() + 2 * size_seq(eview_seq(es@)) <= usize::MAX,
            forall|i: int| 0 <= i < es@.len() ==> prims_ok(#[trigger] eview_seq(es@)[i]),
        ensures
            extends(*old(self), *final(self)),
            final(self).temps() <= old(self).temps() + 2 * size_seq(eview_seq(es@)),
            codes@.len() == es@.len(),
            straight_seq(eview_seq(es@), old(self).depth(), old(self).functions()) is Some ==> (final(self).out() == old(self).out() + seq_out(straight_seq(eview_seq(es@), old(self).depth(), old(self).functions()))
                && codes@.map_values(|c: String| c@) == seq_codes(straight_seq(eview_seq(es@), old(self).depth(), old(self).functions()))),
        decreases eview_seq(es@),
    {
        proof { lemma_eview_seq(es@); }
        let ghost s = eview_seq(es@);
        let ghost o0 = self.out();
        let ghost t0 = self.temps();
        let mut codes: Vec<String> = Vec::new();
        let mut i: usize = 0;
        assert(size_seq(s.take(0)) == 0);
        proof { lemma_prefix_append(o0, Seq::empty()); assert(o0 + Seq::<char>::empty() =~= o0); }
        while i < es.len()
            invariant
                i <= es@.len(),
                s == eview_seq(es@),
                s.len() == es@.len(),
                forall|j: int| 0 <= j < s.len() ==> #[trigger] s[j] == eview(es@[j]),
                forall|j: int| 0 <= j < s.len() ==> prims_ok(#[trigger] s[j]),
                codes@.len() == i,
                self.depth() == old(self).depth(),
                self.functions() == old(self).functions(),
                o0 == old(self).out(),
                o0.is_prefix_of(self.out()),
                t0 == old(self).temps(),
                t0 <= self.temps() <= t0 + 2 * size_seq(s.take(i as int)),
                old(self).depth() + 2 * size_seq(s) <= usize::MAX,
                t0 + 2 * size_seq(s) <= usize::MAX,
                straight_seq(s, old(self).depth(), old(self).functions()) is Some ==> (straight_seq(s.take(i as int), old(self).depth(), old(self).functions()) is Some
                    && self.out() == o0 + seq_out(straight_seq(s.take(i as int), old(self).depth(), old(self).functions()))
                    && codes@.map_values(|c: String| c@) == seq_codes(straight_seq(s.take(i as int), old(self).depth(), old(self).functions()))),
            decreases es.len() - i,
        {
            proof {
                lemma_size_seq_prefix(s, i as int);
                assert(decreases_to!(s => s[i as int]));
                lemma_straight_seq_prefix(s, i + 1, old(self).depth(), old(self).functions());
                assert(s.take(i + 1).drop_last() =~= s.take(i as int));
                assert(s.take(i + 1).last() == s[i as int]);
            }
            let ghost o1 = self.out();
            let ghost c0 = codes@.map_values(|c: String| c@);
            let code = self.emit_expr(&es[i]);
            proof { lemma_prefix_trans(o0, o1, self.out()); }
            codes.push(code);
            proof {
                if straight_seq(s, old(self).depth(), old(self).functions()) is Some {
                    assert(codes@.map_values(|c: String| c@) =~= c0.push(codes@[i as int]@));
                    assert(self.out() =~= o0 + seq_out(straight_seq(s.take(i + 1), old(self).depth(), old(self).functions())));
                }
            }
            i += 1;
        }
        assert(s.take(i as int) =~= s);
        codes
    }

    /// Emit the values of record fields, in order, and return the names and the codes.
    fn emit_field_values(&mut self, fields: &Vec<(String, IRExpr)>) -> (r: (Vec<String>, Vec<String>))
        requires
            old(self).depth() + 2 * size_fields(fview_seq(fields@)) <= usize::MAX,
            old(self).temps() + 2 * size_fields(fview_seq(fields@)) <= usize::MAX,
            forall|i: int| 0 <= i < fields@.len() ==> prims_ok(#[trigger] fview_seq(fields@)[i].1),
        ensures
            extends(*old(self), *final(self)),
            final(self).temps() <= old(self).temps() + 2 * size_fields(fview_seq(fields@)),
            r.0@.len() == fields@.len(),
            r.1@.len() == fields@.len(),
            r.0@.map_values(|n: String| n@) == fview_seq(fields@).map_values(|f: (Seq<char>, IrV)| f.0),
            straight_fields(fview_seq(fields@), old(self).depth(), old(self).functions()) is Some ==> (final(self).out() == old(self).out() + seq_out(straight_fields(fview_seq(fields@), old(self).depth(), old(self).functions()))
                && r.1@.map_values(|c: String| c@) == seq_codes(straight_fields(fview_seq(fields@), old(self).depth(), old(self).functions()))),
        decreases fview_seq(fields@),
    {
        proof { lemma_fview_seq(fields@); }
        let ghost s = fview_seq(fields@);
        let ghost o0 = self.out();
        let ghost t0 = self.temps();
        let mut names: Vec<String> = Vec::new();
        let mut codes: Vec<String> = Vec::new();
        let mut i: usize = 0;
        assert(size_fields(s.take(0)) == 0);
        assert(s.take(0).map_values(|f: (Seq<char>, IrV)| f.0) =~= names@.map_values(|n: String| n@));
        proof { lemma_prefix_append(o0, Seq::empty()); assert(o0 + Seq::<char>::empty() =~= o0); }
        while i < fields.len()
            invariant
                i <= fields@.len(),
                s == fview_seq(fields@),
                s.len() == fields@.len(),
                forall|j: int| 0 <= j < s.len() ==> #[trigger] s[j] == (fields@[j].0@, eview(fields@[j].1)),
                forall|j: int| 0 <= j < s.len() ==> prims_ok(#[trigger] s[j].1),
                names@.len() == i,
                codes@.len() == i,
                self.depth() == old(self).depth(),
                self.functions() == old(self).functions(),
                o0 == old(self).out(),
                o0.is_prefix_of(self.out()),
                t0 == old(self).temps(),
                t0 <= self.temps() <= t0 + 2 * size_fields(s.take(i as int)),
                old(self).depth() + 2 * size_fields(s) <= usize::MAX,
                t0 + 2 * size_fields(s) <= usize::MAX,
                names@.map_values(|n: String| n@) == s.take(i as int).map_values(|f: (Seq<char>, IrV)| f.0),
                straight_fields(s, old(self).depth(), old(self).functions()) is Some ==> (straight_fields(s.take(i as int), old(self).depth(), old(self).functions()) is Some
                    && self.out() == o0 + seq_out(straight_fields(s.take(i as int), old(self).depth(), old(self).functions()))
                    && codes@.map_values(|c: String| c@) == seq_codes(straight_fields(s.take(i as int), old(self).depth(), old(self).functions()))),
            decreases fields.len() - i,
        {
            proof {
                lemma_size_fields_prefix(s, i as int);
                assert(decreases_to!(s => s[i as int]));
                assert(decreases_to!(s[i as int] => s[i as int].1));
                lemma_straight_fields_prefix(s, i + 1, old(self).depth(), old(self).functions());
                assert(s.take(i + 1).drop_last() =~= s.take(i as int));
                assert(s.take(i + 1).last() == s[i as int]);
            }
            let ghost o1 = self.out();
            let ghost c0 = codes@.map_values(|c: String| c@);
            let ghost n0 = names@.map_values(|n: String| n@);
            let code = self.emit_expr(&fields[i].1);
            proof { lemma_prefix_trans(o0, o1, self.out()); }
            names.push(text(fields[i].0.as_str()));
            codes.push(code);
            proof {
                assert(names@.map_values(|n: String| n@) =~= n0.push(s[i as int].0));
                assert(s.take(i + 1).map_values(|f: (Seq<char>, IrV)| f.0) =~= s.take(i as int).map_values(|f: (Seq<char>, IrV)| f.0).push(s[i as int].0));
                if straight_fields(s, old(self).depth(), old(self).functions()) is Some {
                    assert(codes@.map_values(|c: String| c@) =~= c0.push(codes@[i as int]@));
                    assert(self.out() =~= o0 + seq_out(straight_fields(s.take(i + 1), old(self).depth(), old(self).functions())));
                }
            }
            i += 1;
        }
        assert(s.take(i as int) =~= s);
        (names, codes)
    }

    /// Emit command parts as a shell command string.
    fn emit_command_parts(&mut self, parts: &Vec<IRCommandPart>) -> (cmd: String)
        requires
            old(self).depth() + 2 * size_parts(cview_seq(parts@)) <= usize::MAX,
            old(self).temps() + 2 * size_parts(cview_seq(parts@)) <= usize::MAX,
            forall|i: int| 0 <= i < parts@.len() ==> match #[trigger] cview_seq(parts@)[i] {
                PartV::Interpolation(x) => prims_ok(*x),
                PartV::Literal(_) => true,
            },
        ensures
            extends(*old(self), *final(self)),
            final(self).temps() <= old(self).temps() + 2 * size_parts(cview_seq(parts@)),
            parts_code(cview_seq(parts@)) matches Some(c) ==> (cmd@ == c && final(self).out() == old(self).out()),
        decreases cview_seq(parts@),
    {
        proof { lemma_cview_seq(parts@); }
        let ghost s = cview_seq(parts@);
        let ghost o0 = self.out();
        let ghost t0 = self.temps();
        let mut result = String::new();
        let mut i: usize = 0;
        assert(size_parts(s.take(0)) == 0);
        proof { lemma_prefix_append(o0, Seq::empty()); assert(o0 + Seq::<char>::empty() =~= o0); }
        while i < parts.len()
            invariant
                i <= parts@.len(),
                s == cview_seq(parts@),
                s.len() == parts@.len(),
                forall|j: int| 0 <= j < s.len() ==> #[trigger] s[j] == cview(parts@[j]),
                forall|j: int| 0 <= j < s.len() ==> match #[trigger] s[j] {
                    PartV::Interpolation(x) => prims_ok(*x),
                    PartV::Literal(_) => true,
                },
                self.depth() == old(self).depth(),
                self.functions() == old(self).functions(),
                o0 == old(self).out(),
                o0.is_prefix_of(self.out()),
                t0 == old(self).temps(),
                t0 <= self.temps() <= t0 + 2 * size_parts(s.take(i as int)),
                old(self).depth() + 2 * size_parts(s) <= usize::MAX,
                t0 + 2 * size_parts(s) <= usize::MAX,
                i <= parts@.len(),
                parts_code(s.take(i as int)) matches Some(c) ==> (result@ == c && self.out() == o0),
            decreases parts.len() - i,
        {
            proof {
                lemma_size_parts_prefix(s, i as int);
                assert(s.take(i + 1).drop_last() =~= s.take(i as int));
                assert(s.take(i + 1).last() == s[i as int]);
            }
            let ghost r0 = result@;
            let ghost out0 = self.out();
            match &parts[i] {
                IRCommandPart::Literal(text_part) => push_str(&mut result, text_part.as_str()),
                IRCommandPart::Interpolation(expr) => {
                    assert(decreases_to!(s => s[i as int]));
                    assert(decreases_to!(s[i as int] => s[i as int]->Interpolation_0));
                    let ghost o1 = self.out();
                    let expr_code = self.emit_expr(expr);
                    proof { lemma_prefix_trans(o0, o1, self.out()); }
                    // Unwrap JSON string if needed
                    push_str(&mut result, "$(");
                    push_str(&mut result, expr_code.as_str());
                    push_str(&mut result, " | jq -r '.')");
                    proof {
                        assert(result@ =~= r0 + ("$("@ + expr_code@ + " | jq -r '.')"@));
                    }
                },
            }
            i += 1;
        }
        assert(s.take(i as int) =~= s);
        result
    }

    /// Emit pattern matching.
    #[verifier::rlimit(60)]
    fn emit_match(&mut self, result_var: &str, scrutinee_var: &str, arms: &Vec<(IRPattern, IRExpr)>)
        requires
            old(self).depth() + 2 + 2 * size_arms(aview_seq(arms@)) <= usize::MAX,
            old(self).temps() + 2 * size_arms(aview_seq(arms@)) <= usize::MAX,
            forall|i: int| 0 <= i < arms@.len() ==> prims_ok(#[trigger] aview_seq(arms@)[i].1),
        ensures
            extends(*old(self), *final(self)),
            final(self).temps() <= old(self).temps() + 2 * size_arms(aview_seq(arms@)),
            all_con_arms(aview_seq(arms@)) ==> {
                &&& (old(self).out() + case_head(old(self).depth(), scrutinee_var@)).is_prefix_of(final(self).out())
                &&& ends_with(final(self).out(), indent_text(old(self).depth()) + "esac\n"@)
            },
            !all_con_arms(aview_seq(arms@)) ==> {
                &&& (old(self).out() + indent_text(old(self).depth()) + "if "@
                    + condition_code(var_ref_text(scrutinee_var@), aview_seq(arms@)[0].0) + "; then\n"@).is_prefix_of(final(self).out())
                &&& ends_with(final(self).out(), indent_text(old(self).depth()) + "fi\n"@)
            },
            arms@.len() == 0 ==> final(self).out() == old(self).out() + case_head(old(self).depth(), scrutinee_var@)
                + indent_text(old(self).depth()) + "esac\n"@,
            (all_con_arms(aview_seq(arms@)) && adt_arms_text(aview_seq(arms@), old(self).depth(), old(self).functions(), result_var@, scrutinee_var@) is Some) ==> final(self).out() == old(self).out()
                + (case_head(old(self).depth(), scrutinee_var@) + adt_arms_text(aview_seq(arms@), old(self).depth(), old(self).functions(), result_var@, scrutinee_var@)->0
                    + ((indent_text(old(self).depth()) + "esac"@) + "\n"@)),
        decreases aview_seq(arms@),
    {
        proof { lemma_aview_seq(arms@); }
        let ghost s = aview_seq(arms@);
        let ghost o0 = self.out();
        let ghost t0 = self.temps();
        let ghost d0 = self.depth();
        // Check if this is an ADT match (all patterns are Con) or other
        let mut is_adt_match = true;
        let mut k: usize = 0;
        while k < arms.len()
            invariant
                k <= arms@.len(),
                s == aview_seq(arms@),
                s.len() == arms@.len(),
                forall|j: int| 0 <= j < s.len() ==> #[trigger] s[j] == (arms@[j].0@, eview(arms@[j].1)),
                is_adt_match == (forall|j: int| 0 <= j < k ==> (#[trigger] s[j]).0 is Con),
            decreases arms.len() - k,
        {
            match &arms[k].0 {
                IRPattern::Con { .. } => {
                    proof { assert(s[k as int].0 is Con); }
                },
                _ => {
                    is_adt_match = false;
                    proof { assert(!(s[k as int].0 is Con)); }
                },
            }
            proof {
                if is_adt_match {
                    assert forall|j: int| 0 <= j < k + 1 implies (#[trigger] s[j]).0 is Con by {
                        if j < k { assert(s[j].0 is Con); }
                    }
                }
            }
            k += 1;
        }
        let sv = var_ref(scrutinee_var);
        assert(size_arms(s.take(0)) == 0);
        if is_adt_match {
            let mut head = text("case $(__neap_tag ");
            push_str(&mut head, sv.as_str());
            push_str(&mut head, ") in");
            self.emit(head.as_str());
            let ghost h = self.out();
            proof {
                reveal_strlit(") in");
                reveal_strlit("\n");
                reveal_strlit(") in\n");
                assert(h =~= o0 + case_head(d0, scrutinee_var@));
                assert(h.is_prefix_of(h));
            }
            self.indent += 1;
            let mut i: usize = 0;
            while i < arms.len()
                invariant
                    i <= arms@.len(),
                    s == aview_seq(arms@),
                    s.len() == arms@.len(),
                    forall|j: int| 0 <= j < s.len() ==> #[trigger] s[j] == (arms@[j].0@, eview(arms@[j].1)),
                    forall|j: int| 0 <= j < s.len() ==> prims_ok(#[trigger] s[j].1),
                    self.depth() == d0 + 1,
                    d0 == old(self).depth(),
                    self.functions() == old(self).functions(),
                    o0 == old(self).out(),
                    o0.is_prefix_of(self.out()),
                    h.is_prefix_of(self.out()),
                    i == 0 ==> self.out() == h,
                    (forall|j: int| 0 <= j < s.len() ==> (#[trigger] s[j]).0 is Con) && adt_arms_text(s, d0, old(self).functions(), result_var@, scrutinee_var@) is Some
                        ==> (adt_arms_text(s.take(i as int), d0, old(self).functions(), result_var@, scrutinee_var@) is Some && self.out() == h + adt_arms_text(s.take(i as int), d0, old(self).functions(), result_var@, scrutinee_var@)->0),
                    sv@ == var_ref_text(scrutinee_var@),
                    t0 == old(self).temps(),
                    t0 <= self.temps() <= t0 + 2 * size_arms(s.take(i as int)),
                    d0 + 2 + 2 * size_arms(s) <= usize::MAX,
                    t0 + 2 * size_arms(s) <= usize::MAX,
                decreases arms.len() - i,
            {
                proof {
                    lemma_size_arms_prefix(s, i as int);
                    assert(decreases_to!(s => s[i as int]));
                    assert(decreases_to!(s[i as int] => s[i as int].1));
                    lemma_adt_arms_prefix(s, i + 1, d0, old(self).functions(), result_var@, scrutinee_var@);
                    assert(s.take(i + 1).drop_last() =~= s.take(i as int));
                    assert(s.take(i + 1).last() == s[i as int]);
                }
                let ghost o1 = self.out();
                match &arms[i].0 {
                    IRPattern::Con { ctor, arg } => {
                        let mut label = ctor.clone();
                        push_str(&mut label, ")");
                        self.emit(label.as_str());
                        let ghost oa = self.out();
                        self.indent += 1;
                        // Extract payload if present
                        match arg {
                            Some(arg_pattern) => {
                                let mut payload = text("$(__neap_get ");
                                push_str(&mut payload, sv.as_str());
                                push_str(&mut payload, " '._0')");
                                self.emit_pattern_bindings(payload.as_str(), arg_pattern);
                            },
                            None => {},
                        }
                        let ghost o2 = self.out();
                        let body_code = self.emit_expr(&arms[i].1);
                        let mut set = text(result_var);
                        push_str(&mut set, "=");
                        push_str(&mut set, body_code.as_str());
                        let ghost o3 = self.out();
                        self.emit(set.as_str());
                        let ghost o4 = self.out();
                        self.emit(";;");
                        self.indent -= 1;
                        proof {
                            lemma_prefix_trans(o1, o2, o3);
                            lemma_prefix_trans(o1, o3, o4);
                            lemma_prefix_trans(o1, o4, self.out());
                            if (forall|j: int| 0 <= j < s.len() ==> (#[trigger] s[j]).0 is Con) && adt_arms_text(s, d0, old(self).functions(), result_var@, scrutinee_var@) is Some {
                                let fs = old(self).functions();
                                let arm = s[i as int];
                                let b = arm_binding(arm.0->Con_1, d0 + 2, scrutinee_var@)->0;
                                let st = straight(arm.1, d0 + 2, fs);
                                let nl = "\n"@;
                                lemma_line(o1, indent_text(d0 + 1), label@, nl);
                                assert(o2 =~= oa + b);
                                lemma_line(o3, indent_text(d0 + 2), set@, nl);
                                lemma_line(o4, indent_text(d0 + 2), ";;"@, nl);
                                lemma_appended5(o1, oa, o2, o3, o4, self.out(),
                                    indent_text(d0 + 1) + label@ + nl, b, out_of(st),
                                    indent_text(d0 + 2) + set@ + nl, indent_text(d0 + 2) + ";;"@ + nl);
                                vstd::seq_lib::lemma_concat_associative(h, adt_arms_text(s.take(i as int), d0, old(self).functions(), result_var@, scrutinee_var@)->0,
                                    adt_arm_text(arm, d0, fs, result_var@, scrutinee_var@)->0);
                            }
                        }
                    },
                    _ => {
                        proof { lemma_prefix_append(o1, Seq::empty()); assert(o1 + Seq::<char>::empty() =~= o1); }
                    },
                }
                proof {
                    lemma_prefix_trans(o0, o1, self.out());
                    lemma_prefix_trans(h, o1, self.out());
                }
                i += 1;
            }
            self.indent -= 1;
            let ghost o5 = self.out();
            self.emit("esac");
            proof {
                lemma_prefix_trans(o0, o5, self.out());
                lemma_prefix_trans(h, o5, self.out());
                assert(s.take(i as int) =~= s);
                if all_con_arms(s) && adt_arms_text(s, d0, old(self).functions(), result_var@, scrutinee_var@) is Some {
                    lemma_line(o5, indent_text(d0), "esac"@, "\n"@);
                    vstd::seq_lib::lemma_concat_associative(o0, case_head(d0, scrutinee_var@), adt_arms_text(s, d0, old(self).functions(), result_var@, scrutinee_var@)->0);
                    vstd::seq_lib::lemma_concat_associative(o0, case_head(d0, scrutinee_var@) + adt_arms_text(s, d0, old(self).functions(), result_var@, scrutinee_var@)->0,
                        (indent_text(d0) + "esac"@) + "\n"@);
                }
                reveal_strlit("esac");
                reveal_strlit("\n");
                reveal_strlit("esac\n");
                let tail = indent_text(d0) + "esac\n"@;
                assert(self.out() =~= o5 + tail);
                assert(self.out().subrange(self.out().len() - tail.len(), self.out().len() as int) =~= tail);
            }
        } else {
            // General pattern matching with if-else chain
            let mut first = true;
            let mut i: usize = 0;
            let ghost fl = o0 + indent_text(d0) + "if "@ + condition_code(sv@, s[0].0) + "; then\n"@;
            proof { lemma_prefix_append(o0, Seq::empty()); assert(o0 + Seq::<char>::empty() =~= o0); }
            while i < arms.len()
                invariant
                    i <= arms@.len(),
                    s == aview_seq(arms@),
                    s.len() == arms@.len(),
                    forall|j: int| 0 <= j < s.len() ==> #[trigger] s[j] == (arms@[j].0@, eview(arms@[j].1)),
                    forall|j: int| 0 <= j < s.len() ==> prims_ok(#[trigger] s[j].1),
                    self.depth() == d0,
                    d0 == old(self).depth(),
                    self.functions() == old(self).functions(),
                    o0 == old(self).out(),
                    o0.is_prefix_of(self.out()),
                    first == (i == 0),
                    i == 0 ==> self.out() == o0,
                    i > 0 ==> fl.is_prefix_of(self.out()),
                    fl == o0 + indent_text(d0) + "if "@ + condition_code(sv@, s[0].0) + "; then\n"@,
                    t0 == old(self).temps(),
                    t0 <= self.temps() <= t0 + 2 * size_arms(s.take(i as int)),
                    d0 + 2 + 2 * size_arms(s) <= usize::MAX,
                    t0 + 2 * size_arms(s) <= usize::MAX,
                decreases arms.len() - i,
            {
                proof {
                    lemma_size_arms_prefix(s, i as int);
                    assert(decreases_to!(s => s[i as int]));
                    assert(decreases_to!(s[i as int] => s[i as int].1));
                }
                let ghost o1 = self.out();
                let cond = self.emit_pattern_condition(sv.as_str(), &arms[i].0);
                let mut line = if first { text("if ") } else { text("elif ") };
                push_str(&mut line, cond.as_str());
                push_str(&mut line, "; then");
                self.emit(line.as_str());
                proof {
                    if i == 0 {
                        reveal_strlit("; then");
                        reveal_strlit("\n");
                        reveal_strlit("; then\n");
                        assert(self.out() =~= fl);
                        assert(fl.is_prefix_of(self.out()));
                    }
                }
                first = false;
                self.indent += 1;
                let ghost o2 = self.out();
                self.emit_pattern_bindings(sv.as_str(), &arms[i].0);
                let ghost o3 = self.out();
                let body_code = self.emit_expr(&arms[i].1);
                let mut set = text(result_var);
                push_str(&mut set, "=");
                push_str(&mut set, body_code.as_str());
                let ghost o4 = self.out();
                self.emit(set.as_str());
                self.indent -= 1;
                proof {
                    lemma_prefix_trans(o0, o1, o2);
                    lemma_prefix_trans(o0, o2, o3);
                    lemma_prefix_trans(o0, o3, o4);
                    lemma_prefix_trans(o0, o4, self.out());
                    if i == 0 {
                        lemma_prefix_trans(fl, o2, o3);
                        lemma_prefix_trans(fl, o3, o4);
                        lemma_prefix_trans(fl, o4, self.out());
                    } else {
                        lemma_prefix_trans(o1, o2, o3);
                        lemma_prefix_trans(o1, o3, o4);
                        lemma_prefix_trans(o1, o4, self.out());
                        lemma_prefix_trans(fl, o1, self.out());
                    }
                }
                i += 1;
            }
            let ghost o5 = self.out();
            self.emit("fi");
            proof {
                lemma_prefix_trans(o0, o5, self.out());
                assert(s.take(i as int) =~= s);
                lemma_prefix_trans(fl, o5, self.out());
                reveal_strlit("fi");
                reveal_strlit("\n");
                reveal_strlit("fi\n");
                let tail = indent_text(d0) + "fi\n"@;
                assert(self.out() =~= o5 + tail);
                assert(self.out().subrange(self.out().len() - tail.len(), self.out().len() as int) =~= tail);
            }
        }
    }
}

} // verus!
