//! The primitive operations on integers, characters, booleans and strings, with the
//! optional characters that some of them give. Operations on floats and lists, the one
//! integer division that overflows, and input and output are left to the caller.

use vstd::prelude::*;
use crate::codegen::zsh::{int_text, push_i64};
use crate::ir::base::Primitive;
use crate::syntax::token::chars_of;
use crate::text::{decimal, push_char, push_decimal, push_str};
use super::error::RuntimeError;

verus! {

/// A runtime value as far as these operations need it; any other value is carried by the
/// name of its type.
#[derive(Debug)]
pub enum Scalar {
    Unit,
    Bool(bool),
    Int(i64),
    Char(char),
    Str(String),
    /// An optional character, as `Some(c)` or `None` (what `charAt` and `intToChar` give).
    MaybeChar(Option<char>),
    Other(String),
}

/// A scalar as a value.
pub enum ScalarV {
    Unit,
    Bool(bool),
    Int(i64),
    Char(char),
    Str(Seq<char>),
    /// An optional character, by its code point.
    MaybeChar(Option<u32>),
    Other(Seq<char>),
}

impl View for Scalar {
    type V = ScalarV;

    open spec fn view(&self) -> ScalarV {
        match self {
            Scalar::Unit => ScalarV::Unit,
            Scalar::Bool(b) => ScalarV::Bool(*b),
            Scalar::Int(n) => ScalarV::Int(*n),
            Scalar::Char(c) => ScalarV::Char(*c),
            Scalar::Str(s) => ScalarV::Str(s@),
            Scalar::MaybeChar(c) => ScalarV::MaybeChar(match c {
                Some(c) => Some(*c as u32),
                None => None,
            }),
            Scalar::Other(n) => ScalarV::Other(n@),
        }
    }
}

/// What a primitive operation gives: its value or error, or `Outside` for an operation
/// left to the caller.
#[derive(Debug)]
pub enum PrimOutcome {
    Done(Result<Scalar, RuntimeError>),
    Outside,
}

/// An outcome as a value: a value, a runtime type error (what was expected, what was
/// found), or an operation left to the caller.
pub enum OutcomeV {
    Value(ScalarV),
    TypeError(Seq<char>, Seq<char>),
    DivisionByZero,
    AssertionFailed(Seq<char>),
    UserError(Seq<char>),
    Outside,
}

/// The outcome that an exec outcome stands for (other errors do not arise here).
pub open spec fn outcome_view(o: PrimOutcome) -> Option<OutcomeV> {
    match o {
        PrimOutcome::Done(Ok(v)) => Some(OutcomeV::Value(v@)),
        PrimOutcome::Done(Err(RuntimeError::TypeError { expected, got })) => Some(OutcomeV::TypeError(expected@, got@)),
        PrimOutcome::Done(Err(RuntimeError::DivisionByZero)) => Some(OutcomeV::DivisionByZero),
        PrimOutcome::Done(Err(RuntimeError::AssertionFailed { message })) => Some(OutcomeV::AssertionFailed(message@)),
        PrimOutcome::Done(Err(RuntimeError::UserError { message })) => Some(OutcomeV::UserError(message@)),
        PrimOutcome::Done(Err(_)) => None,
        PrimOutcome::Outside => Some(OutcomeV::Outside),
    }
}

/// The name of a value's type, as runtime errors give it.
pub open spec fn type_name_v(v: ScalarV) -> Seq<char> {
    match v {
        ScalarV::Unit => "unit"@,
        ScalarV::Bool(_) => "bool"@,
        ScalarV::Int(_) => "int"@,
        ScalarV::Char(_) => "char"@,
        ScalarV::Str(_) => "string"@,
        ScalarV::MaybeChar(_) => "constructor"@,
        ScalarV::Other(n) => n,
    }
}

/// The error for a call with the wrong number of arguments.
pub open spec fn arity_error(expected: nat, got: nat) -> OutcomeV {
    OutcomeV::TypeError(decimal(expected) + " arguments"@, decimal(got) + " arguments"@)
}

/// The kinds of operand the operations take.
pub enum Operand {
    Int,
    Char,
    Bool,
    Str,
}

/// The name of an operand kind.
pub open spec fn operand_name(k: Operand) -> Seq<char> {
    match k {
        Operand::Int => "int"@,
        Operand::Char => "char"@,
        Operand::Bool => "bool"@,
        Operand::Str => "string"@,
    }
}

/// The value is of the kind.
pub open spec fn is_kind(v: ScalarV, k: Operand) -> bool {
    match k {
        Operand::Int => v is Int,
        Operand::Char => v is Char,
        Operand::Bool => v is Bool,
        Operand::Str => v is Str,
    }
}

/// The operand kind and number of arguments of the operations handled here; `None` for
/// those left to the caller.
pub open spec fn signature(op: Primitive) -> Option<(Operand, nat)> {
    match op {
        Primitive::AddInt | Primitive::SubInt | Primitive::MulInt | Primitive::EqInt | Primitive::NeqInt
        | Primitive::LtInt | Primitive::LeInt | Primitive::GtInt | Primitive::GeInt => Some((Operand::Int, 2)),
        Primitive::NegInt | Primitive::IntToString => Some((Operand::Int, 1)),
        Primitive::EqChar | Primitive::NeqChar | Primitive::LtChar | Primitive::LeChar | Primitive::GtChar
        | Primitive::GeChar => Some((Operand::Char, 2)),
        Primitive::CharToString | Primitive::CharToInt => Some((Operand::Char, 1)),
        Primitive::EqBool | Primitive::NeqBool | Primitive::And | Primitive::Or => Some((Operand::Bool, 2)),
        Primitive::Not | Primitive::BoolToString => Some((Operand::Bool, 1)),
        Primitive::Concat | Primitive::EqString | Primitive::NeqString | Primitive::LtString
        | Primitive::LeString | Primitive::GtString | Primitive::GeString => Some((Operand::Str, 2)),
        Primitive::StringIdentity | Primitive::Panic => Some((Operand::Str, 1)),
        Primitive::DivInt | Primitive::ModInt => Some((Operand::Int, 2)),
        _ => None,
    }
}

/// `a` comes before `b` in the lexicographic order of code points, where a proper prefix
/// comes first (the order of their bytes in UTF-8).
pub open spec fn str_less(a: Seq<char>, b: Seq<char>) -> bool
    decreases a.len(),
{
    if a.len() == 0 {
        b.len() > 0
    } else if b.len() == 0 {
        false
    } else if (a[0] as u32) < (b[0] as u32) {
        true
    } else if (a[0] as u32) > (b[0] as u32) {
        false
    } else {
        str_less(a.drop_first(), b.drop_first())
    }
}

/// The value of an operation on arguments of the right kinds.
pub open spec fn apply_op(op: Primitive, a: Seq<ScalarV>) -> ScalarV {
    match op {
        Primitive::AddInt => ScalarV::Int(a[0]->Int_0.wrapping_add(a[1]->Int_0)),
        Primitive::SubInt => ScalarV::Int(a[0]->Int_0.wrapping_sub(a[1]->Int_0)),
        Primitive::MulInt => ScalarV::Int(a[0]->Int_0.wrapping_mul(a[1]->Int_0)),
        Primitive::EqInt => ScalarV::Bool(a[0]->Int_0 == a[1]->Int_0),
        Primitive::NeqInt => ScalarV::Bool(a[0]->Int_0 != a[1]->Int_0),
        Primitive::LtInt => ScalarV::Bool(a[0]->Int_0 < a[1]->Int_0),
        Primitive::LeInt => ScalarV::Bool(a[0]->Int_0 <= a[1]->Int_0),
        Primitive::GtInt => ScalarV::Bool(a[0]->Int_0 > a[1]->Int_0),
        Primitive::GeInt => ScalarV::Bool(a[0]->Int_0 >= a[1]->Int_0),
        Primitive::NegInt => ScalarV::Int(0i64.wrapping_sub(a[0]->Int_0)),
        Primitive::IntToString => ScalarV::Str(int_text(a[0]->Int_0)),
        Primitive::EqChar => ScalarV::Bool(a[0]->Char_0 == a[1]->Char_0),
        Primitive::NeqChar => ScalarV::Bool(a[0]->Char_0 != a[1]->Char_0),
        Primitive::LtChar => ScalarV::Bool((a[0]->Char_0 as u32) < (a[1]->Char_0 as u32)),
        Primitive::LeChar => ScalarV::Bool((a[0]->Char_0 as u32) <= (a[1]->Char_0 as u32)),
        Primitive::GtChar => ScalarV::Bool((a[0]->Char_0 as u32) > (a[1]->Char_0 as u32)),
        Primitive::GeChar => ScalarV::Bool((a[0]->Char_0 as u32) >= (a[1]->Char_0 as u32)),
        Primitive::CharToString => ScalarV::Str(seq![a[0]->Char_0]),
        Primitive::CharToInt => ScalarV::Int((a[0]->Char_0 as u32) as i64),
        Primitive::EqBool => ScalarV::Bool(a[0]->Bool_0 == a[1]->Bool_0),
        Primitive::NeqBool => ScalarV::Bool(a[0]->Bool_0 != a[1]->Bool_0),
        Primitive::And => ScalarV::Bool(a[0]->Bool_0 && a[1]->Bool_0),
        Primitive::Or => ScalarV::Bool(a[0]->Bool_0 || a[1]->Bool_0),
        Primitive::Not => ScalarV::Bool(!a[0]->Bool_0),
        Primitive::BoolToString => ScalarV::Str(if a[0]->Bool_0 { "true"@ } else { "false"@ }),
        Primitive::Concat => ScalarV::Str(a[0]->Str_0 + a[1]->Str_0),
        Primitive::EqString => ScalarV::Bool(a[0]->Str_0 == a[1]->Str_0),
        Primitive::NeqString => ScalarV::Bool(a[0]->Str_0 != a[1]->Str_0),
        Primitive::LtString => ScalarV::Bool(str_less(a[0]->Str_0, a[1]->Str_0)),
        Primitive::LeString => ScalarV::Bool(!str_less(a[1]->Str_0, a[0]->Str_0)),
        Primitive::GtString => ScalarV::Bool(str_less(a[1]->Str_0, a[0]->Str_0)),
        Primitive::GeString => ScalarV::Bool(!str_less(a[0]->Str_0, a[1]->Str_0)),
        Primitive::DivInt => ScalarV::Int(trunc_div(a[0]->Int_0 as int, a[1]->Int_0 as int) as i64),
        Primitive::ModInt => ScalarV::Int(trunc_rem(a[0]->Int_0 as int, a[1]->Int_0 as int) as i64),
        _ => a[0],
    }
}

/// The magnitude of an integer.
pub open spec fn magnitude(x: int) -> int {
    if x < 0 { -x } else { x }
}

/// Division rounding towards zero, as Rust's `/` does.
pub open spec fn trunc_div(a: int, b: int) -> int {
    if (a < 0) != (b < 0) { -(magnitude(a) / magnitude(b)) } else { magnitude(a) / magnitude(b) }
}

/// The remainder of division rounding towards zero, as Rust's `%` gives it.
pub open spec fn trunc_rem(a: int, b: int) -> int {
    if a < 0 { -(magnitude(a) % magnitude(b)) } else { magnitude(a) % magnitude(b) }
}

/// What an operation gives on the arguments: the wrong number of arguments or an argument
/// of the wrong kind is a type error; division by zero is an error and the one division
/// that overflows is left to the caller; `assert` fails with its message when its
/// condition is false, and `panic` always fails with its message; else the operation's
/// value.
pub open spec fn prim_outcome(op: Primitive, a: Seq<ScalarV>) -> OutcomeV {
    if op == Primitive::Assert {
        if a.len() != 2 {
            arity_error(2, a.len())
        } else if !(a[0] is Bool) {
            OutcomeV::TypeError("bool"@, type_name_v(a[0]))
        } else if a[0]->Bool_0 {
            OutcomeV::Value(ScalarV::Unit)
        } else if !(a[1] is Str) {
            OutcomeV::TypeError("string"@, type_name_v(a[1]))
        } else {
            OutcomeV::AssertionFailed(a[1]->Str_0)
        }
    } else if is_text_op(op) {
        text_outcome(op, a)
    } else {
        basic_outcome(op, a)
    }
}

/// The operations on strings that take integers beside them, and `intToChar`.
pub open spec fn is_text_op(op: Primitive) -> bool {
    op == Primitive::StringLength || op == Primitive::Substring || op == Primitive::CharAt
        || op == Primitive::IntToChar
}

/// A code point that names a character: at most 0x10FFFF and not a surrogate.
pub open spec fn is_scalar_code(n: u32) -> bool {
    n <= 0x10FFFF && !(0xD800 <= n && n <= 0xDFFF)
}


/// The characters of `s` from position `start` on, at most `len` of them; none where
/// either is negative.
pub open spec fn substring_of(s: Seq<char>, start: int, len: int) -> Seq<char> {
    if start < 0 || len < 0 {
        Seq::empty()
    } else {
        let lo = if start < s.len() { start } else { s.len() as int };
        let hi = if start + len < s.len() { start + len } else { s.len() as int };
        s.subrange(lo, hi)
    }
}

/// The code point of the character of `s` at position `i`, if there is one.
pub open spec fn char_at(s: Seq<char>, i: int) -> Option<u32> {
    if 0 <= i < s.len() { Some(s[i] as u32) } else { None }
}

/// `prim_outcome` for the string operations that take integers and for `intToChar`: the
/// arguments are checked in order, and then the length counts the bytes of the string in
/// UTF-8, a substring counts characters, and a code point that names no character gives
/// `None`.
pub open spec fn text_outcome(op: Primitive, a: Seq<ScalarV>) -> OutcomeV {
    if op == Primitive::StringLength {
        if a.len() != 1 {
            arity_error(1, a.len())
        } else if !(a[0] is Str) {
            OutcomeV::TypeError("string"@, type_name_v(a[0]))
        } else {
            OutcomeV::Value(ScalarV::Int(#[verifier::truncate] ((vstd::utf8::encode_utf8(a[0]->Str_0).len() as usize) as i64)))
        }
    } else if op == Primitive::IntToChar {
        if a.len() != 1 {
            arity_error(1, a.len())
        } else if !(a[0] is Int) {
            OutcomeV::TypeError("int"@, type_name_v(a[0]))
        } else if is_scalar_code(#[verifier::truncate] (a[0]->Int_0 as u32)) {
            OutcomeV::Value(ScalarV::MaybeChar(Some(#[verifier::truncate] (a[0]->Int_0 as u32))))
        } else {
            OutcomeV::Value(ScalarV::MaybeChar(None))
        }
    } else if op == Primitive::CharAt {
        if a.len() != 2 {
            arity_error(2, a.len())
        } else if !(a[0] is Str) {
            OutcomeV::TypeError("string"@, type_name_v(a[0]))
        } else if !(a[1] is Int) {
            OutcomeV::TypeError("int"@, type_name_v(a[1]))
        } else {
            OutcomeV::Value(ScalarV::MaybeChar(char_at(a[0]->Str_0, a[1]->Int_0 as int)))
        }
    } else {
        if a.len() != 3 {
            arity_error(3, a.len())
        } else if !(a[0] is Str) {
            OutcomeV::TypeError("string"@, type_name_v(a[0]))
        } else if !(a[1] is Int) {
            OutcomeV::TypeError("int"@, type_name_v(a[1]))
        } else if !(a[2] is Int) {
            OutcomeV::TypeError("int"@, type_name_v(a[2]))
        } else {
            OutcomeV::Value(ScalarV::Str(substring_of(a[0]->Str_0, a[1]->Int_0 as int, a[2]->Int_0 as int)))
        }
    }
}

/// `prim_outcome` for the operations with a fixed signature.
pub open spec fn basic_outcome(op: Primitive, a: Seq<ScalarV>) -> OutcomeV {
    match signature(op) {
        None => OutcomeV::Outside,
        Some((k, n)) => if a.len() != n {
            arity_error(n, a.len())
        } else if !is_kind(a[0], k) {
            OutcomeV::TypeError(operand_name(k), type_name_v(a[0]))
        } else if n == 2 && !is_kind(a[1], k) {
            OutcomeV::TypeError(operand_name(k), type_name_v(a[1]))
        } else if (op == Primitive::DivInt || op == Primitive::ModInt) && a[1]->Int_0 == 0 {
            OutcomeV::DivisionByZero
        } else if (op == Primitive::DivInt || op == Primitive::ModInt) && a[0]->Int_0 == i64::MIN && a[1]->Int_0 == -1 {
            OutcomeV::Outside
        } else if op == Primitive::Panic {
            OutcomeV::UserError(a[0]->Str_0)
        } else {
            OutcomeV::Value(apply_op(op, a))
        },
    }
}

fn type_error(expected: &str, got: &Scalar) -> (e: RuntimeError)
    ensures
        e matches RuntimeError::TypeError { expected: x, got: y } && x@ == expected@ && y@ == type_name_v(got@),
{
    let mut name = String::new();
    match got {
        Scalar::Unit => push_str(&mut name, "unit"),
        Scalar::Bool(_) => push_str(&mut name, "bool"),
        Scalar::Int(_) => push_str(&mut name, "int"),
        Scalar::Char(_) => push_str(&mut name, "char"),
        Scalar::Str(_) => push_str(&mut name, "string"),
        Scalar::MaybeChar(_) => push_str(&mut name, "constructor"),
        Scalar::Other(n) => push_str(&mut name, n.as_str()),
    }
    RuntimeError::TypeError { expected: expected.to_owned(), got: name }
}

fn arity(expected: usize, got: usize) -> (e: RuntimeError)
    ensures
        e matches RuntimeError::TypeError { expected: x, got: y }
            && x@ == decimal(expected as nat) + " arguments"@ && y@ == decimal(got as nat) + " arguments"@,
{
    let mut x = String::new();
    push_decimal(&mut x, expected as u64);
    push_str(&mut x, " arguments");
    let mut y = String::new();
    push_decimal(&mut y, got as u64);
    push_str(&mut y, " arguments");
    RuntimeError::TypeError { expected: x, got: y }
}

fn signature_of(op: Primitive) -> (r: Option<(Operand, usize)>)
    ensures
        match signature(op) {
            Some((k, n)) => r matches Some((k2, n2)) && k2 == k && n2 as nat == n,
            None => r is None,
        },
{
    match op {
        Primitive::AddInt | Primitive::SubInt | Primitive::MulInt | Primitive::EqInt | Primitive::NeqInt
        | Primitive::LtInt | Primitive::LeInt | Primitive::GtInt | Primitive::GeInt => Some((Operand::Int, 2)),
        Primitive::NegInt | Primitive::IntToString => Some((Operand::Int, 1)),
        Primitive::EqChar | Primitive::NeqChar | Primitive::LtChar | Primitive::LeChar | Primitive::GtChar
        | Primitive::GeChar => Some((Operand::Char, 2)),
        Primitive::CharToString | Primitive::CharToInt => Some((Operand::Char, 1)),
        Primitive::EqBool | Primitive::NeqBool | Primitive::And | Primitive::Or => Some((Operand::Bool, 2)),
        Primitive::Not | Primitive::BoolToString => Some((Operand::Bool, 1)),
        Primitive::Concat | Primitive::EqString | Primitive::NeqString | Primitive::LtString
        | Primitive::LeString | Primitive::GtString | Primitive::GeString => Some((Operand::Str, 2)),
        Primitive::StringIdentity | Primitive::Panic => Some((Operand::Str, 1)),
        Primitive::DivInt | Primitive::ModInt => Some((Operand::Int, 2)),
        _ => None,
    }
}


fn kind_matches(v: &Scalar, k: &Operand) -> (b: bool)
    ensures
        b == is_kind(v@, *k),
{
    match (v, k) {
        (Scalar::Int(_), Operand::Int) => true,
        (Scalar::Char(_), Operand::Char) => true,
        (Scalar::Bool(_), Operand::Bool) => true,
        (Scalar::Str(_), Operand::Str) => true,
        _ => false,
    }
}

fn kind_name(k: &Operand) -> (s: &'static str)
    ensures
        s@ == operand_name(*k),
{
    match k {
        Operand::Int => "int",
        Operand::Char => "char",
        Operand::Bool => "bool",
        Operand::Str => "string",
    }
}

fn magnitude_of(x: i64) -> (m: u64)
    ensures
        m as int == magnitude(x as int),
{
    if x < 0 {
        if x == i64::MIN { 9223372036854775808u64 } else { (-x) as u64 }
    } else {
        x as u64
    }
}

fn div_toward_zero(x: i64, y: i64) -> (r: i64)
    requires
        y != 0,
        !(x == i64::MIN && y == -1),
    ensures
        r as int == trunc_div(x as int, y as int),
{
    let q: u64 = magnitude_of(x) / magnitude_of(y);
    proof {
        assert(magnitude(y as int) >= 1);
        assert(q as int <= magnitude(x as int)) by (nonlinear_arith)
            requires q as int == magnitude(x as int) / magnitude(y as int), magnitude(y as int) >= 1, magnitude(x as int) >= 0;
        if magnitude(y as int) == 1 {
            assert(q as int == magnitude(x as int));
        } else {
            assert(q as int <= magnitude(x as int) / 2) by (nonlinear_arith)
                requires q as int == magnitude(x as int) / magnitude(y as int), magnitude(y as int) >= 2, magnitude(x as int) >= 0;
        }
    }
    if (x < 0) != (y < 0) {
        if q == 9223372036854775808u64 { i64::MIN } else { -(q as i64) }
    } else {
        q as i64
    }
}

fn rem_toward_zero(x: i64, y: i64) -> (r: i64)
    requires
        y != 0,
    ensures
        r as int == trunc_rem(x as int, y as int),
{
    let m: u64 = magnitude_of(x) % magnitude_of(y);
    proof {
        assert((m as int) < magnitude(y as int)) by (nonlinear_arith)
            requires m as int == magnitude(x as int) % magnitude(y as int), magnitude(y as int) >= 1;
        assert(magnitude(y as int) <= 9223372036854775808);
    }
    if x < 0 { -(m as i64) } else { m as i64 }
}

fn eval_assert(args: &Vec<Scalar>) -> (r: PrimOutcome)
    ensures
        outcome_view(r) == Some(prim_outcome(Primitive::Assert, args@.map_values(|v: Scalar| v@))),
{
    let ghost a = args@.map_values(|v: Scalar| v@);
    if args.len() != 2 {
        return PrimOutcome::Done(Err(arity(2, args.len())));
    }
    assert(a[0] == args@[0]@);
    assert(a[1] == args@[1]@);
    match &args[0] {
        Scalar::Bool(true) => PrimOutcome::Done(Ok(Scalar::Unit)),
        Scalar::Bool(false) => match &args[1] {
            Scalar::Str(m) => PrimOutcome::Done(Err(RuntimeError::AssertionFailed { message: m.clone() })),
            other => PrimOutcome::Done(Err(type_error("string", other))),
        },
        other => PrimOutcome::Done(Err(type_error("bool", other))),
    }
}

/// Whether `x` comes before `y` in the order of code points.
fn less_text(x: &String, y: &String) -> (b: bool)
    ensures
        b == str_less(x@, y@),
{
    let xs: Vec<char> = chars_of(x.as_str());
    let ys: Vec<char> = chars_of(y.as_str());
    let mut i: usize = 0;
    assert(xs@.skip(0) =~= xs@);
    assert(ys@.skip(0) =~= ys@);
    while i < xs.len() && i < ys.len()
        invariant
            i <= xs@.len(),
            i <= ys@.len(),
            str_less(x@, y@) == str_less(xs@.skip(i as int), ys@.skip(i as int)),
            xs@ == x@,
            ys@ == y@,
        decreases xs@.len() - i,
    {
        let p: u32 = xs[i] as u32;
        let q: u32 = ys[i] as u32;
        assert(xs@.skip(i as int)[0] == xs@[i as int]);
        assert(ys@.skip(i as int)[0] == ys@[i as int]);
        if p < q {
            return true;
        }
        if p > q {
            return false;
        }
        assert(xs@.skip(i as int).drop_first() =~= xs@.skip(i + 1));
        assert(ys@.skip(i as int).drop_first() =~= ys@.skip(i + 1));
        i += 1;
    }
    i == xs.len() && i < ys.len()
}

/// The character with a code point, if it names one.
///
/// Trusted: calls `char::from_u32`, which std documents as giving `None` exactly where the
/// number is not a Unicode scalar value (above 0x10FFFF, or a surrogate from 0xD800 to
/// 0xDFFF), and otherwise the character with that code point.
#[verifier::external_body]
fn char_from_code(n: u32) -> (r: Option<char>)
    ensures
        r is Some <==> is_scalar_code(n),
        r matches Some(c) ==> c as u32 == n,
{
    char::from_u32(n)
}

fn eval_text(op: Primitive, args: &Vec<Scalar>) -> (r: PrimOutcome)
    requires
        is_text_op(op),
    ensures
        outcome_view(r) == Some(text_outcome(op, args@.map_values(|v: Scalar| v@))),
{
    let ghost a = args@.map_values(|v: Scalar| v@);
    let n: usize = match op {
        Primitive::StringLength | Primitive::IntToChar => 1,
        Primitive::CharAt => 2,
        _ => 3,
    };
    if args.len() != n {
        return PrimOutcome::Done(Err(arity(n, args.len())));
    }
    assert(a[0] == args@[0]@);
    if let Primitive::IntToChar = op {
        return match &args[0] {
            Scalar::Int(x) => {
                let code: u32 = #[verifier::truncate] (*x as u32);
                match char_from_code(code) {
                    Some(c) => PrimOutcome::Done(Ok(Scalar::MaybeChar(Some(c)))),
                    None => PrimOutcome::Done(Ok(Scalar::MaybeChar(None))),
                }
            },
            other => PrimOutcome::Done(Err(type_error("int", other))),
        };
    }
    let s: &String = match &args[0] {
        Scalar::Str(s) => s,
        other => return PrimOutcome::Done(Err(type_error("string", other))),
    };
    if let Primitive::StringLength = op {
        let len: usize = s.as_str().len();
        return PrimOutcome::Done(Ok(Scalar::Int(#[verifier::truncate] (len as i64))));
    }
    assert(a[1] == args@[1]@);
    let i: i64 = match &args[1] {
        Scalar::Int(i) => *i,
        other => return PrimOutcome::Done(Err(type_error("int", other))),
    };
    let cs: Vec<char> = chars_of(s.as_str());
    let count: usize = cs.len();
    if let Primitive::CharAt = op {
        if i < 0 || (i as u64) >= (count as u64) {
            return PrimOutcome::Done(Ok(Scalar::MaybeChar(None)));
        }
        return PrimOutcome::Done(Ok(Scalar::MaybeChar(Some(cs[i as usize]))));
    }
    assert(a[2] == args@[2]@);
    let len: i64 = match &args[2] {
        Scalar::Int(l) => *l,
        other => return PrimOutcome::Done(Err(type_error("int", other))),
    };
    let mut t = String::new();
    if i < 0 || len < 0 {
        assert(t@ =~= substring_of(cs@, i as int, len as int));
        return PrimOutcome::Done(Ok(Scalar::Str(t)));
    }
    let lo: usize = if (i as u64) < (count as u64) { i as usize } else { count };
    let hi: usize = if (len as u64) < ((count - lo) as u64) { lo + len as usize } else { count };
    let mut k: usize = lo;
    while k < hi
        invariant
            lo <= k <= hi <= count == cs@.len(),
            t@ == cs@.subrange(lo as int, k as int),
        decreases hi - k,
    {
        push_char(&mut t, cs[k]);
        assert(t@ =~= cs@.subrange(lo as int, k + 1));
        k += 1;
    }
    assert(t@ =~= substring_of(cs@, i as int, len as int));
    PrimOutcome::Done(Ok(Scalar::Str(t)))
}

/// Evaluate a primitive operation on integers, characters, booleans or strings;
/// `Outside` for one left to the caller.
pub fn eval_primitive(op: Primitive, args: &Vec<Scalar>) -> (r: PrimOutcome)
    ensures
        outcome_view(r) == Some(prim_outcome(op, args@.map_values(|v: Scalar| v@))),
{
    let ghost a = args@.map_values(|v: Scalar| v@);
    if let Primitive::Assert = op {
        return eval_assert(args);
    }
    match op {
        Primitive::StringLength | Primitive::Substring | Primitive::CharAt | Primitive::IntToChar => {
            return eval_text(op, args);
        },
        _ => {},
    }
    let (k, n) = match signature_of(op) {
        Some(s) => s,
        None => return PrimOutcome::Outside,
    };
    if args.len() != n {
        return PrimOutcome::Done(Err(arity(n, args.len())));
    }
    assert(a[0] == args@[0]@);
    if !kind_matches(&args[0], &k) {
        return PrimOutcome::Done(Err(type_error(kind_name(&k), &args[0])));
    }
    if n == 2 {
        assert(a[1] == args@[1]@);
        if !kind_matches(&args[1], &k) {
            return PrimOutcome::Done(Err(type_error(kind_name(&k), &args[1])));
        }
    }
    match op {
        Primitive::DivInt | Primitive::ModInt => {
            if let (Scalar::Int(x), Scalar::Int(y)) = (&args[0], &args[1]) {
                if *y == 0 {
                    return PrimOutcome::Done(Err(RuntimeError::DivisionByZero));
                }
                if *x == i64::MIN && *y == -1 {
                    return PrimOutcome::Outside;
                }
                let r = if let Primitive::DivInt = op { div_toward_zero(*x, *y) } else { rem_toward_zero(*x, *y) };
                return PrimOutcome::Done(Ok(Scalar::Int(r)));
            }
        },
        Primitive::Panic => {
            if let Scalar::Str(m) = &args[0] {
                return PrimOutcome::Done(Err(RuntimeError::UserError { message: m.clone() }));
            }
        },
        _ => {},
    }
    let v = match (&args[0], op) {
        (Scalar::Int(x), Primitive::NegInt) => Scalar::Int(0i64.wrapping_sub(*x)),
        (Scalar::Int(x), Primitive::IntToString) => {
            let mut s = String::new();
            push_i64(&mut s, *x);
            Scalar::Str(s)
        },
        (Scalar::Char(c), Primitive::CharToString) => {
            let mut s = String::new();
            push_char(&mut s, *c);
            Scalar::Str(s)
        },
        (Scalar::Char(c), Primitive::CharToInt) => Scalar::Int((*c as u32) as i64),
        (Scalar::Bool(b), Primitive::Not) => Scalar::Bool(!*b),
        (Scalar::Bool(b), Primitive::BoolToString) => {
            let mut s = String::new();
            push_str(&mut s, if *b { "true" } else { "false" });
            Scalar::Str(s)
        },
        (Scalar::Str(s), Primitive::StringIdentity) => {
            let mut t = String::new();
            push_str(&mut t, s.as_str());
            Scalar::Str(t)
        },
        (Scalar::Int(x), _) => match &args[1] {
            Scalar::Int(y) => match op {
                Primitive::AddInt => Scalar::Int(x.wrapping_add(*y)),
                Primitive::SubInt => Scalar::Int(x.wrapping_sub(*y)),
                Primitive::MulInt => Scalar::Int(x.wrapping_mul(*y)),
                Primitive::EqInt => Scalar::Bool(*x == *y),
                Primitive::NeqInt => Scalar::Bool(*x != *y),
                Primitive::LtInt => Scalar::Bool(*x < *y),
                Primitive::LeInt => Scalar::Bool(*x <= *y),
                Primitive::GtInt => Scalar::Bool(*x > *y),
                _ => Scalar::Bool(*x >= *y),
            },
            _ => Scalar::Unit,
        },
        (Scalar::Char(x), _) => match &args[1] {
            Scalar::Char(y) => match op {
                Primitive::EqChar => Scalar::Bool(*x == *y),
                Primitive::NeqChar => Scalar::Bool(*x != *y),
                Primitive::LtChar => Scalar::Bool((*x as u32) < (*y as u32)),
                Primitive::LeChar => Scalar::Bool((*x as u32) <= (*y as u32)),
                Primitive::GtChar => Scalar::Bool((*x as u32) > (*y as u32)),
                _ => Scalar::Bool((*x as u32) >= (*y as u32)),
            },
            _ => Scalar::Unit,
        },
        (Scalar::Bool(x), _) => match &args[1] {
            Scalar::Bool(y) => match op {
                Primitive::EqBool => Scalar::Bool(*x == *y),
                Primitive::NeqBool => Scalar::Bool(*x != *y),
                Primitive::And => Scalar::Bool(*x && *y),
                _ => Scalar::Bool(*x || *y),
            },
            _ => Scalar::Unit,
        },
        (Scalar::Str(x), _) => match &args[1] {
            Scalar::Str(y) => match op {
                Primitive::EqString => Scalar::Bool(*x == *y),
                Primitive::NeqString => Scalar::Bool(!(*x == *y)),
                Primitive::LtString => Scalar::Bool(less_text(x, y)),
                Primitive::LeString => Scalar::Bool(!less_text(y, x)),
                Primitive::GtString => Scalar::Bool(less_text(y, x)),
                Primitive::GeString => Scalar::Bool(!less_text(x, y)),
                _ => {
                    let mut s = String::new();
                    push_str(&mut s, x.as_str());
                    push_str(&mut s, y.as_str());
                    Scalar::Str(s)
                },
            },
            _ => Scalar::Unit,
        },
        _ => Scalar::Unit,
    };
    proof {
        assert(v@ == apply_op(op, a));
    }
    PrimOutcome::Done(Ok(v))
}

} // verus!
