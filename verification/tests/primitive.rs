use neap::ir::base::Primitive;
use neap::vm::error::RuntimeError;
use neap::vm::primitive::{eval_primitive, PrimOutcome, Scalar};

fn value(op: Primitive, args: Vec<Scalar>) -> Scalar {
    match eval_primitive(op, &args) {
        PrimOutcome::Done(Ok(v)) => v,
        other => panic!("unexpected outcome {other:?}"),
    }
}

#[test]
fn primitive_int_arithmetic_wraps() {
    assert!(matches!(value(Primitive::AddInt, vec![Scalar::Int(2), Scalar::Int(3)]), Scalar::Int(5)));
    assert!(matches!(value(Primitive::AddInt, vec![Scalar::Int(i64::MAX), Scalar::Int(1)]), Scalar::Int(i64::MIN)));
    assert!(matches!(value(Primitive::NegInt, vec![Scalar::Int(4)]), Scalar::Int(-4)));
    assert!(matches!(value(Primitive::LtInt, vec![Scalar::Int(1), Scalar::Int(2)]), Scalar::Bool(true)));
}

#[test]
fn primitive_strings_and_conversions() {
    match value(Primitive::Concat, vec![Scalar::Str("ab".to_string()), Scalar::Str("cd".to_string())]) {
        Scalar::Str(s) => assert_eq!(s, "abcd"),
        _ => panic!("expected a string"),
    }
    match value(Primitive::IntToString, vec![Scalar::Int(-42)]) {
        Scalar::Str(s) => assert_eq!(s, "-42"),
        _ => panic!("expected a string"),
    }
    assert!(matches!(value(Primitive::CharToInt, vec![Scalar::Char('A')]), Scalar::Int(65)));
    assert!(matches!(value(Primitive::Not, vec![Scalar::Bool(true)]), Scalar::Bool(false)));
}

#[test]
fn primitive_type_and_arity_errors() {
    match eval_primitive(Primitive::AddInt, &vec![Scalar::Int(1), Scalar::Bool(true)]) {
        PrimOutcome::Done(Err(RuntimeError::TypeError { expected, got })) => {
            assert_eq!(expected, "int");
            assert_eq!(got, "bool");
        }
        other => panic!("unexpected outcome {other:?}"),
    }
    match eval_primitive(Primitive::Not, &vec![]) {
        PrimOutcome::Done(Err(RuntimeError::TypeError { expected, got })) => {
            assert_eq!(expected, "1 arguments");
            assert_eq!(got, "0 arguments");
        }
        other => panic!("unexpected outcome {other:?}"),
    }
}

#[test]
fn primitive_float_operations_are_left_to_the_caller() {
    assert!(matches!(eval_primitive(Primitive::AddFloat, &vec![]), PrimOutcome::Outside));
    assert!(matches!(eval_primitive(Primitive::DivInt, &vec![Scalar::Int(i64::MIN), Scalar::Int(-1)]), PrimOutcome::Outside));
}

#[test]
fn primitive_division_rounds_toward_zero() {
    assert!(matches!(value(Primitive::DivInt, vec![Scalar::Int(-7), Scalar::Int(2)]), Scalar::Int(-3)));
    assert!(matches!(value(Primitive::ModInt, vec![Scalar::Int(-7), Scalar::Int(2)]), Scalar::Int(-1)));
    assert!(matches!(value(Primitive::DivInt, vec![Scalar::Int(7), Scalar::Int(-2)]), Scalar::Int(-3)));
    assert!(matches!(
        eval_primitive(Primitive::DivInt, &vec![Scalar::Int(1), Scalar::Int(0)]),
        PrimOutcome::Done(Err(RuntimeError::DivisionByZero))
    ));
}

#[test]
fn primitive_string_equality_assert_and_panic() {
    assert!(matches!(value(Primitive::EqString, vec![Scalar::Str("a".to_string()), Scalar::Str("a".to_string())]), Scalar::Bool(true)));
    assert!(matches!(value(Primitive::NeqString, vec![Scalar::Str("a".to_string()), Scalar::Str("b".to_string())]), Scalar::Bool(true)));
    assert!(matches!(value(Primitive::Assert, vec![Scalar::Bool(true), Scalar::Str("m".to_string())]), Scalar::Unit));
    match eval_primitive(Primitive::Assert, &vec![Scalar::Bool(false), Scalar::Str("m".to_string())]) {
        PrimOutcome::Done(Err(RuntimeError::AssertionFailed { message })) => assert_eq!(message, "m"),
        other => panic!("unexpected outcome {other:?}"),
    }
    match eval_primitive(Primitive::Panic, &vec![Scalar::Str("boom".to_string())]) {
        PrimOutcome::Done(Err(RuntimeError::UserError { message })) => assert_eq!(message, "boom"),
        other => panic!("unexpected outcome {other:?}"),
    }
}

fn text(s: &str) -> Scalar {
    Scalar::Str(s.to_string())
}

#[test]
fn string_length_counts_bytes() {
    assert!(matches!(value(Primitive::StringLength, vec![text("hello")]), Scalar::Int(5)));
    assert!(matches!(value(Primitive::StringLength, vec![text("")]), Scalar::Int(0)));
    assert!(matches!(value(Primitive::StringLength, vec![text("é")]), Scalar::Int(2)));
}

#[test]
fn substring_counts_characters() {
    match value(Primitive::Substring, vec![text("hello"), Scalar::Int(1), Scalar::Int(3)]) {
        Scalar::Str(s) => assert_eq!(s, "ell"),
        other => panic!("unexpected {other:?}"),
    }
    match value(Primitive::Substring, vec![text("hello"), Scalar::Int(3), Scalar::Int(10)]) {
        Scalar::Str(s) => assert_eq!(s, "lo"),
        other => panic!("unexpected {other:?}"),
    }
    match value(Primitive::Substring, vec![text("hello"), Scalar::Int(-1), Scalar::Int(2)]) {
        Scalar::Str(s) => assert_eq!(s, ""),
        other => panic!("unexpected {other:?}"),
    }
    match value(Primitive::Substring, vec![text("héllo"), Scalar::Int(1), Scalar::Int(2)]) {
        Scalar::Str(s) => assert_eq!(s, "él"),
        other => panic!("unexpected {other:?}"),
    }
}

#[test]
fn char_at_and_int_to_char() {
    assert!(matches!(value(Primitive::CharAt, vec![text("abc"), Scalar::Int(1)]), Scalar::MaybeChar(Some('b'))));
    assert!(matches!(value(Primitive::CharAt, vec![text("abc"), Scalar::Int(3)]), Scalar::MaybeChar(None)));
    assert!(matches!(value(Primitive::CharAt, vec![text("abc"), Scalar::Int(-1)]), Scalar::MaybeChar(None)));
    assert!(matches!(value(Primitive::IntToChar, vec![Scalar::Int(65)]), Scalar::MaybeChar(Some('A'))));
    assert!(matches!(value(Primitive::IntToChar, vec![Scalar::Int(0xD800)]), Scalar::MaybeChar(None)));
    assert!(matches!(value(Primitive::IntToChar, vec![Scalar::Int(0x110000)]), Scalar::MaybeChar(None)));
    match eval_primitive(Primitive::CharAt, &vec![text("abc"), text("x")]) {
        PrimOutcome::Done(Err(RuntimeError::TypeError { expected, got })) => {
            assert_eq!(expected, "int");
            assert_eq!(got, "string");
        }
        other => panic!("unexpected {other:?}"),
    }
}

#[test]
fn string_ordering() {
    assert!(matches!(value(Primitive::LtString, vec![text("abc"), text("abd")]), Scalar::Bool(true)));
    assert!(matches!(value(Primitive::LtString, vec![text("ab"), text("abc")]), Scalar::Bool(true)));
    assert!(matches!(value(Primitive::LtString, vec![text("b"), text("abc")]), Scalar::Bool(false)));
    assert!(matches!(value(Primitive::LeString, vec![text("abc"), text("abc")]), Scalar::Bool(true)));
    assert!(matches!(value(Primitive::GtString, vec![text("b"), text("a")]), Scalar::Bool(true)));
    assert!(matches!(value(Primitive::GeString, vec![text("a"), text("b")]), Scalar::Bool(false)));
}

fn outcome(op: Primitive, args: Vec<Scalar>) -> Result<Scalar, RuntimeError> {
    match eval_primitive(op, &args) {
        PrimOutcome::Done(r) => r,
        PrimOutcome::Outside => panic!("operation left to the caller"),
    }
}

#[test]
fn prim_add_int() {
    assert!(matches!(outcome(Primitive::AddInt, vec![Scalar::Int(3), Scalar::Int(4)]), Ok(Scalar::Int(7))));
}

#[test]
fn prim_sub_int() {
    assert!(matches!(outcome(Primitive::SubInt, vec![Scalar::Int(10), Scalar::Int(4)]), Ok(Scalar::Int(6))));
}

#[test]
fn prim_mul_int() {
    assert!(matches!(outcome(Primitive::MulInt, vec![Scalar::Int(3), Scalar::Int(4)]), Ok(Scalar::Int(12))));
}

#[test]
fn prim_div_int() {
    assert!(matches!(outcome(Primitive::DivInt, vec![Scalar::Int(10), Scalar::Int(3)]), Ok(Scalar::Int(3))));
}

#[test]
fn prim_div_int_by_zero() {
    assert!(matches!(outcome(Primitive::DivInt, vec![Scalar::Int(10), Scalar::Int(0)]), Err(RuntimeError::DivisionByZero)));
}

#[test]
fn prim_mod_int() {
    assert!(matches!(outcome(Primitive::ModInt, vec![Scalar::Int(10), Scalar::Int(3)]), Ok(Scalar::Int(1))));
}

#[test]
fn prim_neg_int() {
    assert!(matches!(outcome(Primitive::NegInt, vec![Scalar::Int(42)]), Ok(Scalar::Int(-42))));
}

#[test]
fn prim_eq_int() {
    assert!(matches!(outcome(Primitive::EqInt, vec![Scalar::Int(5), Scalar::Int(5)]), Ok(Scalar::Bool(true))));
    assert!(matches!(outcome(Primitive::EqInt, vec![Scalar::Int(5), Scalar::Int(6)]), Ok(Scalar::Bool(false))));
}

#[test]
fn prim_lt_int() {
    assert!(matches!(outcome(Primitive::LtInt, vec![Scalar::Int(3), Scalar::Int(5)]), Ok(Scalar::Bool(true))));
    assert!(matches!(outcome(Primitive::LtInt, vec![Scalar::Int(5), Scalar::Int(3)]), Ok(Scalar::Bool(false))));
}

#[test]
fn prim_not() {
    assert!(matches!(outcome(Primitive::Not, vec![Scalar::Bool(true)]), Ok(Scalar::Bool(false))));
    assert!(matches!(outcome(Primitive::Not, vec![Scalar::Bool(false)]), Ok(Scalar::Bool(true))));
}

#[test]
fn prim_concat() {
    match outcome(Primitive::Concat, vec![text("hello "), text("world")]) {
        Ok(Scalar::Str(s)) => assert_eq!(s, "hello world"),
        other => panic!("unexpected {other:?}"),
    }
}

#[test]
fn prim_string_length() {
    assert!(matches!(outcome(Primitive::StringLength, vec![text("hello")]), Ok(Scalar::Int(5))));
}

#[test]
fn prim_substring() {
    match outcome(Primitive::Substring, vec![text("hello world"), Scalar::Int(6), Scalar::Int(5)]) {
        Ok(Scalar::Str(s)) => assert_eq!(s, "world"),
        other => panic!("unexpected {other:?}"),
    }
}

#[test]
fn prim_char_at() {
    match outcome(Primitive::CharAt, vec![text("hello"), Scalar::Int(1)]) {
        Ok(Scalar::MaybeChar(Some(c))) => assert_eq!(c, 'e'),
        _ => panic!("expected Some"),
    }
}

#[test]
fn prim_char_at_out_of_bounds() {
    assert!(matches!(outcome(Primitive::CharAt, vec![text("hi"), Scalar::Int(5)]), Ok(Scalar::MaybeChar(None))));
}

#[test]
fn prim_int_to_string() {
    match outcome(Primitive::IntToString, vec![Scalar::Int(42)]) {
        Ok(Scalar::Str(s)) => assert_eq!(s, "42"),
        other => panic!("unexpected {other:?}"),
    }
}

#[test]
fn prim_assert_pass() {
    assert!(matches!(outcome(Primitive::Assert, vec![Scalar::Bool(true), text("should pass")]), Ok(Scalar::Unit)));
}

#[test]
fn prim_assert_fail() {
    assert!(matches!(
        outcome(Primitive::Assert, vec![Scalar::Bool(false), text("test failed")]),
        Err(RuntimeError::AssertionFailed { message }) if message == "test failed"
    ));
}

#[test]
fn prim_panic() {
    assert!(matches!(
        outcome(Primitive::Panic, vec![text("oh no!")]),
        Err(RuntimeError::UserError { message }) if message == "oh no!"
    ));
}

#[test]
fn prim_add_type_error() {
    assert!(matches!(outcome(Primitive::AddInt, vec![Scalar::Int(1), text("not int")]), Err(RuntimeError::TypeError { .. })));
}

#[test]
fn prim_wrong_arg_count() {
    assert!(matches!(outcome(Primitive::AddInt, vec![Scalar::Int(1)]), Err(RuntimeError::TypeError { .. })));
}
