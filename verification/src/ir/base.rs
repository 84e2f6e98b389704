//! Core IR items for Neap: variable identifiers and primitive operations.
//!
//! The IR uses A-Normal Form (ANF) where all intermediate values are
//! explicitly bound to variables.

use vstd::prelude::*;
use crate::text::{decimal, push_char, push_decimal};

verus! {

/// A unique variable identifier.
#[derive(Debug, Clone, Copy, PartialEq, Eq, Structural, Hash)]
pub struct VarId(u64);

/// Source of fresh variable identifiers: each call of `VarId::fresh` hands out
/// the next number.
#[derive(Debug)]
pub struct VarIdSupply {
    next: u64,
}

impl VarIdSupply {
    /// The number the next fresh identifier will carry.
    pub closed spec fn next_id(&self) -> u64 {
        self.next
    }

    /// A supply whose first identifier is `_0`.
    pub fn new() -> (s: Self)
        ensures
            s.next_id() == 0,
    {
        VarIdSupply { next: 0 }
    }
}

/// The text of an identifier: an underscore followed by its number.
pub open spec fn var_id_text(n: u64) -> Seq<char> {
    seq!['_'] + decimal(n as nat)
}

impl View for VarId {
    type V = VarId;

    open spec fn view(&self) -> VarId {
        *self
    }
}

/// The identifier with the raw number `n`.
pub closed spec fn var_id_of(n: u64) -> VarId {
    VarId(n)
}

/// An identifier is determined by its raw number.
pub proof fn lemma_var_id_of(v: VarId, n: u64)
    ensures
        var_id_of(n).id() == n,
        v == var_id_of(v.id()),
{
}

/// The number a supply hands out after `n`.
pub open spec fn next_var_id(n: u64) -> u64 {
    if n == u64::MAX { 0 } else { (n + 1) as u64 }
}

impl VarId {
    /// The raw number of an identifier.
    pub closed spec fn id(&self) -> u64 {
        self.0
    }

    /// Create a fresh variable ID.
    pub fn fresh(supply: &mut VarIdSupply) -> (v: Self)
        ensures
            v.id() == old(supply).next_id(),
            final(supply).next_id() == next_var_id(old(supply).next_id()),
    {
        let v = VarId(supply.next);
        supply.next = if supply.next == u64::MAX { 0 } else { supply.next + 1 };
        v
    }

    /// Create a variable ID from a raw value.
    pub fn from_raw(id: u64) -> (v: Self)
        ensures
            v.id() == id,
    {
        VarId(id)
    }

    /// Get the raw ID value.
    pub fn raw(&self) -> (n: u64)
        ensures
            n == self.id(),
    {
        self.0
    }

    /// Reset the counter of a supply.
    pub fn reset_counter(supply: &mut VarIdSupply)
        ensures
            final(supply).next_id() == 0,
    {
        supply.next = 0;
    }

    /// The text of the identifier, e.g. `_42`.
    pub fn to_string(&self) -> (s: String)
        ensures
            s@ == var_id_text(self.id()),
    {
        let mut s = String::new();
        push_char(&mut s, '_');
        push_decimal(&mut s, self.0);
        s
    }
}

/// Primitive operations.
#[derive(Debug, Clone, Copy, PartialEq, Eq, Structural)]
pub enum Primitive {
    // Integer arithmetic
    AddInt,
    SubInt,
    MulInt,
    DivInt,
    ModInt,
    NegInt,
    // Float arithmetic
    AddFloat,
    SubFloat,
    MulFloat,
    DivFloat,
    NegFloat,
    // Comparison (polymorphic in the source, specialised in the IR)
    EqInt,
    NeqInt,
    LtInt,
    LeInt,
    GtInt,
    GeInt,
    EqFloat,
    NeqFloat,
    LtFloat,
    LeFloat,
    GtFloat,
    GeFloat,
    EqString,
    NeqString,
    LtString,
    LeString,
    GtString,
    GeString,
    EqBool,
    NeqBool,
    EqChar,
    NeqChar,
    LtChar,
    LeChar,
    GtChar,
    GeChar,
    // Logical
    Not,
    And,
    Or,
    // String
    Concat,
    // List operations
    Cons,
    Append,
    // String operations
    StringLength,
    Substring,
    CharAt,
    // Conversions
    IntToFloat,
    FloatToInt,
    IntToString,
    FloatToString,
    CharToString,
    CharToInt,
    IntToChar,
    BoolToString,
    StringIdentity,
    // List operations
    ListLength,
    // IO
    Print,
    PrintNoNewline,
    ReadLine,
    ReadFile,
    WriteFile,
    GetEnv,
    // Assertions
    Assert,
    Panic,
}

/// The name of a primitive, as the code generator and the runtime know it.
pub open spec fn primitive_name(p: Primitive) -> Seq<char> {
    match p {
        Primitive::AddInt => "__add_int"@,
        Primitive::SubInt => "__sub_int"@,
        Primitive::MulInt => "__mul_int"@,
        Primitive::DivInt => "__div_int"@,
        Primitive::ModInt => "__mod_int"@,
        Primitive::NegInt => "__neg_int"@,
        Primitive::AddFloat => "__add_float"@,
        Primitive::SubFloat => "__sub_float"@,
        Primitive::MulFloat => "__mul_float"@,
        Primitive::DivFloat => "__div_float"@,
        Primitive::NegFloat => "__neg_float"@,
        Primitive::EqInt => "__eq_int"@,
        Primitive::NeqInt => "__neq_int"@,
        Primitive::LtInt => "__lt_int"@,
        Primitive::LeInt => "__le_int"@,
        Primitive::GtInt => "__gt_int"@,
        Primitive::GeInt => "__ge_int"@,
        Primitive::EqFloat => "__eq_float"@,
        Primitive::NeqFloat => "__neq_float"@,
        Primitive::LtFloat => "__lt_float"@,
        Primitive::LeFloat => "__le_float"@,
        Primitive::GtFloat => "__gt_float"@,
        Primitive::GeFloat => "__ge_float"@,
        Primitive::EqString => "__eq_string"@,
        Primitive::NeqString => "__neq_string"@,
        Primitive::LtString => "__lt_string"@,
        Primitive::LeString => "__le_string"@,
        Primitive::GtString => "__gt_string"@,
        Primitive::GeString => "__ge_string"@,
        Primitive::EqBool => "__eq_bool"@,
        Primitive::NeqBool => "__neq_bool"@,
        Primitive::EqChar => "__eq_char"@,
        Primitive::NeqChar => "__neq_char"@,
        Primitive::LtChar => "__lt_char"@,
        Primitive::LeChar => "__le_char"@,
        Primitive::GtChar => "__gt_char"@,
        Primitive::GeChar => "__ge_char"@,
        Primitive::Not => "__not"@,
        Primitive::And => "__and"@,
        Primitive::Or => "__or"@,
        Primitive::Concat => "__concat"@,
        Primitive::Cons => "__cons"@,
        Primitive::Append => "__append"@,
        Primitive::StringLength => "__string_length"@,
        Primitive::Substring => "__substring"@,
        Primitive::CharAt => "__char_at"@,
        Primitive::IntToFloat => "__int_to_float"@,
        Primitive::FloatToInt => "__float_to_int"@,
        Primitive::IntToString => "__int_to_string"@,
        Primitive::FloatToString => "__float_to_string"@,
        Primitive::CharToString => "__char_to_string"@,
        Primitive::CharToInt => "__char_to_int"@,
        Primitive::IntToChar => "__int_to_char"@,
        Primitive::BoolToString => "__bool_to_string"@,
        Primitive::StringIdentity => "__string_identity"@,
        Primitive::ListLength => "__list_length"@,
        Primitive::Print => "print"@,
        Primitive::PrintNoNewline => "__print_no_newline"@,
        Primitive::ReadLine => "readLine"@,
        Primitive::ReadFile => "readFile"@,
        Primitive::WriteFile => "writeFile"@,
        Primitive::GetEnv => "getEnv"@,
        Primitive::Assert => "__assert"@,
        Primitive::Panic => "panic"@,
    }
}

/// The number of arguments a primitive takes.
pub open spec fn primitive_arity(p: Primitive) -> usize {
    match p {
        Primitive::NegInt
            | Primitive::NegFloat
            | Primitive::Not
            | Primitive::StringLength
            | Primitive::IntToFloat
            | Primitive::FloatToInt
            | Primitive::IntToString
            | Primitive::FloatToString
            | Primitive::CharToString
            | Primitive::CharToInt
            | Primitive::IntToChar
            | Primitive::BoolToString
            | Primitive::StringIdentity
            | Primitive::ListLength
            | Primitive::Print
            | Primitive::PrintNoNewline
            | Primitive::ReadLine
            | Primitive::GetEnv
            | Primitive::ReadFile
            | Primitive::Panic => 1,
        Primitive::Substring => 3,
        _ => 2,
    }
}

impl Primitive {
    /// Get the name of this primitive.
    pub fn name(&self) -> (s: &'static str)
        ensures
            s@ == primitive_name(*self),
    {
        match self {
            Primitive::AddInt => "__add_int",
            Primitive::SubInt => "__sub_int",
            Primitive::MulInt => "__mul_int",
            Primitive::DivInt => "__div_int",
            Primitive::ModInt => "__mod_int",
            Primitive::NegInt => "__neg_int",
            Primitive::AddFloat => "__add_float",
            Primitive::SubFloat => "__sub_float",
            Primitive::MulFloat => "__mul_float",
            Primitive::DivFloat => "__div_float",
            Primitive::NegFloat => "__neg_float",
            Primitive::EqInt => "__eq_int",
            Primitive::NeqInt => "__neq_int",
            Primitive::LtInt => "__lt_int",
            Primitive::LeInt => "__le_int",
            Primitive::GtInt => "__gt_int",
            Primitive::GeInt => "__ge_int",
            Primitive::EqFloat => "__eq_float",
            Primitive::NeqFloat => "__neq_float",
            Primitive::LtFloat => "__lt_float",
            Primitive::LeFloat => "__le_float",
            Primitive::GtFloat => "__gt_float",
            Primitive::GeFloat => "__ge_float",
            Primitive::EqString => "__eq_string",
            Primitive::NeqString => "__neq_string",
            Primitive::LtString => "__lt_string",
            Primitive::LeString => "__le_string",
            Primitive::GtString => "__gt_string",
            Primitive::GeString => "__ge_string",
            Primitive::EqBool => "__eq_bool",
            Primitive::NeqBool => "__neq_bool",
            Primitive::EqChar => "__eq_char",
            Primitive::NeqChar => "__neq_char",
            Primitive::LtChar => "__lt_char",
            Primitive::LeChar => "__le_char",
            Primitive::GtChar => "__gt_char",
            Primitive::GeChar => "__ge_char",
            Primitive::Not => "__not",
            Primitive::And => "__and",
            Primitive::Or => "__or",
            Primitive::Concat => "__concat",
            Primitive::Cons => "__cons",
            Primitive::Append => "__append",
            Primitive::StringLength => "__string_length",
            Primitive::Substring => "__substring",
            Primitive::CharAt => "__char_at",
            Primitive::IntToFloat => "__int_to_float",
            Primitive::FloatToInt => "__float_to_int",
            Primitive::IntToString => "__int_to_string",
            Primitive::FloatToString => "__float_to_string",
            Primitive::CharToString => "__char_to_string",
            Primitive::CharToInt => "__char_to_int",
            Primitive::IntToChar => "__int_to_char",
            Primitive::BoolToString => "__bool_to_string",
            Primitive::StringIdentity => "__string_identity",
            Primitive::ListLength => "__list_length",
            Primitive::Print => "print",
            Primitive::PrintNoNewline => "__print_no_newline",
            Primitive::ReadLine => "readLine",
            Primitive::ReadFile => "readFile",
            Primitive::WriteFile => "writeFile",
            Primitive::GetEnv => "getEnv",
            Primitive::Assert => "__assert",
            Primitive::Panic => "panic",
        }
    }

    /// Get the arity of this primitive.
    pub fn arity(&self) -> (n: usize)
        ensures
            n == primitive_arity(*self),
    {
        match self {
            // Unary
            Primitive::NegInt
            | Primitive::NegFloat
            | Primitive::Not
            | Primitive::StringLength
            | Primitive::IntToFloat
            | Primitive::FloatToInt
            | Primitive::IntToString
            | Primitive::FloatToString
            | Primitive::CharToString
            | Primitive::CharToInt
            | Primitive::IntToChar
            | Primitive::BoolToString
            | Primitive::StringIdentity
            | Primitive::ListLength
            | Primitive::Print
            | Primitive::PrintNoNewline
            | Primitive::ReadLine
            | Primitive::GetEnv
            | Primitive::ReadFile
            | Primitive::Panic => 1,

            // Ternary
            Primitive::Substring => 3,

            // Binary (assert, write, comparisons and all the others)
            _ => 2,
        }
    }

    /// The name of the primitive, as a string.
    pub fn to_string(&self) -> (s: String)
        ensures
            s@ == primitive_name(*self),
    {
        let name = self.name();
        name.to_owned()
    }
}

} // verus!
