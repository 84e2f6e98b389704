//! Lexer for the Neap language
//!
//! Tokenizes source code into a stream of tokens, handling ML syntax
//! and shell-specific constructs.

use vstd::prelude::*;
use super::span::Span;
use super::token::{Tok, Token, TokenKind, chars_of, keyword_of};
use crate::text::{decimal, push_char, push_decimal, push_str};

verus! {

// ========== Errors ==========

/// Errors that can occur during lexing.
#[derive(Debug, Clone, PartialEq, Eq)]
pub enum LexerError {
    /// Unexpected character in input
    UnexpectedChar { ch: char, pos: usize },
    /// Unterminated string literal
    UnterminatedString { start: usize },
    /// Unterminated character literal
    UnterminatedChar { start: usize },
    /// Unterminated comment
    UnterminatedComment { start: usize },
    /// Invalid escape sequence
    InvalidEscape { ch: char, pos: usize },
    /// Invalid number literal
    InvalidNumber { pos: usize, reason: String },
    /// Empty character literal
    EmptyCharLiteral { pos: usize },
    /// Character literal with multiple characters
    MultiCharLiteral { pos: usize },
}

/// A lexer error as a value.
pub enum LexErr {
    UnexpectedChar { ch: char, pos: nat },
    UnterminatedString { start: nat },
    UnterminatedChar { start: nat },
    UnterminatedComment { start: nat },
    InvalidEscape { ch: char, pos: nat },
    InvalidNumber { pos: nat, reason: Seq<char> },
    EmptyCharLiteral { pos: nat },
    MultiCharLiteral { pos: nat },
}

impl View for LexerError {
    type V = LexErr;

    open spec fn view(&self) -> LexErr {
        match self {
            LexerError::UnexpectedChar { ch, pos } => LexErr::UnexpectedChar { ch: *ch, pos: *pos as nat },
            LexerError::UnterminatedString { start } => LexErr::UnterminatedString { start: *start as nat },
            LexerError::UnterminatedChar { start } => LexErr::UnterminatedChar { start: *start as nat },
            LexerError::UnterminatedComment { start } => LexErr::UnterminatedComment { start: *start as nat },
            LexerError::InvalidEscape { ch, pos } => LexErr::InvalidEscape { ch: *ch, pos: *pos as nat },
            LexerError::InvalidNumber { pos, reason } => LexErr::InvalidNumber { pos: *pos as nat, reason: reason@ },
            LexerError::EmptyCharLiteral { pos } => LexErr::EmptyCharLiteral { pos: *pos as nat },
            LexerError::MultiCharLiteral { pos } => LexErr::MultiCharLiteral { pos: *pos as nat },
        }
    }
}

/// The message of a lexer error.
pub open spec fn lex_error_text(e: LexErr) -> Seq<char> {
    match e {
        LexErr::UnexpectedChar { ch, pos } =>
            "unexpected character '"@ + seq![ch] + "' at position "@ + decimal(pos),
        LexErr::UnterminatedString { start } =>
            "unterminated string literal starting at position "@ + decimal(start),
        LexErr::UnterminatedChar { start } =>
            "unterminated character literal starting at position "@ + decimal(start),
        LexErr::UnterminatedComment { start } =>
            "unterminated comment starting at position "@ + decimal(start),
        LexErr::InvalidEscape { ch, pos } =>
            "invalid escape sequence '\\"@ + seq![ch] + "' at position "@ + decimal(pos),
        LexErr::InvalidNumber { pos, reason } =>
            "invalid number literal at position "@ + decimal(pos) + ": "@ + reason,
        LexErr::EmptyCharLiteral { pos } => "empty character literal at position "@ + decimal(pos),
        LexErr::MultiCharLiteral { pos } =>
            "character literal at position "@ + decimal(pos) + " contains multiple characters"@,
    }
}

impl LexerError {
    /// The message for this error.
    pub fn to_string(&self) -> (s: String)
        ensures
            s@ == lex_error_text(self@),
    {
        let mut s = String::new();
        match self {
            LexerError::UnexpectedChar { ch, pos } => {
                push_str(&mut s, "unexpected character '");
                push_char(&mut s, *ch);
                push_str(&mut s, "' at position ");
                push_decimal(&mut s, *pos as u64);
            },
            LexerError::UnterminatedString { start } => {
                push_str(&mut s, "unterminated string literal starting at position ");
                push_decimal(&mut s, *start as u64);
            },
            LexerError::UnterminatedChar { start } => {
                push_str(&mut s, "unterminated character literal starting at position ");
                push_decimal(&mut s, *start as u64);
            },
            LexerError::UnterminatedComment { start } => {
                push_str(&mut s, "unterminated comment starting at position ");
                push_decimal(&mut s, *start as u64);
            },
            LexerError::InvalidEscape { ch, pos } => {
                push_str(&mut s, "invalid escape sequence '\\");
                push_char(&mut s, *ch);
                push_str(&mut s, "' at position ");
                push_decimal(&mut s, *pos as u64);
            },
            LexerError::InvalidNumber { pos, reason } => {
                push_str(&mut s, "invalid number literal at position ");
                push_decimal(&mut s, *pos as u64);
                push_str(&mut s, ": ");
                push_str(&mut s, reason.as_str());
            },
            LexerError::EmptyCharLiteral { pos } => {
                push_str(&mut s, "empty character literal at position ");
                push_decimal(&mut s, *pos as u64);
            },
            LexerError::MultiCharLiteral { pos } => {
                push_str(&mut s, "character literal at position ");
                push_decimal(&mut s, *pos as u64);
                push_str(&mut s, " contains multiple characters");
            },
        }
        s
    }
}

// ========== Characters ==========

pub open spec fn is_digit(c: char) -> bool {
    '0' <= c <= '9'
}

pub open spec fn is_upper(c: char) -> bool {
    'A' <= c <= 'Z'
}

pub open spec fn is_alpha(c: char) -> bool {
    'a' <= c <= 'z' || is_upper(c)
}

pub open spec fn is_alnum(c: char) -> bool {
    is_alpha(c) || is_digit(c)
}

pub open spec fn is_hex(c: char) -> bool {
    is_digit(c) || 'a' <= c <= 'f' || 'A' <= c <= 'F'
}

/// The characters with the Unicode `White_Space` property.
pub open spec fn is_white_space(c: char) -> bool {
    ||| '\u{9}' <= c <= '\u{d}'
    ||| c == ' '
    ||| c == '\u{85}'
    ||| c == '\u{a0}'
    ||| c == '\u{1680}'
    ||| '\u{2000}' <= c <= '\u{200a}'
    ||| c == '\u{2028}'
    ||| c == '\u{2029}'
    ||| c == '\u{202f}'
    ||| c == '\u{205f}'
    ||| c == '\u{3000}'
}

/// The classes of characters that the lexer gathers into runs.
#[derive(Clone, Copy)]
pub enum Class {
    /// Characters of an identifier: letters, digits, `_` and `'`
    Ident,
    /// Characters of a type variable's name: letters, digits and `_`
    TyVarName,
    /// Decimal digits and `_`
    Decimal,
    /// Hexadecimal digits and `_`
    Hex,
    /// Binary digits and `_`
    Binary,
    /// Octal digits and `_`
    Octal,
    /// Decimal digits
    Digit,
    /// White space
    White,
}

pub open spec fn in_class(cl: Class, c: char) -> bool {
    match cl {
        Class::Ident => is_alnum(c) || c == '_' || c == '\'',
        Class::TyVarName => is_alnum(c) || c == '_',
        Class::Decimal => is_digit(c) || c == '_',
        Class::Hex => is_hex(c) || c == '_',
        Class::Binary => c == '0' || c == '1' || c == '_',
        Class::Octal => '0' <= c <= '7' || c == '_',
        Class::Digit => is_digit(c),
        Class::White => is_white_space(c),
    }
}

pub(crate) fn in_class_exec(cl: Class, c: char) -> (b: bool)
    ensures
        b == in_class(cl, c),
{
    match cl {
        Class::Ident => ('a' <= c && c <= 'z') || ('A' <= c && c <= 'Z') || ('0' <= c && c <= '9') || c == '_' || c == '\'',
        Class::TyVarName => ('a' <= c && c <= 'z') || ('A' <= c && c <= 'Z') || ('0' <= c && c <= '9') || c == '_',
        Class::Decimal => ('0' <= c && c <= '9') || c == '_',
        Class::Hex => ('0' <= c && c <= '9') || ('a' <= c && c <= 'f') || ('A' <= c && c <= 'F') || c == '_',
        Class::Binary => c == '0' || c == '1' || c == '_',
        Class::Octal => ('0' <= c && c <= '7') || c == '_',
        Class::Digit => '0' <= c && c <= '9',
        Class::White => {
            ('\u{9}' <= c && c <= '\u{d}') || c == ' ' || c == '\u{85}' || c == '\u{a0}' || c == '\u{1680}'
                || ('\u{2000}' <= c && c <= '\u{200a}') || c == '\u{2028}' || c == '\u{2029}' || c == '\u{202f}'
                || c == '\u{205f}' || c == '\u{3000}'
        },
    }
}

/// The number of bytes of a character in UTF-8.
pub open spec fn char_len(c: char) -> nat {
    if (c as u32) < 0x80 {
        1
    } else if (c as u32) < 0x800 {
        2
    } else if (c as u32) < 0x10000 {
        3
    } else {
        4
    }
}

fn char_len_exec(c: char) -> (n: usize)
    ensures
        n == char_len(c),
{
    let code = c as u32;
    if code < 0x80 {
        1
    } else if code < 0x800 {
        2
    } else if code < 0x10000 {
        3
    } else {
        4
    }
}

/// The number of bytes of a character sequence in UTF-8.
pub open spec fn utf8_len(s: Seq<char>) -> nat
    decreases s.len(),
{
    if s.len() == 0 {
        0
    } else {
        utf8_len(s.drop_last()) + char_len(s.last())
    }
}

/// The byte offset of the `i`-th character.
pub open spec fn bpos(cs: Seq<char>, i: int) -> nat {
    utf8_len(cs.take(i))
}

pub proof fn lemma_bpos_step(cs: Seq<char>, i: int)
    requires
        0 <= i < cs.len(),
    ensures
        bpos(cs, i + 1) == bpos(cs, i) + char_len(cs[i]),
{
    assert(cs.take(i + 1).drop_last() =~= cs.take(i));
}

pub proof fn lemma_bpos_mono(cs: Seq<char>, i: int, j: int)
    requires
        0 <= i <= j <= cs.len(),
    ensures
        bpos(cs, i) <= bpos(cs, j),
    decreases j - i,
{
    if i < j {
        lemma_bpos_mono(cs, i, j - 1);
        lemma_bpos_step(cs, j - 1);
    }
}

pub proof fn lemma_bpos_end(cs: Seq<char>)
    ensures
        bpos(cs, cs.len() as int) == utf8_len(cs),
{
    assert(cs.take(cs.len() as int) =~= cs);
}

// ========== The grammar of tokens ==========

/// The character at `i`, if there is one.
pub open spec fn at(cs: Seq<char>, i: int) -> Option<char> {
    if 0 <= i < cs.len() { Some(cs[i]) } else { None }
}

/// The length of the longest run of characters of a class starting at `i`.
pub open spec fn run_len(cs: Seq<char>, i: int, cl: Class) -> nat
    decreases cs.len() - i,
{
    if 0 <= i < cs.len() && in_class(cl, cs[i]) {
        1 + run_len(cs, i + 1, cl)
    } else {
        0
    }
}

/// The characters of a sequence other than `_`.
pub open spec fn without_underscores(s: Seq<char>) -> Seq<char>
    decreases s.len(),
{
    if s.len() == 0 {
        s
    } else {
        let rest = without_underscores(s.drop_last());
        if s.last() == '_' { rest } else { rest.push(s.last()) }
    }
}

/// Whether the text at `i` begins with `lit`.
pub open spec fn starts_with(cs: Seq<char>, i: int, lit: Seq<char>) -> bool {
    0 <= i && i + lit.len() <= cs.len() && cs.subrange(i, i + lit.len()) == lit
}

/// The value of a digit in the given radix.
pub open spec fn digit_value(c: char) -> nat {
    if is_digit(c) {
        (c as u32 - '0' as u32) as nat
    } else if 'a' <= c <= 'f' {
        (c as u32 - 'a' as u32 + 10) as nat
    } else {
        (c as u32 - 'A' as u32 + 10) as nat
    }
}

/// The number denoted by a sequence of digits in a radix, most significant first.
pub open spec fn digits_value(s: Seq<char>, radix: nat) -> nat
    decreases s.len(),
{
    if s.len() == 0 {
        0
    } else {
        digits_value(s.drop_last(), radix) * radix + digit_value(s.last())
    }
}

/// The state of a lexer: where it is, and whether it is inside a command.
pub struct LexState {
    /// The index of the next character
    pub idx: int,
    /// Whether we're inside a command (between backticks)
    pub in_command: bool,
    /// Depth of braces for interpolation (0 = not in interpolation)
    pub brace_depth: nat,
}

/// What one step of the lexer gives: a token or an error, and the state after it.
pub type StepV = (Result<(Tok, Span), LexErr>, LexState);

pub open spec fn at_idx(st: LexState, i: int) -> LexState {
    LexState { idx: i, ..st }
}

pub open spec fn span_of(cs: Seq<char>, i: int, j: int) -> Span {
    Span { start: bpos(cs, i) as usize, end: bpos(cs, j) as usize }
}

/// Skipping a nested comment whose body starts at `j`, `depth` levels deep: the index
/// after it, or `Err` with the end of the input.
pub open spec fn comment_end(cs: Seq<char>, j: int, depth: nat) -> Result<int, int>
    decreases cs.len() - j, depth,
{
    if depth == 0 {
        Ok(j)
    } else if !(0 <= j < cs.len()) {
        Err(j)
    } else if starts_with(cs, j, seq!['(', '*']) {
        comment_end(cs, j + 2, depth + 1)
    } else if starts_with(cs, j, seq!['*', ')']) {
        comment_end(cs, j + 2, (depth - 1) as nat)
    } else {
        comment_end(cs, j + 1, depth)
    }
}

/// Skipping white space and comments from `i`: the index of the next token, or the
/// start of an unterminated comment and the index where the input ended.
pub open spec fn skip_blank(cs: Seq<char>, i: int) -> Result<int, (nat, int)>
    decreases cs.len() - i,
{
    let j = i + run_len(cs, i, Class::White);
    if starts_with(cs, j, seq!['(', '*']) {
        match comment_end(cs, j + 2, 1) {
            Err(e) => Err((bpos(cs, j), e)),
            Ok(k) => if i < k <= cs.len() { skip_blank(cs, k) } else { Ok(k) },
        }
    } else {
        Ok(j)
    }
}

/// The kind of an identifier or keyword.
pub open spec fn word_kind(text: Seq<char>) -> Tok {
    match keyword_of(text) {
        Some(k) => k,
        None => if is_upper(text[0]) { Tok::UpperIdent(text) } else { Tok::Ident(text) },
    }
}

/// The character an escape sequence stands for.
pub open spec fn escaped(c: char) -> Option<char> {
    if c == 'n' { Some('\n') }
    else if c == 'r' { Some('\r') }
    else if c == 't' { Some('\t') }
    else if c == '\\' { Some('\\') }
    else if c == '"' { Some('"') }
    else if c == '\'' { Some('\'') }
    else if c == '0' { Some('\0') }
    else { None }
}

/// An escape sequence whose letter is at `i`: the character and the index after it,
/// or the error and the index where lexing stopped.
pub open spec fn escape_at(cs: Seq<char>, i: int) -> (Result<char, LexErr>, int) {
    match at(cs, i) {
        None => (Err(LexErr::InvalidEscape { ch: ' ', pos: bpos(cs, i) }), i),
        Some(c) => match escaped(c) {
            Some(e) => (Ok(e), i + 1),
            None => (Err(LexErr::InvalidEscape { ch: c, pos: bpos(cs, i) }), i + 1),
        },
    }
}

/// The rest of a string literal from `i`, `acc` read so far: its text and the index
/// after the closing quote, or the error and the index where lexing stopped.
pub open spec fn string_body(cs: Seq<char>, i: int, acc: Seq<char>, start: nat) -> (Result<Seq<char>, LexErr>, int)
    decreases cs.len() - i,
{
    if !(0 <= i < cs.len()) {
        (Err(LexErr::UnterminatedString { start }), i)
    } else if cs[i] == '"' {
        (Ok(acc), i + 1)
    } else if cs[i] == '\\' {
        match escape_at(cs, i + 1) {
            (Err(e), k) => (Err(e), k),
            (Ok(c), k) => string_body(cs, k, acc.push(c), start),
        }
    } else {
        string_body(cs, i + 1, acc.push(cs[i]), start)
    }
}

/// The text of a command from `i`, `acc` read so far, up to a backtick, a brace or the
/// end of the input: the text and the index where it stops.
pub open spec fn command_body(cs: Seq<char>, i: int, acc: Seq<char>) -> (Seq<char>, int)
    decreases cs.len() - i,
{
    if !(0 <= i < cs.len()) || cs[i] == '`' || cs[i] == '{' {
        (acc, i)
    } else if cs[i] == '\\' {
        match at(cs, i + 1) {
            None => (acc, i + 1),
            Some(n) => if n == '`' || n == '{' || n == '\\' {
                command_body(cs, i + 2, acc.push(n))
            } else {
                command_body(cs, i + 1, acc.push('\\'))
            },
        }
    } else {
        command_body(cs, i + 1, acc.push(cs[i]))
    }
}

/// An exponent part at `m`, if any: `e`, the sign and the digits, and the index after it.
pub open spec fn exponent_at(cs: Seq<char>, m: int) -> (Seq<char>, int, bool) {
    if at(cs, m) == Some('e') || at(cs, m) == Some('E') {
        let signed = at(cs, m + 1) == Some('+') || at(cs, m + 1) == Some('-');
        let d = if signed { m + 2 } else { m + 1 };
        let n = run_len(cs, d, Class::Digit);
        let sign = if signed { seq![cs[m + 1]] } else { Seq::empty() };
        (seq!['e'] + sign + cs.subrange(d, d + n), d + n, n > 0)
    } else {
        (Seq::empty(), m, true)
    }
}

/// A prefixed integer (`0x`, `0b`, `0o`) starting at `j`.
pub open spec fn radix_number(cs: Seq<char>, j: int, cl: Class, radix: nat, prefix: Seq<char>) -> (Result<Tok, LexErr>, int) {
    let n = run_len(cs, j + 2, cl);
    let digits = without_underscores(cs.subrange(j + 2, j + 2 + n));
    let end = j + 2 + n;
    let radix_name = if radix == 16 { "hex"@ } else if radix == 2 { "binary"@ } else { "octal"@ };
    if digits.len() == 0 {
        (Err(LexErr::InvalidNumber { pos: bpos(cs, j), reason: "expected "@ + radix_name + " digits after "@ + prefix }), end)
    } else if digits_value(digits, radix) > i64::MAX {
        (Err(LexErr::InvalidNumber { pos: bpos(cs, j), reason: "invalid "@ + radix_name + " literal: "@ + prefix + digits }), end)
    } else {
        (Ok(Tok::Int(digits_value(digits, radix) as i64)), end)
    }
}

/// A number starting at `j` (a digit).
pub open spec fn number_at(cs: Seq<char>, j: int) -> (Result<Tok, LexErr>, int) {
    if cs[j] == '0' && (at(cs, j + 1) == Some('x') || at(cs, j + 1) == Some('X')) {
        radix_number(cs, j, Class::Hex, 16, "0x"@)
    } else if cs[j] == '0' && (at(cs, j + 1) == Some('b') || at(cs, j + 1) == Some('B')) {
        radix_number(cs, j, Class::Binary, 2, "0b"@)
    } else if cs[j] == '0' && (at(cs, j + 1) == Some('o') || at(cs, j + 1) == Some('O')) {
        radix_number(cs, j, Class::Octal, 8, "0o"@)
    } else {
        let n1 = run_len(cs, j, Class::Decimal);
        let int_digits = without_underscores(cs.subrange(j, j + n1));
        let k = j + n1;
        let is_float = at(cs, k) == Some('.') && (at(cs, k + 1) matches Some(d) && is_digit(d));
        if is_float {
            let n2 = run_len(cs, k + 1, Class::Decimal);
            let frac = without_underscores(cs.subrange(k + 1, k + 1 + n2));
            let (exp, end, ok) = exponent_at(cs, k + 1 + n2);
            let text = int_digits + seq!['.'] + frac + exp;
            if ok {
                (Ok(Tok::Float(text)), end)
            } else {
                (Err(LexErr::InvalidNumber { pos: bpos(cs, j), reason: "invalid "@ + "float"@ + " literal: "@ + text }), end)
            }
        } else if at(cs, k) == Some('e') || at(cs, k) == Some('E') {
            let (exp, end, ok) = exponent_at(cs, k);
            let text = int_digits + exp;
            if ok {
                (Ok(Tok::Float(text)), end)
            } else {
                (Err(LexErr::InvalidNumber { pos: bpos(cs, j), reason: "invalid "@ + "float"@ + " literal: "@ + text }), end)
            }
        } else if digits_value(int_digits, 10) > i64::MAX {
            (Err(LexErr::InvalidNumber { pos: bpos(cs, j), reason: "invalid "@ + "integer"@ + " literal: "@ + int_digits }), k)
        } else {
            (Ok(Tok::Int(digits_value(int_digits, 10) as i64)), k)
        }
    }
}

/// A character literal starting at `j` (`#"`).
pub open spec fn char_literal_at(cs: Seq<char>, j: int) -> (Result<Tok, LexErr>, int) {
    let k = j + 2;
    let start = bpos(cs, j);
    match at(cs, k) {
        None => (Err(LexErr::UnterminatedChar { start }), k),
        Some(c) => if c == '"' {
            (Err(LexErr::EmptyCharLiteral { pos: start }), k)
        } else {
            let (r, m) = if c == '\\' { escape_at(cs, k + 1) } else { (Ok(c), k + 1) };
            match r {
                Err(e) => (Err(e), m),
                Ok(ch) => match at(cs, m) {
                    Some(q) => if q == '"' {
                        (Ok(Tok::Char(ch)), m + 1)
                    } else {
                        (Err(LexErr::MultiCharLiteral { pos: start }), m)
                    },
                    None => (Err(LexErr::UnterminatedChar { start }), m),
                },
            }
        },
    }
}

/// The operator of two or three characters at `j`, if any, and its length.
pub open spec fn long_operator(cs: Seq<char>, j: int) -> Option<(Tok, int)> {
    if starts_with(cs, j, seq!['.', '.', '.']) { Some((Tok::Ellipsis, 3)) }
    else if starts_with(cs, j, seq!['|', '>']) { Some((Tok::Pipe, 2)) }
    else if starts_with(cs, j, seq!['>', '>']) { Some((Tok::GtGt, 2)) }
    else if starts_with(cs, j, seq!['>', '=']) { Some((Tok::Ge, 2)) }
    else if starts_with(cs, j, seq!['<', '=']) { Some((Tok::Le, 2)) }
    else if starts_with(cs, j, seq!['!', '=']) { Some((Tok::Neq, 2)) }
    else if starts_with(cs, j, seq!['<', '-']) { Some((Tok::LeftArrow, 2)) }
    else if starts_with(cs, j, seq!['-', '>']) { Some((Tok::Arrow, 2)) }
    else if starts_with(cs, j, seq!['=', '>']) { Some((Tok::FatArrow, 2)) }
    else if starts_with(cs, j, seq![':', ':']) { Some((Tok::ColonColon, 2)) }
    else if starts_with(cs, j, seq![':', '=']) { Some((Tok::ColonEq, 2)) }
    else if starts_with(cs, j, seq!['&', '&']) { Some((Tok::AndAlso, 2)) }
    else if starts_with(cs, j, seq!['|', '|']) { Some((Tok::OrElse, 2)) }
    else if starts_with(cs, j, seq!['+', '+']) { Some((Tok::PlusPlus, 2)) }
    else if starts_with(cs, j, seq!['=', '=']) { Some((Tok::EqEq, 2)) }
    else { None }
}

/// The token of a single punctuation character, other than backtick and braces.
pub open spec fn punct(c: char) -> Option<Tok> {
    if c == '(' { Some(Tok::LParen) }
    else if c == ')' { Some(Tok::RParen) }
    else if c == '[' { Some(Tok::LBracket) }
    else if c == ']' { Some(Tok::RBracket) }
    else if c == ',' { Some(Tok::Comma) }
    else if c == ';' { Some(Tok::Semi) }
    else if c == ':' { Some(Tok::Colon) }
    else if c == '|' { Some(Tok::Bar) }
    else if c == '.' { Some(Tok::Dot) }
    else if c == '+' { Some(Tok::Plus) }
    else if c == '-' { Some(Tok::Minus) }
    else if c == '*' { Some(Tok::Star) }
    else if c == '/' { Some(Tok::Slash) }
    else if c == '%' { Some(Tok::Percent) }
    else if c == '=' { Some(Tok::Eq) }
    else if c == '<' { Some(Tok::Lt) }
    else if c == '>' { Some(Tok::Gt) }
    else if c == '^' { Some(Tok::Caret) }
    else if c == '@' { Some(Tok::At) }
    else if c == '!' { Some(Tok::Bang) }
    else if c == '$' { Some(Tok::Dollar) }
    else { None }
}

/// An operator or punctuation at `j` (there is a character there).
pub open spec fn operator_at(cs: Seq<char>, st: LexState) -> StepV {
    let j = st.idx;
    match long_operator(cs, j) {
        Some((k, n)) => (Ok((k, span_of(cs, j, j + n))), at_idx(st, j + n)),
        None => {
            let c = cs[j];
            if c == '`' {
                (Ok((Tok::Backtick, span_of(cs, j, j + 1))), LexState { idx: j + 1, in_command: true, ..st })
            } else if c == '{' {
                let depth = if st.in_command { st.brace_depth + 1 } else { st.brace_depth };
                (Ok((Tok::LBrace, span_of(cs, j, j + 1))), LexState { idx: j + 1, brace_depth: depth, ..st })
            } else if c == '}' {
                let depth = if st.in_command && st.brace_depth > 0 { (st.brace_depth - 1) as nat } else { st.brace_depth };
                (Ok((Tok::RBrace, span_of(cs, j, j + 1))), LexState { idx: j + 1, brace_depth: depth, ..st })
            } else {
                match punct(c) {
                    Some(k) => (Ok((k, span_of(cs, j, j + 1))), at_idx(st, j + 1)),
                    None => (Err(LexErr::UnexpectedChar { ch: c, pos: bpos(cs, j) }), st),
                }
            }
        },
    }
}

/// A token read in command mode (inside backticks, outside an interpolation).
pub open spec fn command_step(cs: Seq<char>, st: LexState) -> StepV {
    let i = st.idx;
    match at(cs, i) {
        None => (Ok((Tok::Eof, span_of(cs, i, i))), st),
        Some(c) => if c == '`' {
            (Ok((Tok::Backtick, span_of(cs, i, i + 1))), LexState { idx: i + 1, in_command: false, ..st })
        } else if c == '{' {
            (Ok((Tok::LBrace, span_of(cs, i, i + 1))), LexState { idx: i + 1, brace_depth: 1, ..st })
        } else {
            let (text, end) = command_body(cs, i, Seq::empty());
            (Ok((Tok::CommandText(text), span_of(cs, i, end))), at_idx(st, end))
        },
    }
}

/// A token read at `j`, the first character that is neither blank nor in a comment.
pub open spec fn token_at(cs: Seq<char>, st: LexState) -> StepV {
    let j = st.idx;
    if !(0 <= j < cs.len()) {
        (Ok((Tok::Eof, span_of(cs, j, j))), st)
    } else {
        let first = cs[j];
        if first == '_' && !(at(cs, j + 1) matches Some(n) && (is_alnum(n) || n == '_')) {
            (Ok((Tok::Underscore, span_of(cs, j, j + 1))), at_idx(st, j + 1))
        } else if is_alpha(first) || first == '_' {
            let n = run_len(cs, j, Class::Ident);
            (Ok((word_kind(cs.subrange(j, j + n)), span_of(cs, j, j + n))), at_idx(st, j + n))
        } else if first == '\'' {
            let n = run_len(cs, j + 1, Class::TyVarName);
            (Ok((Tok::TyVar(cs.subrange(j + 1, j + 1 + n)), span_of(cs, j, j + 1 + n))), at_idx(st, j + 1 + n))
        } else if is_digit(first) {
            let (r, end) = number_at(cs, j);
            match r {
                Ok(k) => (Ok((k, span_of(cs, j, end))), at_idx(st, end)),
                Err(e) => (Err(e), at_idx(st, end)),
            }
        } else if first == '"' {
            let (r, end) = string_body(cs, j + 1, Seq::empty(), bpos(cs, j));
            match r {
                Ok(text) => (Ok((Tok::String(text), span_of(cs, j, end))), at_idx(st, end)),
                Err(e) => (Err(e), at_idx(st, end)),
            }
        } else if first == '#' && at(cs, j + 1) == Some('"') {
            let (r, end) = char_literal_at(cs, j);
            match r {
                Ok(k) => (Ok((k, span_of(cs, j, end))), at_idx(st, end)),
                Err(e) => (Err(e), at_idx(st, end)),
            }
        } else {
            operator_at(cs, st)
        }
    }
}

/// One step of the lexer from a state: the next token, or the error that stops it.
#[verifier::opaque]
pub open spec fn lex_step(cs: Seq<char>, st: LexState) -> StepV {
    if st.in_command && st.brace_depth == 0 {
        command_step(cs, st)
    } else {
        match skip_blank(cs, st.idx) {
            Err((start, end)) => (Err(LexErr::UnterminatedComment { start }), at_idx(st, end)),
            Ok(j) => token_at(cs, at_idx(st, j)),
        }
    }
}

/// The tokens of the input from a state up to and including the end-of-file token,
/// or the first error.
pub open spec fn lex_from(cs: Seq<char>, st: LexState) -> Result<Seq<(Tok, Span)>, LexErr>
    decreases cs.len() - st.idx,
{
    let (r, next) = lex_step(cs, st);
    match r {
        Err(e) => Err(e),
        Ok(t) => if t.0 == Tok::Eof {
            Ok(seq![t])
        } else if st.idx < next.idx <= cs.len() {
            match lex_from(cs, next) {
                Ok(rest) => Ok(seq![t] + rest),
                Err(e) => Err(e),
            }
        } else {
            Ok(seq![t])
        },
    }
}

/// The state of a lexer at the start of an input.
pub open spec fn initial_state() -> LexState {
    LexState { idx: 0, in_command: false, brace_depth: 0 }
}


// ========== The lexer ==========

impl View for Token {
    type V = (Tok, Span);

    open spec fn view(&self) -> (Tok, Span) {
        (self.kind@, self.span)
    }
}

/// A lexer result as a value.
pub open spec fn result_view(r: Result<Token, LexerError>) -> Result<(Tok, Span), LexErr> {
    match r {
        Ok(t) => Ok(t@),
        Err(e) => Err(e@),
    }
}

/// The Neap lexer.
///
/// Tokenizes source code into a stream of tokens.
pub struct Lexer {
    /// The characters of the source code
    chars: Vec<char>,
    /// The index of the next character
    idx: usize,
    /// Current byte position in source
    pos: usize,
    /// Whether we're inside a command (between backticks)
    in_command: bool,
    /// Depth of braces for interpolation (0 = not in interpolation)
    brace_depth: usize,
}

fn string_from(cs: &Vec<char>) -> (s: String)
    ensures
        s@ == cs@,
{
    let mut s = String::new();
    let mut i: usize = 0;
    while i < cs.len()
        invariant
            i <= cs@.len(),
            s@ == cs@.take(i as int),
        decreases cs.len() - i,
    {
        push_char(&mut s, cs[i]);
        i += 1;
        assert(s@ =~= cs@.take(i as int));
    }
    assert(cs@.take(i as int) =~= cs@);
    s
}

pub proof fn lemma_run_len_bound(cs: Seq<char>, i: int, cl: Class)
    requires
        0 <= i <= cs.len(),
    ensures
        i + run_len(cs, i, cl) <= cs.len(),
    decreases cs.len() - i,
{
    if i < cs.len() && in_class(cl, cs[i]) {
        lemma_run_len_bound(cs, i + 1, cl);
    }
}

impl Lexer {
    /// The characters of the source code.
    pub closed spec fn source(&self) -> Seq<char> {
        self.chars@
    }

    /// Where the lexer is.
    pub closed spec fn state(&self) -> LexState {
        LexState { idx: self.idx as int, in_command: self.in_command, brace_depth: self.brace_depth as nat }
    }

    /// The lexer's position and counters agree with its source.
    pub closed spec fn wf(&self) -> bool {
        &&& self.idx <= self.chars@.len()
        &&& self.pos == bpos(self.chars@, self.idx as int)
        &&& utf8_len(self.chars@) <= usize::MAX
        &&& self.brace_depth <= self.idx
    }

    proof fn lemma_pos(&self, i: int)
        requires
            self.wf(),
            0 <= i <= self.chars@.len(),
        ensures
            bpos(self.chars@, i) <= usize::MAX,
            span_of(self.chars@, self.idx as int, i).start == self.pos,
            span_of(self.chars@, i, i).start == bpos(self.chars@, i),
    {
        lemma_bpos_mono(self.chars@, i, self.chars@.len() as int);
        lemma_bpos_end(self.chars@);
        lemma_bpos_mono(self.chars@, self.idx as int, self.chars@.len() as int);
    }

    /// Create a new lexer for the given source code.
    pub fn new(source: &str) -> (l: Self)
        requires
            utf8_len(source@) <= usize::MAX,
        ensures
            l.wf(),
            l.source() == source@,
            l.state() == initial_state(),
    {
        let chars = chars_of(source);
        assert(chars@.take(0) =~= Seq::<char>::empty());
        Lexer { chars, idx: 0, pos: 0, in_command: false, brace_depth: 0 }
    }

    /// Peek at the current character without consuming it.
    fn peek_char(&self) -> (r: Option<char>)
        requires
            self.wf(),
        ensures
            r == at(self.source(), self.state().idx),
    {
        if self.idx < self.chars.len() {
            Some(self.chars[self.idx])
        } else {
            None
        }
    }

    /// Peek at the character at a given offset.
    fn peek_char_at(&self, offset: usize) -> (r: Option<char>)
        requires
            self.wf(),
        ensures
            r == at(self.source(), self.state().idx + offset),
    {
        if offset < self.chars.len() - self.idx {
            Some(self.chars[self.idx + offset])
        } else {
            None
        }
    }

    /// Advance to the next character.
    fn advance(&mut self)
        requires
            old(self).wf(),
            old(self).state().idx < old(self).source().len(),
        ensures
            final(self).wf(),
            final(self).source() == old(self).source(),
            final(self).state() == at_idx(old(self).state(), old(self).state().idx + 1),
    {
        proof {
            lemma_bpos_step(self.chars@, self.idx as int);
            self.lemma_pos(self.idx + 1);
        }
        let n = self.chars.len();
        let len = char_len_exec(self.chars[self.idx]);
        self.pos = self.pos + len;
        self.idx = self.idx + 1;
    }

    /// Whether the remaining input starts with `lit`.
    fn starts_with(&self, lit: &[char]) -> (b: bool)
        requires
            self.wf(),
        ensures
            b == starts_with(self.source(), self.state().idx, lit@),
    {
        let n = self.chars.len();
        if lit.len() > n - self.idx {
            return false;
        }
        let mut k: usize = 0;
        while k < lit.len()
            invariant
                n == self.chars@.len(),
                k <= lit@.len(),
                self.idx + lit@.len() <= self.chars@.len(),
                forall|m: int| 0 <= m < k ==> self.chars@[self.idx + m] == lit@[m],
            decreases lit.len() - k,
        {
            if self.chars[self.idx + k] != lit[k] {
                assert(self.chars@.subrange(self.idx as int, self.idx + lit@.len())[k as int] != lit@[k as int]);
                return false;
            }
            k += 1;
        }
        assert(self.chars@.subrange(self.idx as int, self.idx + lit@.len()) =~= lit@);
        true
    }

    /// Advance over the longest run of characters of a class.
    fn skip_run(&mut self, cl: Class) -> (n: usize)
        requires
            old(self).wf(),
        ensures
            final(self).wf(),
            final(self).source() == old(self).source(),
            n == run_len(old(self).source(), old(self).state().idx, cl),
            final(self).state() == at_idx(old(self).state(), old(self).state().idx + n),
    {
        let ghost cs = self.chars@;
        let ghost st = self.state();
        let start = self.idx;
        while self.idx < self.chars.len() && in_class_exec(cl, self.chars[self.idx])
            invariant
                self.wf(),
                self.chars@ == cs,
                start <= self.idx,
                self.in_command == st.in_command,
                self.brace_depth == st.brace_depth,
                run_len(cs, start as int, cl) == (self.idx - start) + run_len(cs, self.idx as int, cl),
            decreases self.chars.len() - self.idx,
        {
            self.advance();
        }
        (self.idx - start) as usize
    }

    /// Advance over the longest run of characters of a class, appending those other
    /// than `_` to `out`.
    fn take_run(&mut self, cl: Class, out: &mut Vec<char>)
        requires
            old(self).wf(),
        ensures
            final(self).wf(),
            final(self).source() == old(self).source(),
            final(self).state() == at_idx(old(self).state(), old(self).state().idx + run_len(old(self).source(), old(self).state().idx, cl)),
            final(out)@ == old(out)@ + without_underscores(old(self).source().subrange(
                old(self).state().idx,
                old(self).state().idx + run_len(old(self).source(), old(self).state().idx, cl),
            )),
    {
        let ghost cs = self.chars@;
        let ghost st = self.state();
        let ghost out0 = out@;
        let start = self.idx;
        proof {
            assert(cs.subrange(start as int, start as int) =~= Seq::<char>::empty());
            assert(out0 + without_underscores(Seq::<char>::empty()) =~= out0);
        }
        while self.idx < self.chars.len() && in_class_exec(cl, self.chars[self.idx])
            invariant
                self.wf(),
                self.chars@ == cs,
                start <= self.idx,
                self.in_command == st.in_command,
                self.brace_depth == st.brace_depth,
                run_len(cs, start as int, cl) == (self.idx - start) + run_len(cs, self.idx as int, cl),
                out@ == out0 + without_underscores(cs.subrange(start as int, self.idx as int)),
            decreases self.chars.len() - self.idx,
        {
            let c = self.chars[self.idx];
            let ghost before = out@;
            if c != '_' {
                out.push(c);
            }
            proof {
                assert(cs.subrange(start as int, self.idx + 1).drop_last() =~= cs.subrange(start as int, self.idx as int));
                assert(cs.subrange(start as int, self.idx + 1).last() == c);
                if c != '_' {
                    assert(out@ =~= before.push(c));
                }
            }
            self.advance();
        }
    }

    /// Advance over the longest run of identifier-like characters, giving them back.
    fn take_word(&mut self, cl: Class) -> (w: Vec<char>)
        requires
            old(self).wf(),
        ensures
            final(self).wf(),
            final(self).source() == old(self).source(),
            final(self).state() == at_idx(old(self).state(), old(self).state().idx + run_len(old(self).source(), old(self).state().idx, cl)),
            w@ == old(self).source().subrange(
                old(self).state().idx,
                old(self).state().idx + run_len(old(self).source(), old(self).state().idx, cl),
            ),
    {
        let ghost cs = self.chars@;
        let ghost st = self.state();
        let start = self.idx;
        let mut w: Vec<char> = Vec::new();
        while self.idx < self.chars.len() && in_class_exec(cl, self.chars[self.idx])
            invariant
                self.wf(),
                self.chars@ == cs,
                start <= self.idx,
                self.in_command == st.in_command,
                self.brace_depth == st.brace_depth,
                run_len(cs, start as int, cl) == (self.idx - start) + run_len(cs, self.idx as int, cl),
                w@ == cs.subrange(start as int, self.idx as int),
            decreases self.chars.len() - self.idx,
        {
            w.push(self.chars[self.idx]);
            self.advance();
            assert(w@ =~= cs.subrange(start as int, self.idx as int));
        }
        w
    }
}


pub proof fn lemma_comment_end(cs: Seq<char>, j: int, depth: nat)
    requires
        0 <= j <= cs.len(),
    ensures
        match comment_end(cs, j, depth) {
            Ok(k) => j <= k <= cs.len(),
            Err(e) => e == cs.len(),
        },
    decreases cs.len() - j, depth,
{
    if depth == 0 {
    } else if !(0 <= j < cs.len()) {
    } else if starts_with(cs, j, seq!['(', '*']) {
        lemma_comment_end(cs, j + 2, depth + 1);
    } else if starts_with(cs, j, seq!['*', ')']) {
        lemma_comment_end(cs, j + 2, (depth - 1) as nat);
    } else {
        lemma_comment_end(cs, j + 1, depth);
    }
}

impl Lexer {
    /// Skip an ML-style nested comment.
    #[verifier::loop_isolation(false)]
    fn skip_comment(&mut self) -> (r: Result<(), LexerError>)
        requires
            old(self).wf(),
            starts_with(old(self).source(), old(self).state().idx, seq!['(', '*']),
        ensures
            final(self).wf(),
            final(self).source() == old(self).source(),
            match comment_end(old(self).source(), old(self).state().idx + 2, 1) {
                Ok(k) => r is Ok && final(self).state() == at_idx(old(self).state(), k),
                Err(e) => (r matches Err(err) && err@ == LexErr::UnterminatedComment { start: bpos(old(self).source(), old(self).state().idx) })
                    && final(self).state() == at_idx(old(self).state(), e),
            },
    {
        let ghost cs = self.chars@;
        let ghost st = self.state();
        let start = self.pos;
        self.advance(); // (
        self.advance(); // *
        let mut depth: usize = 1;
        while depth > 0
            invariant
                self.wf(),
                self.chars@ == cs,
                self.in_command == st.in_command,
                self.brace_depth == st.brace_depth,
                depth <= self.idx,
                st.idx + 2 <= self.idx,
                start == bpos(cs, st.idx),
                comment_end(cs, st.idx + 2, 1) == comment_end(cs, self.idx as int, depth as nat),
            decreases self.chars.len() - self.idx, depth,
        {
            if self.idx >= self.chars.len() {
                return Err(LexerError::UnterminatedComment { start });
            }
            if self.starts_with(&['(', '*']) {
                depth += 1;
                self.advance();
                self.advance();
            } else if self.starts_with(&['*', ')']) {
                depth -= 1;
                self.advance();
                self.advance();
            } else {
                self.advance();
            }
        }
        Ok(())
    }

    /// Skip whitespace and comments.
    #[verifier::loop_isolation(false)]
    fn skip_whitespace_and_comments(&mut self) -> (r: Result<(), LexerError>)
        requires
            old(self).wf(),
        ensures
            final(self).wf(),
            final(self).source() == old(self).source(),
            match skip_blank(old(self).source(), old(self).state().idx) {
                Ok(j) => r is Ok && final(self).state() == at_idx(old(self).state(), j),
                Err((start, end)) => (r matches Err(e) && e@ == LexErr::UnterminatedComment { start })
                    && final(self).state() == at_idx(old(self).state(), end),
            },
    {
        let ghost cs = self.chars@;
        let ghost st = self.state();
        loop
            invariant
                self.wf(),
                self.chars@ == cs,
                self.in_command == st.in_command,
                self.brace_depth == st.brace_depth,
                skip_blank(cs, st.idx) == skip_blank(cs, self.idx as int),
            decreases self.chars.len() - self.idx,
        {
            let ghost i = self.idx as int;
            self.skip_run(Class::White);
            proof {
                lemma_run_len_bound(cs, i, Class::White);
            }
            if self.starts_with(&['(', '*']) {
                let ghost j = self.idx as int;
                proof {
                    lemma_comment_end(cs, j + 2, 1);
                }
                match self.skip_comment() {
                    Ok(()) => {},
                    Err(e) => {
                        return Err(e);
                    },
                }
            } else {
                return Ok(());
            }
        }
    }
}


/// What a lexing function gives, with the state it leaves, as a value.
pub open spec fn outcome(r: Result<Token, LexerError>, st: LexState) -> StepV {
    (result_view(r), st)
}

impl Lexer {
    /// Lex an identifier or keyword.
    fn lex_identifier(&mut self) -> (t: Token)
        requires
            old(self).wf(),
            old(self).state().idx < old(self).source().len(),
            is_alpha(old(self).source()[old(self).state().idx]) || old(self).source()[old(self).state().idx] == '_',
        ensures
            final(self).wf(),
            final(self).source() == old(self).source(),
            ({
                let cs = old(self).source();
                let j = old(self).state().idx;
                let n = run_len(cs, j, Class::Ident);
                &&& t@ == (word_kind(cs.subrange(j, j + n)), span_of(cs, j, j + n))
                &&& final(self).state() == at_idx(old(self).state(), j + n)
            }),
    {
        let ghost cs = self.chars@;
        let ghost j = self.idx as int;
        proof { lemma_run_len_bound(cs, j, Class::Ident); }
        let start = self.pos;
        let ident = self.take_word(Class::Ident);
        proof { self.lemma_pos(self.idx as int); }
        let span = Span::new(start, self.pos);

        // Check if it's a keyword
        if let Some(keyword) = TokenKind::keyword_from_chars(&ident) {
            return Token::new(keyword, span);
        }

        // Check if it starts with uppercase (constructor)
        let first = ident[0];
        let text = string_from(&ident);
        let kind = if 'A' <= first && first <= 'Z' {
            TokenKind::UpperIdent(text)
        } else {
            TokenKind::Ident(text)
        };
        Token::new(kind, span)
    }

    /// Lex a type variable ('a, 'key, etc.).
    fn lex_type_var(&mut self) -> (t: Token)
        requires
            old(self).wf(),
            old(self).state().idx < old(self).source().len(),
        ensures
            final(self).wf(),
            final(self).source() == old(self).source(),
            ({
                let cs = old(self).source();
                let j = old(self).state().idx;
                let n = run_len(cs, j + 1, Class::TyVarName);
                &&& t@ == (Tok::TyVar(cs.subrange(j + 1, j + 1 + n)), span_of(cs, j, j + 1 + n))
                &&& final(self).state() == at_idx(old(self).state(), j + 1 + n)
            }),
    {
        let ghost cs = self.chars@;
        let ghost j = self.idx as int;
        proof { lemma_run_len_bound(cs, j + 1, Class::TyVarName); }
        let start = self.pos;
        self.advance(); // skip '
        let name = self.take_word(Class::TyVarName);
        proof { self.lemma_pos(self.idx as int); }
        Token::new(TokenKind::TyVar(string_from(&name)), Span::new(start, self.pos))
    }

    /// Lex an escape sequence (after the backslash).
    fn lex_escape_sequence(&mut self) -> (r: Result<char, LexerError>)
        requires
            old(self).wf(),
        ensures
            final(self).wf(),
            final(self).source() == old(self).source(),
            ({
                let (e, k) = escape_at(old(self).source(), old(self).state().idx);
                &&& final(self).state() == at_idx(old(self).state(), k)
                &&& match e {
                    Ok(c) => r == Ok::<char, LexerError>(c),
                    Err(err) => r matches Err(x) && x@ == err,
                }
            }),
    {
        let pos = self.pos;
        match self.peek_char() {
            None => Err(LexerError::InvalidEscape { ch: ' ', pos }),
            Some(ch) => {
                self.advance();
                if ch == 'n' {
                    Ok('\n')
                } else if ch == 'r' {
                    Ok('\r')
                } else if ch == 't' {
                    Ok('\t')
                } else if ch == '\\' {
                    Ok('\\')
                } else if ch == '"' {
                    Ok('"')
                } else if ch == '\'' {
                    Ok('\'')
                } else if ch == '0' {
                    Ok('\0')
                } else {
                    Err(LexerError::InvalidEscape { ch, pos })
                }
            },
        }
    }

    /// Lex a string literal.
    #[verifier::loop_isolation(false)]
    fn lex_string(&mut self) -> (r: Result<Token, LexerError>)
        requires
            old(self).wf(),
            old(self).state().idx < old(self).source().len(),
        ensures
            final(self).wf(),
            final(self).source() == old(self).source(),
            ({
                let cs = old(self).source();
                let j = old(self).state().idx;
                let (res, end) = string_body(cs, j + 1, Seq::empty(), bpos(cs, j));
                &&& final(self).state() == at_idx(old(self).state(), end)
                &&& match res {
                    Ok(text) => r matches Ok(t) && t@ == (Tok::String(text), span_of(cs, j, end)),
                    Err(e) => r matches Err(x) && x@ == e,
                }
            }),
    {
        let ghost cs = self.chars@;
        let ghost st = self.state();
        let ghost j = self.idx as int;
        let start = self.pos;
        self.advance(); // skip opening "
        let mut value: Vec<char> = Vec::new();
        loop
            invariant
                self.wf(),
                self.chars@ == cs,
                self.in_command == st.in_command,
                self.brace_depth == st.brace_depth,
                j < self.idx,
                start == bpos(cs, j),
                string_body(cs, j + 1, Seq::empty(), start as nat) == string_body(cs, self.idx as int, value@, start as nat),
            decreases self.chars.len() - self.idx,
        {
            match self.peek_char() {
                None => {
                    return Err(LexerError::UnterminatedString { start });
                },
                Some(c) => {
                    if c == '"' {
                        self.advance();
                        break;
                    } else if c == '\\' {
                        self.advance();
                        let escaped = self.lex_escape_sequence();
                        match escaped {
                            Ok(e) => {
                                value.push(e);
                            },
                            Err(err) => {
                                return Err(err);
                            },
                        }
                    } else {
                        value.push(c);
                        self.advance();
                    }
                },
            }
        }
        proof { self.lemma_pos(self.idx as int); }
        Ok(Token::new(TokenKind::String(string_from(&value)), Span::new(start, self.pos)))
    }
}


impl Lexer {
    /// Lex a character literal (#"a").
    fn lex_char(&mut self) -> (r: Result<Token, LexerError>)
        requires
            old(self).wf(),
            starts_with(old(self).source(), old(self).state().idx, seq!['#', '"']),
        ensures
            final(self).wf(),
            final(self).source() == old(self).source(),
            ({
                let cs = old(self).source();
                let j = old(self).state().idx;
                let (res, end) = char_literal_at(cs, j);
                &&& final(self).state() == at_idx(old(self).state(), end)
                &&& match res {
                    Ok(k) => r matches Ok(t) && t@ == (k, span_of(cs, j, end)),
                    Err(e) => r matches Err(x) && x@ == e,
                }
            }),
    {
        let start = self.pos;
        self.advance(); // skip #
        self.advance(); // skip opening "

        let ch = match self.peek_char() {
            None => return Err(LexerError::UnterminatedChar { start }),
            Some(c) => {
                if c == '"' {
                    return Err(LexerError::EmptyCharLiteral { pos: start });
                } else if c == '\\' {
                    self.advance();
                    match self.lex_escape_sequence() {
                        Ok(e) => e,
                        Err(err) => return Err(err),
                    }
                } else {
                    self.advance();
                    c
                }
            },
        };

        match self.peek_char() {
            Some(q) => {
                if q == '"' {
                    self.advance();
                } else {
                    return Err(LexerError::MultiCharLiteral { pos: start });
                }
            },
            None => return Err(LexerError::UnterminatedChar { start }),
        }
        proof { self.lemma_pos(self.idx as int); }
        Ok(Token::new(TokenKind::Char(ch), Span::new(start, self.pos)))
    }

    /// Lex command content (text inside backticks).
    ///
    /// Returns either:
    /// - `CommandText(String)` for literal text
    /// - `LBrace` when hitting `{` for interpolation
    /// - `Backtick` when hitting the closing backtick
    #[verifier::loop_isolation(false)]
    fn lex_command_content(&mut self) -> (t: Token)
        requires
            old(self).wf(),
        ensures
            final(self).wf(),
            final(self).source() == old(self).source(),
            (Ok::<(Tok, Span), LexErr>(t@), final(self).state()) == command_step(old(self).source(), old(self).state()),
    {
        let ghost cs = self.chars@;
        let ghost st = self.state();
        let start = self.pos;
        proof { self.lemma_pos(self.idx as int); }

        // Check for special characters first
        match self.peek_char() {
            None => {
                // Unterminated command - return EOF and let parser handle error
                return Token::new(TokenKind::Eof, Span::empty(self.pos));
            },
            Some(c) => {
                if c == '`' {
                    // Closing backtick - exit command mode
                    self.advance();
                    self.in_command = false;
                    proof { self.lemma_pos(self.idx as int); }
                    return Token::new(TokenKind::Backtick, Span::new(start, self.pos));
                }
                if c == '{' {
                    // Start of interpolation
                    self.advance();
                    self.brace_depth = 1;
                    proof { self.lemma_pos(self.idx as int); }
                    return Token::new(TokenKind::LBrace, Span::new(start, self.pos));
                }
            },
        }

        // Collect command text until we hit `, {, or end of input
        let mut text: Vec<char> = Vec::new();
        loop
            invariant
                self.wf(),
                self.chars@ == cs,
                self.in_command == st.in_command,
                self.brace_depth == st.brace_depth,
                st.idx <= self.idx,
                command_body(cs, st.idx, Seq::empty()) == command_body(cs, self.idx as int, text@),
            decreases self.chars.len() - self.idx,
        {
            match self.peek_char() {
                None => break,
                Some(c) => {
                    if c == '`' || c == '{' {
                        break;
                    } else if c == '\\' {
                        // Escape sequence in command
                        self.advance();
                        match self.peek_char() {
                            Some(next) => {
                                // Allow escaping ` and { in commands
                                if next == '`' || next == '{' || next == '\\' {
                                    text.push(next);
                                    self.advance();
                                } else {
                                    // Other escapes: keep the backslash
                                    text.push('\\');
                                }
                            },
                            None => {},
                        }
                    } else {
                        text.push(c);
                        self.advance();
                    }
                },
            }
        }
        proof { self.lemma_pos(self.idx as int); }
        Token::new(TokenKind::CommandText(string_from(&text)), Span::new(start, self.pos))
    }

    /// A token of `len` characters starting at the current character.
    fn make_token(&mut self, kind: TokenKind, len: usize, start: usize) -> (t: Token)
        requires
            old(self).wf(),
            old(self).state().idx + len <= old(self).source().len(),
            start == bpos(old(self).source(), old(self).state().idx),
        ensures
            final(self).wf(),
            final(self).source() == old(self).source(),
            final(self).state() == at_idx(old(self).state(), old(self).state().idx + len),
            t.kind == kind,
            t.span == span_of(old(self).source(), old(self).state().idx, old(self).state().idx + len),
    {
        let ghost st = self.state();
        let ghost i0 = self.idx as int;
        let mut k: usize = 0;
        while k < len
            invariant
                self.wf(),
                self.chars@ == old(self).chars@,
                self.in_command == st.in_command,
                self.brace_depth == st.brace_depth,
                k <= len,
                self.idx == i0 + k,
                i0 + len <= self.chars@.len(),
            decreases len - k,
        {
            self.advance();
            k += 1;
        }
        proof { self.lemma_pos(self.idx as int); }
        Token::new(kind, Span::new(start, self.pos))
    }

    /// Lex an operator or punctuation.
    fn lex_operator_or_punct(&mut self, start: usize) -> (r: Result<Token, LexerError>)
        requires
            old(self).wf(),
            old(self).state().idx < old(self).source().len(),
            start == bpos(old(self).source(), old(self).state().idx),
        ensures
            final(self).wf(),
            final(self).source() == old(self).source(),
            outcome(r, final(self).state()) == operator_at(old(self).source(), old(self).state()),
    {
        // Three-character operators
        if self.starts_with(&['.', '.', '.']) {
            return Ok(self.make_token(TokenKind::Ellipsis, 3, start));
        }

        // Two-character operators
        if self.starts_with(&['|', '>']) {
            return Ok(self.make_token(TokenKind::Pipe, 2, start));
        }
        if self.starts_with(&['>', '>']) {
            return Ok(self.make_token(TokenKind::GtGt, 2, start));
        }
        if self.starts_with(&['>', '=']) {
            return Ok(self.make_token(TokenKind::Ge, 2, start));
        }
        if self.starts_with(&['<', '=']) {
            return Ok(self.make_token(TokenKind::Le, 2, start));
        }
        if self.starts_with(&['!', '=']) {
            return Ok(self.make_token(TokenKind::Neq, 2, start));
        }
        if self.starts_with(&['<', '-']) {
            return Ok(self.make_token(TokenKind::LeftArrow, 2, start));
        }
        if self.starts_with(&['-', '>']) {
            return Ok(self.make_token(TokenKind::Arrow, 2, start));
        }
        if self.starts_with(&['=', '>']) {
            return Ok(self.make_token(TokenKind::FatArrow, 2, start));
        }
        if self.starts_with(&[':', ':']) {
            return Ok(self.make_token(TokenKind::ColonColon, 2, start));
        }
        if self.starts_with(&[':', '=']) {
            return Ok(self.make_token(TokenKind::ColonEq, 2, start));
        }
        if self.starts_with(&['&', '&']) {
            return Ok(self.make_token(TokenKind::AndAlso, 2, start));
        }
        if self.starts_with(&['|', '|']) {
            return Ok(self.make_token(TokenKind::OrElse, 2, start));
        }
        if self.starts_with(&['+', '+']) {
            return Ok(self.make_token(TokenKind::PlusPlus, 2, start));
        }
        if self.starts_with(&['=', '=']) {
            return Ok(self.make_token(TokenKind::EqEq, 2, start));
        }

        // Single-character operators and punctuation
        let ch = self.chars[self.idx];

        // Handle backtick specially - toggles command mode
        if ch == '`' {
            let t = self.make_token(TokenKind::Backtick, 1, start);
            self.in_command = true;
            return Ok(t);
        }

        // Handle braces with depth tracking for command interpolation
        if ch == '{' {
            let t = self.make_token(TokenKind::LBrace, 1, start);
            if self.in_command {
                self.brace_depth = self.brace_depth + 1;
            }
            return Ok(t);
        }

        if ch == '}' {
            let t = self.make_token(TokenKind::RBrace, 1, start);
            if self.in_command && self.brace_depth > 0 {
                self.brace_depth = self.brace_depth - 1;
            }
            return Ok(t);
        }

        let kind = if ch == '(' {
            TokenKind::LParen
        } else if ch == ')' {
            TokenKind::RParen
        } else if ch == '[' {
            TokenKind::LBracket
        } else if ch == ']' {
            TokenKind::RBracket
        } else if ch == ',' {
            TokenKind::Comma
        } else if ch == ';' {
            TokenKind::Semi
        } else if ch == ':' {
            TokenKind::Colon
        } else if ch == '|' {
            TokenKind::Bar
        } else if ch == '.' {
            TokenKind::Dot
        } else if ch == '+' {
            TokenKind::Plus
        } else if ch == '-' {
            TokenKind::Minus
        } else if ch == '*' {
            TokenKind::Star
        } else if ch == '/' {
            TokenKind::Slash
        } else if ch == '%' {
            TokenKind::Percent
        } else if ch == '=' {
            TokenKind::Eq
        } else if ch == '<' {
            TokenKind::Lt
        } else if ch == '>' {
            TokenKind::Gt
        } else if ch == '^' {
            TokenKind::Caret
        } else if ch == '@' {
            TokenKind::At
        } else if ch == '!' {
            TokenKind::Bang
        } else if ch == '$' {
            TokenKind::Dollar
        } else {
            return Err(LexerError::UnexpectedChar { ch, pos: start });
        };

        Ok(self.make_token(kind, 1, start))
    }
}


// ========== Numbers ==========

pub proof fn lemma_digits_value_prefix(s: Seq<char>, k: int, radix: nat)
    requires
        0 <= k <= s.len(),
        radix >= 1,
    ensures
        digits_value(s.take(k), radix) <= digits_value(s, radix),
    decreases s.len() - k,
{
    if k < s.len() {
        lemma_digits_value_prefix(s, k + 1, radix);
        let t = s.take(k + 1);
        assert(t.drop_last() =~= s.take(k));
        let v = digits_value(s.take(k), radix);
        let d = digit_value(t.last());
        assert(v * radix + d >= v) by (nonlinear_arith)
            requires
                radix >= 1,
                d >= 0,
                v >= 0,
        ;
    } else {
        assert(s.take(k) =~= s);
    }
}

pub proof fn lemma_without_underscores(s: Seq<char>)
    ensures
        without_underscores(s).len() <= s.len(),
        forall|k: int| 0 <= k < without_underscores(s).len() ==> without_underscores(s)[k] != '_'
            && exists|m: int| 0 <= m < s.len() && s[m] == #[trigger] without_underscores(s)[k],
    decreases s.len(),
{
    if s.len() > 0 {
        let d = s.drop_last();
        lemma_without_underscores(d);
        let w = without_underscores(s);
        let wd = without_underscores(d);
        assert forall|k: int| 0 <= k < w.len() implies w[k] != '_'
            && exists|m: int| 0 <= m < s.len() && s[m] == #[trigger] w[k] by {
            if k < wd.len() {
                assert(w[k] == wd[k]);
                let m = choose|m: int| 0 <= m < d.len() && d[m] == wd[k];
                assert(s[m] == w[k]);
            } else {
                assert(w[k] == s.last());
                assert(s[s.len() - 1] == w[k]);
            }
        }
    }
}

pub proof fn lemma_without_underscores_digits(s: Seq<char>)
    requires
        forall|k: int| 0 <= k < s.len() ==> is_digit(#[trigger] s[k]),
    ensures
        without_underscores(s) == s,
    decreases s.len(),
{
    if s.len() > 0 {
        let d = s.drop_last();
        assert forall|k: int| 0 <= k < d.len() implies is_digit(#[trigger] d[k]) by {
            assert(d[k] == s[k]);
        }
        lemma_without_underscores_digits(d);
        assert(is_digit(s[s.len() - 1]));
        assert(d.push(s.last()) =~= s);
    }
}

pub proof fn lemma_run_in_class(cs: Seq<char>, i: int, cl: Class)
    requires
        0 <= i <= cs.len(),
    ensures
        forall|k: int| i <= k < i + run_len(cs, i, cl) ==> in_class(cl, #[trigger] cs[k]),
    decreases cs.len() - i,
{
    if i < cs.len() && in_class(cl, cs[i]) {
        lemma_run_in_class(cs, i + 1, cl);
    }
}

fn digit_value_exec(c: char) -> (d: u128)
    requires
        is_hex(c),
    ensures
        d == digit_value(c),
        d < 16,
{
    if '0' <= c && c <= '9' {
        (c as u32 - '0' as u32) as u128
    } else if 'a' <= c && c <= 'f' {
        (c as u32 - 'a' as u32 + 10) as u128
    } else {
        (c as u32 - 'A' as u32 + 10) as u128
    }
}

/// The value of a sequence of digits in a radix, unless it exceeds the largest `i64`.
fn digits_to_i64(digits: &Vec<char>, radix: u128) -> (r: Option<i64>)
    requires
        2 <= radix <= 16,
        forall|k: int| 0 <= k < digits@.len() ==> is_hex(#[trigger] digits@[k]),
    ensures
        match r {
            Some(v) => digits_value(digits@, radix as nat) <= i64::MAX && v == digits_value(digits@, radix as nat),
            None => digits_value(digits@, radix as nat) > i64::MAX,
        },
{
    let mut acc: u128 = 0;
    let mut i: usize = 0;
    proof { assert(digits@.take(0) =~= Seq::<char>::empty()); }
    while i < digits.len()
        invariant
            i <= digits@.len(),
            2 <= radix <= 16,
            forall|k: int| 0 <= k < digits@.len() ==> is_hex(#[trigger] digits@[k]),
            acc == digits_value(digits@.take(i as int), radix as nat),
            acc <= i64::MAX,
        decreases digits.len() - i,
    {
        let d = digit_value_exec(digits[i]);
        assert(acc * radix + d <= 0x7fff_ffff_ffff_ffff * 16 + 15) by (nonlinear_arith)
            requires
                acc <= 0x7fff_ffff_ffff_ffff,
                radix <= 16,
                d < 16,
        ;
        let next = acc * radix + d;
        proof {
            let t = digits@.take(i + 1);
            assert(t.drop_last() =~= digits@.take(i as int));
            assert(t.last() == digits@[i as int]);
        }
        if next > 0x7fff_ffff_ffff_ffff {
            proof {
                lemma_digits_value_prefix(digits@, i + 1, radix as nat);
            }
            return None;
        }
        acc = next;
        i += 1;
    }
    proof { assert(digits@.take(i as int) =~= digits@); }
    Some(acc as i64)
}

fn push_chars(s: &mut String, cs: &Vec<char>)
    ensures
        final(s)@ == old(s)@ + cs@,
{
    let ghost s0 = s@;
    let mut i: usize = 0;
    while i < cs.len()
        invariant
            i <= cs@.len(),
            s@ == s0 + cs@.take(i as int),
        decreases cs.len() - i,
    {
        push_char(s, cs[i]);
        i += 1;
        assert(s@ =~= s0 + cs@.take(i as int));
    }
    assert(cs@.take(i as int) =~= cs@);
}

fn number_error(pos: usize, what: &str, text: &Vec<char>) -> (e: LexerError)
    ensures
        e@ == (LexErr::InvalidNumber { pos: pos as nat, reason: "invalid "@ + what@ + " literal: "@ + text@ }),
{
    let mut reason = String::new();
    push_str(&mut reason, "invalid ");
    push_str(&mut reason, what);
    push_str(&mut reason, " literal: ");
    push_chars(&mut reason, text);
    LexerError::InvalidNumber { pos, reason }
}

impl Lexer {
    /// Lex an exponent part, if any, appending it to `out`; whether it has digits.
    fn lex_exponent(&mut self, out: &mut Vec<char>) -> (ok: bool)
        requires
            old(self).wf(),
        ensures
            final(self).wf(),
            final(self).source() == old(self).source(),
            ({
                let (text, end, has_digits) = exponent_at(old(self).source(), old(self).state().idx);
                &&& final(out)@ == old(out)@ + text
                &&& final(self).state() == at_idx(old(self).state(), end)
                &&& ok == has_digits
            }),
    {
        let ghost cs = self.chars@;
        let ghost m = self.idx as int;
        let ghost out0 = out@;
        let c = self.peek_char();
        if c == Some('e') || c == Some('E') {
            out.push('e');
            self.advance();
            let sign = self.peek_char();
            if sign == Some('+') || sign == Some('-') {
                out.push(sign.unwrap());
                self.advance();
            }
            let ghost d = self.idx as int;
            let ghost before = out@;
            proof {
                lemma_run_len_bound(cs, d, Class::Digit);
                lemma_run_in_class(cs, d, Class::Digit);
                lemma_without_underscores_digits(cs.subrange(d, d + run_len(cs, d, Class::Digit)));
            }
            let n0 = self.idx;
            self.take_run(Class::Digit, out);
            proof {
                let signed = at(cs, m + 1) == Some('+') || at(cs, m + 1) == Some('-');
                let sgn = if signed { seq![cs[m + 1]] } else { Seq::<char>::empty() };
                assert(out@ =~= out0 + (seq!['e'] + sgn + cs.subrange(d, d + run_len(cs, d, Class::Digit))));
            }
            self.idx > n0
        } else {
            assert(out@ =~= out0 + Seq::<char>::empty());
            true
        }
    }

    /// Lex a prefixed integer: `0x`, `0b` or `0o` and its digits.
    fn lex_radix_number(&mut self, start: usize, cl: Class, radix: u128, prefix: &str, what: &str) -> (r: Result<Token, LexerError>)
        requires
            old(self).wf(),
            old(self).state().idx + 2 <= old(self).source().len(),
            start == bpos(old(self).source(), old(self).state().idx),
            radix == 16 && cl == Class::Hex && prefix@ == "0x"@ && what@ == "hex"@
                || radix == 2 && cl == Class::Binary && prefix@ == "0b"@ && what@ == "binary"@
                || radix == 8 && cl == Class::Octal && prefix@ == "0o"@ && what@ == "octal"@,
        ensures
            final(self).wf(),
            final(self).source() == old(self).source(),
            ({
                let cs = old(self).source();
                let j = old(self).state().idx;
                let (res, end) = radix_number(cs, j, cl, radix as nat, prefix@);
                &&& final(self).state() == at_idx(old(self).state(), end)
                &&& match res {
                    Ok(k) => r matches Ok(t) && t@ == (k, span_of(cs, j, end)),
                    Err(e) => r matches Err(x) && x@ == e,
                }
            }),
    {
        let ghost cs = self.chars@;
        let ghost j = self.idx as int;
        self.advance(); // 0
        self.advance(); // x, b or o
        proof {
            lemma_run_len_bound(cs, j + 2, cl);
            lemma_run_in_class(cs, j + 2, cl);
        }
        let mut digits: Vec<char> = Vec::new();
        self.take_run(cl, &mut digits);
        let ghost sub = cs.subrange(j + 2, j + 2 + run_len(cs, j + 2, cl));
        proof {
            assert(digits@ =~= without_underscores(sub));
            lemma_without_underscores(sub);
            assert forall|k: int| 0 <= k < digits@.len() implies is_hex(#[trigger] digits@[k]) by {
                let m = choose|m: int| 0 <= m < sub.len() && sub[m] == without_underscores(sub)[k];
                assert(sub[m] == cs[j + 2 + m]);
                assert(in_class(cl, cs[j + 2 + m]));
            }
        }
        if digits.len() == 0 {
            let mut reason = String::new();
            push_str(&mut reason, "expected ");
            push_str(&mut reason, what);
            push_str(&mut reason, " digits after ");
            push_str(&mut reason, prefix);
            return Err(LexerError::InvalidNumber { pos: start, reason });
        }
        match digits_to_i64(&digits, radix) {
            None => {
                let mut text: Vec<char> = chars_of(prefix);
                let ghost p = text@;
                let mut k: usize = 0;
                while k < digits.len()
                    invariant
                        k <= digits@.len(),
                        text@ == p + digits@.take(k as int),
                    decreases digits.len() - k,
                {
                    text.push(digits[k]);
                    k += 1;
                    assert(text@ =~= p + digits@.take(k as int));
                }
                proof {
                    assert(digits@.take(k as int) =~= digits@);
                    assert(("invalid "@ + what@ + " literal: "@ + text@) =~= ("invalid "@ + what@ + " literal: "@ + prefix@ + digits@));
                }
                Err(number_error(start, what, &text))
            },
            Some(v) => {
                proof { self.lemma_pos(self.idx as int); }
                Ok(Token::new(TokenKind::Int(v), Span::new(start, self.pos)))
            },
        }
    }

    /// Lex a hexadecimal number.
    fn lex_hex_number(&mut self, start: usize) -> (r: Result<Token, LexerError>)
        requires
            old(self).wf(),
            old(self).state().idx + 2 <= old(self).source().len(),
            start == bpos(old(self).source(), old(self).state().idx),
        ensures
            final(self).wf(),
            final(self).source() == old(self).source(),
            ({
                let cs = old(self).source();
                let j = old(self).state().idx;
                let (res, end) = radix_number(cs, j, Class::Hex, 16, "0x"@);
                &&& final(self).state() == at_idx(old(self).state(), end)
                &&& match res {
                    Ok(k) => r matches Ok(t) && t@ == (k, span_of(cs, j, end)),
                    Err(e) => r matches Err(x) && x@ == e,
                }
            }),
    {
        self.lex_radix_number(start, Class::Hex, 16, "0x", "hex")
    }

    /// Lex a binary number.
    fn lex_binary_number(&mut self, start: usize) -> (r: Result<Token, LexerError>)
        requires
            old(self).wf(),
            old(self).state().idx + 2 <= old(self).source().len(),
            start == bpos(old(self).source(), old(self).state().idx),
        ensures
            final(self).wf(),
            final(self).source() == old(self).source(),
            ({
                let cs = old(self).source();
                let j = old(self).state().idx;
                let (res, end) = radix_number(cs, j, Class::Binary, 2, "0b"@);
                &&& final(self).state() == at_idx(old(self).state(), end)
                &&& match res {
                    Ok(k) => r matches Ok(t) && t@ == (k, span_of(cs, j, end)),
                    Err(e) => r matches Err(x) && x@ == e,
                }
            }),
    {
        self.lex_radix_number(start, Class::Binary, 2, "0b", "binary")
    }

    /// Lex an octal number.
    fn lex_octal_number(&mut self, start: usize) -> (r: Result<Token, LexerError>)
        requires
            old(self).wf(),
            old(self).state().idx + 2 <= old(self).source().len(),
            start == bpos(old(self).source(), old(self).state().idx),
        ensures
            final(self).wf(),
            final(self).source() == old(self).source(),
            ({
                let cs = old(self).source();
                let j = old(self).state().idx;
                let (res, end) = radix_number(cs, j, Class::Octal, 8, "0o"@);
                &&& final(self).state() == at_idx(old(self).state(), end)
                &&& match res {
                    Ok(k) => r matches Ok(t) && t@ == (k, span_of(cs, j, end)),
                    Err(e) => r matches Err(x) && x@ == e,
                }
            }),
    {
        self.lex_radix_number(start, Class::Octal, 8, "0o", "octal")
    }
}


impl Lexer {
    /// Lex a number (integer or float).
    fn lex_number(&mut self) -> (r: Result<Token, LexerError>)
        requires
            old(self).wf(),
            old(self).state().idx < old(self).source().len(),
            is_digit(old(self).source()[old(self).state().idx]),
        ensures
            final(self).wf(),
            final(self).source() == old(self).source(),
            ({
                let cs = old(self).source();
                let j = old(self).state().idx;
                let (res, end) = number_at(cs, j);
                &&& final(self).state() == at_idx(old(self).state(), end)
                &&& match res {
                    Ok(k) => r matches Ok(t) && t@ == (k, span_of(cs, j, end)),
                    Err(e) => r matches Err(x) && x@ == e,
                }
            }),
    {
        let ghost cs = self.chars@;
        let ghost j = self.idx as int;
        let start = self.pos;

        // Check for hex or binary prefix
        if self.peek_char() == Some('0') {
            let second = self.peek_char_at(1);
            if second == Some('x') || second == Some('X') {
                return self.lex_hex_number(start);
            }
            if second == Some('b') || second == Some('B') {
                return self.lex_binary_number(start);
            }
            if second == Some('o') || second == Some('O') {
                return self.lex_octal_number(start);
            }
        }

        // Lex decimal digits
        let mut num: Vec<char> = Vec::new();
        proof {
            lemma_run_len_bound(cs, j, Class::Decimal);
            lemma_run_in_class(cs, j, Class::Decimal);
        }
        self.take_run(Class::Decimal, &mut num);
        let ghost int_digits = num@;
        let ghost k = self.idx as int;
        proof {
            let sub = cs.subrange(j, k);
            assert(int_digits =~= without_underscores(sub));
            lemma_without_underscores(sub);
        }

        // Check for float
        let next = self.peek_char_at(1);
        let is_float = self.peek_char() == Some('.') && (match next {
            Some(d) => '0' <= d && d <= '9',
            None => false,
        });

        if is_float {
            self.advance(); // skip .
            num.push('.');
            proof { lemma_run_len_bound(cs, k + 1, Class::Decimal); }
            self.take_run(Class::Decimal, &mut num);
            let ok = self.lex_exponent(&mut num);
            proof { self.lemma_pos(self.idx as int); }
            if !ok {
                return Err(number_error(start, "float", &num));
            }
            return Ok(Token::new(TokenKind::Float(string_from(&num)), Span::new(start, self.pos)));
        }

        // Check for exponent (makes it a float)
        let c = self.peek_char();
        if c == Some('e') || c == Some('E') {
            let ok = self.lex_exponent(&mut num);
            proof { self.lemma_pos(self.idx as int); }
            if !ok {
                return Err(number_error(start, "float", &num));
            }
            return Ok(Token::new(TokenKind::Float(string_from(&num)), Span::new(start, self.pos)));
        }

        proof {
            let sub = cs.subrange(j, k);
            assert forall|m: int| 0 <= m < num@.len() implies is_hex(#[trigger] num@[m]) by {
                let w = choose|w: int| 0 <= w < sub.len() && sub[w] == without_underscores(sub)[m];
                assert(sub[w] == cs[j + w]);
                assert(in_class(Class::Decimal, cs[j + w]));
            }
        }
        match digits_to_i64(&num, 10) {
            None => Err(number_error(start, "integer", &num)),
            Some(v) => {
                proof { self.lemma_pos(self.idx as int); }
                Ok(Token::new(TokenKind::Int(v), Span::new(start, self.pos)))
            },
        }
    }
}


// ========== Progress ==========

pub proof fn lemma_skip_blank(cs: Seq<char>, i: int)
    requires
        0 <= i <= cs.len(),
    ensures
        skip_blank(cs, i) matches Ok(j) ==> i <= j <= cs.len(),
    decreases cs.len() - i,
{
    lemma_run_len_bound(cs, i, Class::White);
    let j = i + run_len(cs, i, Class::White);
    if starts_with(cs, j, seq!['(', '*']) {
        lemma_comment_end(cs, j + 2, 1);
        match comment_end(cs, j + 2, 1) {
            Err(e) => {},
            Ok(k) => {
                if i < k <= cs.len() {
                    lemma_skip_blank(cs, k);
                }
            },
        }
    }
}

pub proof fn lemma_string_body(cs: Seq<char>, i: int, acc: Seq<char>, start: nat)
    requires
        0 <= i,
    ensures
        string_body(cs, i, acc, start).0 is Ok ==> string_body(cs, i, acc, start).1 > i,
    decreases cs.len() - i,
{
    if !(0 <= i < cs.len()) {
    } else if cs[i] == '"' {
    } else if cs[i] == '\\' {
        match escape_at(cs, i + 1) {
            (Err(e), k) => {},
            (Ok(c), k) => {
                lemma_string_body(cs, k, acc.push(c), start);
            },
        }
    } else {
        lemma_string_body(cs, i + 1, acc.push(cs[i]), start);
    }
}

pub proof fn lemma_command_body(cs: Seq<char>, i: int, acc: Seq<char>)
    requires
        0 <= i,
    ensures
        command_body(cs, i, acc).1 >= i,
        (0 <= i < cs.len() && cs[i] != '`' && cs[i] != '{') ==> command_body(cs, i, acc).1 > i,
    decreases cs.len() - i,
{
    if !(0 <= i < cs.len()) || cs[i] == '`' || cs[i] == '{' {
    } else if cs[i] == '\\' {
        match at(cs, i + 1) {
            None => {},
            Some(n) => if n == '`' || n == '{' || n == '\\' {
                lemma_command_body(cs, i + 2, acc.push(n));
            } else {
                lemma_command_body(cs, i + 1, acc.push('\\'));
            },
        }
    } else {
        lemma_command_body(cs, i + 1, acc.push(cs[i]));
    }
}

/// Every token but the end of the input takes at least one character.
pub proof fn lemma_token_progress(cs: Seq<char>, st: LexState)
    requires
        0 <= st.idx <= cs.len(),
    ensures
        (token_at(cs, st).0 matches Ok(t) && t.0 != Tok::Eof) ==> token_at(cs, st).1.idx > st.idx,
{
    let j = st.idx;
    if 0 <= j < cs.len() {
        let first = cs[j];
        if first == '_' && !(at(cs, j + 1) matches Some(n) && (is_alnum(n) || n == '_')) {
        } else if is_alpha(first) || first == '_' {
            assert(in_class(Class::Ident, first));
            assert(run_len(cs, j, Class::Ident) >= 1);
        } else if first == '\'' {
        } else if is_digit(first) {
            assert(in_class(Class::Decimal, first));
            assert(run_len(cs, j, Class::Decimal) >= 1);
        } else if first == '"' {
            lemma_string_body(cs, j + 1, Seq::empty(), bpos(cs, j));
        } else if first == '#' && at(cs, j + 1) == Some('"') {
        } else {
        }
    }
}

/// Every token but the end of the input takes at least one character.
pub proof fn lemma_step_progress(cs: Seq<char>, st: LexState)
    requires
        0 <= st.idx <= cs.len(),
    ensures
        (lex_step(cs, st).0 matches Ok(t) && t.0 != Tok::Eof) ==> lex_step(cs, st).1.idx > st.idx,
{
    reveal(lex_step);
    if st.in_command && st.brace_depth == 0 {
        lemma_command_body(cs, st.idx, Seq::empty());
    } else {
        lemma_skip_blank(cs, st.idx);
        match skip_blank(cs, st.idx) {
            Err(_) => {},
            Ok(j) => {
                lemma_token_progress(cs, at_idx(st, j));
            },
        }
    }
}

impl Lexer {
    /// Get the next token from the input.
    pub fn next_token(&mut self) -> (r: Result<Token, LexerError>)
        requires
            old(self).wf(),
        ensures
            final(self).wf(),
            final(self).source() == old(self).source(),
            outcome(r, final(self).state()) == lex_step(old(self).source(), old(self).state()),
    {
        proof { reveal(lex_step); }
        // In command mode (inside backticks), lex command text
        if self.in_command && self.brace_depth == 0 {
            return Ok(self.lex_command_content());
        }

        match self.skip_whitespace_and_comments() {
            Ok(()) => {},
            Err(e) => return Err(e),
        }

        if self.idx >= self.chars.len() {
            proof { self.lemma_pos(self.idx as int); }
            return Ok(Token::new(TokenKind::Eof, Span::empty(self.pos)));
        }

        let start = self.pos;
        let first = self.chars[self.idx];
        proof { self.lemma_pos(self.idx as int); }

        // Standalone underscore is a wildcard token
        let second = self.peek_char_at(1);
        let word_follows = match second {
            Some(c) => ('a' <= c && c <= 'z') || ('A' <= c && c <= 'Z') || ('0' <= c && c <= '9') || c == '_',
            None => false,
        };
        if first == '_' && !word_follows {
            self.advance();
            proof { self.lemma_pos(self.idx as int); }
            return Ok(Token::new(TokenKind::Underscore, Span::new(start, self.pos)));
        }

        // Identifiers and keywords
        if ('a' <= first && first <= 'z') || ('A' <= first && first <= 'Z') || first == '_' {
            return Ok(self.lex_identifier());
        }

        // Type variables ('a, 'key, etc.)
        if first == '\'' {
            return Ok(self.lex_type_var());
        }

        // Numbers
        if '0' <= first && first <= '9' {
            return self.lex_number();
        }

        // String literals
        if first == '"' {
            return self.lex_string();
        }

        // Character literals (#"a")
        if first == '#' && second == Some('"') {
            proof {
                assert(self.chars@.subrange(self.idx as int, self.idx + 2) =~= seq!['#', '"']);
            }
            return self.lex_char();
        }

        // Operators and punctuation
        self.lex_operator_or_punct(start)
    }

    /// Tokenize the entire source, returning all tokens or the first error.
    pub fn tokenize(source: &str) -> (r: Result<Vec<Token>, LexerError>)
        requires
            utf8_len(source@) <= usize::MAX,
        ensures
            match r {
                Ok(tokens) => lex_from(source@, initial_state()) == Ok::<Seq<(Tok, Span)>, LexErr>(tokens@.map_values(|t: Token| t@)),
                Err(e) => lex_from(source@, initial_state()) == Err::<Seq<(Tok, Span)>, LexErr>(e@),
            },
    {
        let mut lexer = Lexer::new(source);
        let ghost cs = source@;
        let mut tokens: Vec<Token> = Vec::new();
        loop
            invariant
                cs == source@,
                lexer.wf(),
                lexer.source() == cs,
                lex_from(cs, initial_state()) == match lex_from(cs, lexer.state()) {
                    Ok(rest) => Ok(tokens@.map_values(|t: Token| t@) + rest),
                    Err(e) => Err(e),
                },
            decreases cs.len() - lexer.state().idx,
        {
            let ghost st = lexer.state();
            let ghost before = tokens@;
            proof { lemma_step_progress(cs, st); }
            let r = lexer.next_token();
            proof {
                assert(lex_step(cs, st).0 == result_view(r));
                assert(lex_step(cs, st).1 == lexer.state());
            }
            let token = match r {
                Ok(t) => t,
                Err(e) => {
                    assert(lex_from(cs, st) == Err::<Seq<(Tok, Span)>, LexErr>(e@));
                    return Err(e);
                },
            };
            let is_eof = match token.kind {
                TokenKind::Eof => true,
                _ => false,
            };
            tokens.push(token);
            proof {
                assert(tokens@.map_values(|t: Token| t@) =~= before.map_values(|t: Token| t@).push(token@));
                if !is_eof {
                    let rest = lex_from(cs, lexer.state());
                    match rest {
                        Ok(r2) => {
                            assert(before.map_values(|t: Token| t@) + (seq![token@] + r2) =~= tokens@.map_values(|t: Token| t@) + r2);
                        },
                        Err(_) => {},
                    }
                } else {
                    assert(before.map_values(|t: Token| t@) + seq![token@] =~= tokens@.map_values(|t: Token| t@));
                }
            }
            if is_eof {
                assert(lex_from(cs, st) == Ok::<Seq<(Tok, Span)>, LexErr>(seq![token@]));
                return Ok(tokens);
            }
        }
    }
}

} // verus!
