//! Token definitions for the Neap lexer
//!
//! This module defines all token types recognized by the Neap language,
//! including ML keywords, shell-specific operators, and literals.

use vstd::prelude::*;
use super::span::Span;

verus! {

/// A token with its kind and source span.
#[derive(Debug, Clone, PartialEq)]
pub struct Token {
    /// The kind of token
    pub kind: TokenKind,
    /// The source span where this token was found
    pub span: Span,
}

impl Token {
    /// Create a new token.
    pub fn new(kind: TokenKind, span: Span) -> (t: Self)
        ensures
            t.kind == kind,
            t.span == span,
    {
        Token { kind, span }
    }
}

/// The kind of a token.
#[derive(Debug, Clone, PartialEq)]
pub enum TokenKind {
    // ========== Keywords ==========
    /// `let` - value binding
    Let,
    /// `in` - let body
    In,
    /// `fn` - anonymous function
    Fn,
    /// `fun` - named function
    Fun,
    /// `rec` - recursive binding
    Rec,
    /// `and` - parallel bindings
    And,
    /// `match` - pattern matching
    Match,
    /// `with` - match arms
    With,
    /// `case` - case expression (alternative to match)
    Case,
    /// `of` - case/datatype arms
    Of,
    /// `datatype` - algebraic data type
    Datatype,
    /// `type` - type alias
    Type,
    /// `if` - conditional
    If,
    /// `then` - conditional true branch
    Then,
    /// `else` - conditional false branch
    Else,
    /// `do` - IO sequencing block
    Do,
    /// `end` - block terminator
    End,
    /// `true` - boolean literal
    True,
    /// `false` - boolean literal
    False,
    // ========== Type Classes ==========
    /// `trait` - trait definition
    Trait,
    /// `impl` - trait implementation
    Impl,
    /// `for` - used in `impl Trait for Type`
    For,
    // ========== Shell Sugar ==========
    /// `|>` - pipe operator
    Pipe,
    /// `>` - redirect stdout (also used for greater-than)
    Gt,
    /// `>>` - append redirect
    GtGt,
    /// `<` - redirect stdin (also used for less-than)
    Lt,
    /// `$` - environment variable prefix
    Dollar,
    /// `` ` `` - command interpolation (backtick)
    Backtick,
    /// Text inside a command (between backticks)
    CommandText(String),
    // ========== Operators ==========
    /// `+` - addition
    Plus,
    /// `++` - string/list concatenation (Haskell-style)
    PlusPlus,
    /// `-` - subtraction
    Minus,
    /// `*` - multiplication
    Star,
    /// `/` - division
    Slash,
    /// `%` - modulo
    Percent,
    /// `=` - equality / binding
    Eq,
    /// `==` - equality test
    EqEq,
    /// `<>` - not equal
    Neq,
    /// `<=` - less than or equal
    Le,
    /// `>=` - greater than or equal
    Ge,
    /// `^` - string concatenation
    Caret,
    /// `::` - list cons
    ColonColon,
    /// `@` - list append
    At,
    /// `&&` or `andalso` - logical and
    AndAlso,
    /// `||` or `orelse` - logical or
    OrElse,
    /// `!` or `not` - logical negation / reference dereference
    Bang,
    /// `:=` - reference assignment
    ColonEq,
    // ========== Arrows ==========
    /// `->` - function type / lambda body
    Arrow,
    /// `=>` - pattern clause / type constraint
    FatArrow,
    /// `<-` - monadic bind
    LeftArrow,
    // ========== Delimiters ==========
    /// `(`
    LParen,
    /// `)`
    RParen,
    /// `[`
    LBracket,
    /// `]`
    RBracket,
    /// `{`
    LBrace,
    /// `}`
    RBrace,
    /// `,`
    Comma,
    /// `;`
    Semi,
    /// `:`
    Colon,
    /// `|` - pattern alternative
    Bar,
    /// `_` - wildcard pattern
    Underscore,
    /// `.` - record access / qualified name
    Dot,
    /// `...` - ellipsis (for records)
    Ellipsis,
    // ========== Literals ==========
    /// Integer literal (e.g., `42`, `0xFF`, `0b1010`)
    Int(i64),
    /// Floating-point literal (e.g., `3.14`, `1e10`), held as its digits: the
    /// mantissa without `_` separators and the exponent, if any, after `e`
    Float(String),
    /// String literal (e.g., `"hello"`)
    String(String),
    /// Character literal (e.g., `#"a"`)
    Char(char),
    // ========== Identifiers ==========
    /// Identifier (e.g., `foo`, `myFunc`)
    Ident(String),
    /// Type variable (e.g., `'a`, `'key`)
    TyVar(String),
    /// Uppercase identifier (for constructors, e.g., `Some`, `None`)
    UpperIdent(String),
    // ========== Special ==========
    /// End of file
    Eof,
}

/// A token kind as a value: its text payloads as character sequences.
pub enum Tok {
    Let,
    In,
    Fn,
    Fun,
    Rec,
    And,
    Match,
    With,
    Case,
    Of,
    Datatype,
    Type,
    If,
    Then,
    Else,
    Do,
    End,
    True,
    False,
    Trait,
    Impl,
    For,
    Pipe,
    Gt,
    GtGt,
    Lt,
    Dollar,
    Backtick,
    CommandText(Seq<char>),
    Plus,
    PlusPlus,
    Minus,
    Star,
    Slash,
    Percent,
    Eq,
    EqEq,
    Neq,
    Le,
    Ge,
    Caret,
    ColonColon,
    At,
    AndAlso,
    OrElse,
    Bang,
    ColonEq,
    Arrow,
    FatArrow,
    LeftArrow,
    LParen,
    RParen,
    LBracket,
    RBracket,
    LBrace,
    RBrace,
    Comma,
    Semi,
    Colon,
    Bar,
    Underscore,
    Dot,
    Ellipsis,
    Int(i64),
    Float(Seq<char>),
    String(Seq<char>),
    Char(char),
    Ident(Seq<char>),
    TyVar(Seq<char>),
    UpperIdent(Seq<char>),
    Eof,
}

impl View for TokenKind {
    type V = Tok;

    open spec fn view(&self) -> Tok {
        match self {
            TokenKind::Let => Tok::Let,
            TokenKind::In => Tok::In,
            TokenKind::Fn => Tok::Fn,
            TokenKind::Fun => Tok::Fun,
            TokenKind::Rec => Tok::Rec,
            TokenKind::And => Tok::And,
            TokenKind::Match => Tok::Match,
            TokenKind::With => Tok::With,
            TokenKind::Case => Tok::Case,
            TokenKind::Of => Tok::Of,
            TokenKind::Datatype => Tok::Datatype,
            TokenKind::Type => Tok::Type,
            TokenKind::If => Tok::If,
            TokenKind::Then => Tok::Then,
            TokenKind::Else => Tok::Else,
            TokenKind::Do => Tok::Do,
            TokenKind::End => Tok::End,
            TokenKind::True => Tok::True,
            TokenKind::False => Tok::False,
            TokenKind::Trait => Tok::Trait,
            TokenKind::Impl => Tok::Impl,
            TokenKind::For => Tok::For,
            TokenKind::Pipe => Tok::Pipe,
            TokenKind::Gt => Tok::Gt,
            TokenKind::GtGt => Tok::GtGt,
            TokenKind::Lt => Tok::Lt,
            TokenKind::Dollar => Tok::Dollar,
            TokenKind::Backtick => Tok::Backtick,
            TokenKind::CommandText(s) => Tok::CommandText(s@),
            TokenKind::Plus => Tok::Plus,
            TokenKind::PlusPlus => Tok::PlusPlus,
            TokenKind::Minus => Tok::Minus,
            TokenKind::Star => Tok::Star,
            TokenKind::Slash => Tok::Slash,
            TokenKind::Percent => Tok::Percent,
            TokenKind::Eq => Tok::Eq,
            TokenKind::EqEq => Tok::EqEq,
            TokenKind::Neq => Tok::Neq,
            TokenKind::Le => Tok::Le,
            TokenKind::Ge => Tok::Ge,
            TokenKind::Caret => Tok::Caret,
            TokenKind::ColonColon => Tok::ColonColon,
            TokenKind::At => Tok::At,
            TokenKind::AndAlso => Tok::AndAlso,
            TokenKind::OrElse => Tok::OrElse,
            TokenKind::Bang => Tok::Bang,
            TokenKind::ColonEq => Tok::ColonEq,
            TokenKind::Arrow => Tok::Arrow,
            TokenKind::FatArrow => Tok::FatArrow,
            TokenKind::LeftArrow => Tok::LeftArrow,
            TokenKind::LParen => Tok::LParen,
            TokenKind::RParen => Tok::RParen,
            TokenKind::LBracket => Tok::LBracket,
            TokenKind::RBracket => Tok::RBracket,
            TokenKind::LBrace => Tok::LBrace,
            TokenKind::RBrace => Tok::RBrace,
            TokenKind::Comma => Tok::Comma,
            TokenKind::Semi => Tok::Semi,
            TokenKind::Colon => Tok::Colon,
            TokenKind::Bar => Tok::Bar,
            TokenKind::Underscore => Tok::Underscore,
            TokenKind::Dot => Tok::Dot,
            TokenKind::Ellipsis => Tok::Ellipsis,
            TokenKind::Int(x) => Tok::Int(*x),
            TokenKind::Float(s) => Tok::Float(s@),
            TokenKind::String(s) => Tok::String(s@),
            TokenKind::Char(x) => Tok::Char(*x),
            TokenKind::Ident(s) => Tok::Ident(s@),
            TokenKind::TyVar(s) => Tok::TyVar(s@),
            TokenKind::UpperIdent(s) => Tok::UpperIdent(s@),
            TokenKind::Eof => Tok::Eof,
        }
    }
}

/// The keyword spelled by a word, if it is one (case sensitive).
pub open spec fn keyword_of(s: Seq<char>) -> Option<Tok> {
    if s == seq!['l', 'e', 't'] { Some(Tok::Let) }
    else if s == seq!['i', 'n'] { Some(Tok::In) }
    else if s == seq!['f', 'n'] { Some(Tok::Fn) }
    else if s == seq!['f', 'u', 'n'] { Some(Tok::Fun) }
    else if s == seq!['r', 'e', 'c'] { Some(Tok::Rec) }
    else if s == seq!['a', 'n', 'd'] { Some(Tok::And) }
    else if s == seq!['m', 'a', 't', 'c', 'h'] { Some(Tok::Match) }
    else if s == seq!['w', 'i', 't', 'h'] { Some(Tok::With) }
    else if s == seq!['c', 'a', 's', 'e'] { Some(Tok::Case) }
    else if s == seq!['o', 'f'] { Some(Tok::Of) }
    else if s == seq!['d', 'a', 't', 'a', 't', 'y', 'p', 'e'] { Some(Tok::Datatype) }
    else if s == seq!['t', 'y', 'p', 'e'] { Some(Tok::Type) }
    else if s == seq!['i', 'f'] { Some(Tok::If) }
    else if s == seq!['t', 'h', 'e', 'n'] { Some(Tok::Then) }
    else if s == seq!['e', 'l', 's', 'e'] { Some(Tok::Else) }
    else if s == seq!['d', 'o'] { Some(Tok::Do) }
    else if s == seq!['e', 'n', 'd'] { Some(Tok::End) }
    else if s == seq!['t', 'r', 'u', 'e'] { Some(Tok::True) }
    else if s == seq!['f', 'a', 'l', 's', 'e'] { Some(Tok::False) }
    else if s == seq!['a', 'n', 'd', 'a', 'l', 's', 'o'] { Some(Tok::AndAlso) }
    else if s == seq!['o', 'r', 'e', 'l', 's', 'e'] { Some(Tok::OrElse) }
    else if s == seq!['n', 'o', 't'] { Some(Tok::Bang) }
    else if s == seq!['t', 'r', 'a', 'i', 't'] { Some(Tok::Trait) }
    else if s == seq!['i', 'm', 'p', 'l'] { Some(Tok::Impl) }
    else if s == seq!['f', 'o', 'r'] { Some(Tok::For) }
    else { None }
}

/// Whether a token kind is a keyword.
pub open spec fn is_keyword_kind(k: Tok) -> bool {
    match k {
        Tok::Let
        | Tok::In
        | Tok::Fn
        | Tok::Fun
        | Tok::Rec
        | Tok::And
        | Tok::Match
        | Tok::With
        | Tok::Case
        | Tok::Of
        | Tok::Datatype
        | Tok::Type
        | Tok::If
        | Tok::Then
        | Tok::Else
        | Tok::Do
        | Tok::End
        | Tok::True
        | Tok::False
        | Tok::Trait
        | Tok::Impl
        | Tok::For => true,
        _ => false,
    }
}

/// Whether a token kind is a literal.
pub open spec fn is_literal_kind(k: Tok) -> bool {
    match k {
        Tok::Int(..)
        | Tok::Float(..)
        | Tok::String(..)
        | Tok::Char(..) => true,
        _ => false,
    }
}

/// Whether a token kind is an operator.
pub open spec fn is_operator_kind(k: Tok) -> bool {
    match k {
        Tok::Plus
        | Tok::Minus
        | Tok::Star
        | Tok::Slash
        | Tok::Percent
        | Tok::Eq
        | Tok::Neq
        | Tok::Lt
        | Tok::Le
        | Tok::Gt
        | Tok::Ge
        | Tok::Caret
        | Tok::ColonColon
        | Tok::At
        | Tok::AndAlso
        | Tok::OrElse
        | Tok::Bang
        | Tok::Pipe => true,
        _ => false,
    }
}

/// Whether a token of that kind can start an expression.
pub open spec fn can_start_expr_kind(k: Tok) -> bool {
    match k {
        Tok::Let
        | Tok::Fn
        | Tok::If
        | Tok::Match
        | Tok::Case
        | Tok::Do
        | Tok::LParen
        | Tok::LBracket
        | Tok::LBrace
        | Tok::Int(..)
        | Tok::Float(..)
        | Tok::String(..)
        | Tok::Char(..)
        | Tok::True
        | Tok::False
        | Tok::Ident(..)
        | Tok::UpperIdent(..)
        | Tok::Dollar
        | Tok::Minus
        | Tok::Bang => true,
        _ => false,
    }
}

/// A human-readable name for a token kind.
pub open spec fn kind_name(k: Tok) -> Seq<char> {
    match k {
        Tok::Let => "let"@,
        Tok::In => "in"@,
        Tok::Fn => "fn"@,
        Tok::Fun => "fun"@,
        Tok::Rec => "rec"@,
        Tok::And => "and"@,
        Tok::Match => "match"@,
        Tok::With => "with"@,
        Tok::Case => "case"@,
        Tok::Of => "of"@,
        Tok::Datatype => "datatype"@,
        Tok::Type => "type"@,
        Tok::If => "if"@,
        Tok::Then => "then"@,
        Tok::Else => "else"@,
        Tok::Do => "do"@,
        Tok::End => "end"@,
        Tok::True => "true"@,
        Tok::False => "false"@,
        Tok::Trait => "trait"@,
        Tok::Impl => "impl"@,
        Tok::For => "for"@,
        Tok::Pipe => "|>"@,
        Tok::Gt => ">"@,
        Tok::GtGt => ">>"@,
        Tok::Lt => "<"@,
        Tok::Dollar => "$"@,
        Tok::Backtick => "`"@,
        Tok::CommandText(..) => "command text"@,
        Tok::Plus => "+"@,
        Tok::PlusPlus => "++"@,
        Tok::Minus => "-"@,
        Tok::Star => "*"@,
        Tok::Slash => "/"@,
        Tok::Percent => "%"@,
        Tok::Eq => "="@,
        Tok::EqEq => "=="@,
        Tok::Neq => "<>"@,
        Tok::Le => "<="@,
        Tok::Ge => ">="@,
        Tok::Caret => "^"@,
        Tok::ColonColon => "::"@,
        Tok::At => "@"@,
        Tok::AndAlso => "andalso"@,
        Tok::OrElse => "orelse"@,
        Tok::Bang => "!"@,
        Tok::ColonEq => ":="@,
        Tok::Arrow => "->"@,
        Tok::FatArrow => "=>"@,
        Tok::LeftArrow => "<-"@,
        Tok::LParen => "("@,
        Tok::RParen => ")"@,
        Tok::LBracket => "["@,
        Tok::RBracket => "]"@,
        Tok::LBrace => "{"@,
        Tok::RBrace => "}"@,
        Tok::Comma => ","@,
        Tok::Semi => ";"@,
        Tok::Colon => ":"@,
        Tok::Bar => "|"@,
        Tok::Underscore => "_"@,
        Tok::Dot => "."@,
        Tok::Ellipsis => "..."@,
        Tok::Int(..) => "integer"@,
        Tok::Float(..) => "float"@,
        Tok::String(..) => "string"@,
        Tok::Char(..) => "char"@,
        Tok::Ident(..) => "identifier"@,
        Tok::TyVar(..) => "type variable"@,
        Tok::UpperIdent(..) => "constructor"@,
        Tok::Eof => "end of file"@,
    }
}

fn chars_eq(cs: &Vec<char>, lit: &[char]) -> (b: bool)
    ensures
        b == (cs@ == lit@),
{
    if cs.len() != lit.len() {
        return false;
    }
    let mut i: usize = 0;
    while i < cs.len()
        invariant
            i <= cs@.len(),
            cs@.len() == lit@.len(),
            forall|j: int| 0 <= j < i ==> cs@[j] == lit@[j],
        decreases cs.len() - i,
    {
        if cs[i] != lit[i] {
            return false;
        }
        i += 1;
    }
    assert(cs@ =~= lit@);
    true
}

/// The characters of a string slice.
pub fn chars_of(s: &str) -> (v: Vec<char>)
    ensures
        v@ == s@,
{
    let mut v: Vec<char> = Vec::new();
    for c in it: s.chars()
        invariant
            v@ == it.seq().take(it.index() as int),
    {
        v.push(c);
        assert(v@ =~= it.seq().take(it.index() + 1));
    }
    proof {
        broadcast use vstd::string::axiom_spec_iter;
    }
    assert(v@ =~= s@);
    v
}

impl TokenKind {
    /// Check if this token is a keyword.
    pub fn is_keyword(&self) -> (b: bool)
        ensures
            b == is_keyword_kind(self@),
    {
        match self {
            TokenKind::Let
            | TokenKind::In
            | TokenKind::Fn
            | TokenKind::Fun
            | TokenKind::Rec
            | TokenKind::And
            | TokenKind::Match
            | TokenKind::With
            | TokenKind::Case
            | TokenKind::Of
            | TokenKind::Datatype
            | TokenKind::Type
            | TokenKind::If
            | TokenKind::Then
            | TokenKind::Else
            | TokenKind::Do
            | TokenKind::End
            | TokenKind::True
            | TokenKind::False
            | TokenKind::Trait
            | TokenKind::Impl
            | TokenKind::For => true,
            _ => false,
        }
    }

    /// Check if this token is a literal.
    pub fn is_literal(&self) -> (b: bool)
        ensures
            b == is_literal_kind(self@),
    {
        match self {
            TokenKind::Int(..)
            | TokenKind::Float(..)
            | TokenKind::String(..)
            | TokenKind::Char(..) => true,
            _ => false,
        }
    }

    /// Check if this token is an operator.
    pub fn is_operator(&self) -> (b: bool)
        ensures
            b == is_operator_kind(self@),
    {
        match self {
            TokenKind::Plus
            | TokenKind::Minus
            | TokenKind::Star
            | TokenKind::Slash
            | TokenKind::Percent
            | TokenKind::Eq
            | TokenKind::Neq
            | TokenKind::Lt
            | TokenKind::Le
            | TokenKind::Gt
            | TokenKind::Ge
            | TokenKind::Caret
            | TokenKind::ColonColon
            | TokenKind::At
            | TokenKind::AndAlso
            | TokenKind::OrElse
            | TokenKind::Bang
            | TokenKind::Pipe => true,
            _ => false,
        }
    }

    /// Check if this token can start an expression.
    pub fn can_start_expr(&self) -> (b: bool)
        ensures
            b == can_start_expr_kind(self@),
    {
        match self {
            TokenKind::Let
            | TokenKind::Fn
            | TokenKind::If
            | TokenKind::Match
            | TokenKind::Case
            | TokenKind::Do
            | TokenKind::LParen
            | TokenKind::LBracket
            | TokenKind::LBrace
            | TokenKind::Int(..)
            | TokenKind::Float(..)
            | TokenKind::String(..)
            | TokenKind::Char(..)
            | TokenKind::True
            | TokenKind::False
            | TokenKind::Ident(..)
            | TokenKind::UpperIdent(..)
            | TokenKind::Dollar
            | TokenKind::Minus
            | TokenKind::Bang => true,
            _ => false,
        }
    }

    /// Get the keyword for an identifier, if it is one.
    pub fn keyword_from_str(s: &str) -> (r: Option<TokenKind>)
        ensures
            match r {
                Some(k) => keyword_of(s@) == Some(k@),
                None => keyword_of(s@) is None,
            },
    {
        let cs = chars_of(s);
        Self::keyword_from_chars(&cs)
    }

    /// The keyword spelled by a sequence of characters, if it is one.
    pub fn keyword_from_chars(cs: &Vec<char>) -> (r: Option<TokenKind>)
        ensures
            match r {
                Some(k) => keyword_of(cs@) == Some(k@),
                None => keyword_of(cs@) is None,
            },
    {
        if chars_eq(cs, &['l', 'e', 't']) {
            return Some(TokenKind::Let);
        }
        if chars_eq(cs, &['i', 'n']) {
            return Some(TokenKind::In);
        }
        if chars_eq(cs, &['f', 'n']) {
            return Some(TokenKind::Fn);
        }
        if chars_eq(cs, &['f', 'u', 'n']) {
            return Some(TokenKind::Fun);
        }
        if chars_eq(cs, &['r', 'e', 'c']) {
            return Some(TokenKind::Rec);
        }
        if chars_eq(cs, &['a', 'n', 'd']) {
            return Some(TokenKind::And);
        }
        if chars_eq(cs, &['m', 'a', 't', 'c', 'h']) {
            return Some(TokenKind::Match);
        }
        if chars_eq(cs, &['w', 'i', 't', 'h']) {
            return Some(TokenKind::With);
        }
        if chars_eq(cs, &['c', 'a', 's', 'e']) {
            return Some(TokenKind::Case);
        }
        if chars_eq(cs, &['o', 'f']) {
            return Some(TokenKind::Of);
        }
        if chars_eq(cs, &['d', 'a', 't', 'a', 't', 'y', 'p', 'e']) {
            return Some(TokenKind::Datatype);
        }
        if chars_eq(cs, &['t', 'y', 'p', 'e']) {
            return Some(TokenKind::Type);
        }
        if chars_eq(cs, &['i', 'f']) {
            return Some(TokenKind::If);
        }
        if chars_eq(cs, &['t', 'h', 'e', 'n']) {
            return Some(TokenKind::Then);
        }
        if chars_eq(cs, &['e', 'l', 's', 'e']) {
            return Some(TokenKind::Else);
        }
        if chars_eq(cs, &['d', 'o']) {
            return Some(TokenKind::Do);
        }
        if chars_eq(cs, &['e', 'n', 'd']) {
            return Some(TokenKind::End);
        }
        if chars_eq(cs, &['t', 'r', 'u', 'e']) {
            return Some(TokenKind::True);
        }
        if chars_eq(cs, &['f', 'a', 'l', 's', 'e']) {
            return Some(TokenKind::False);
        }
        if chars_eq(cs, &['a', 'n', 'd', 'a', 'l', 's', 'o']) {
            return Some(TokenKind::AndAlso);
        }
        if chars_eq(cs, &['o', 'r', 'e', 'l', 's', 'e']) {
            return Some(TokenKind::OrElse);
        }
        if chars_eq(cs, &['n', 'o', 't']) {
            return Some(TokenKind::Bang);
        }
        if chars_eq(cs, &['t', 'r', 'a', 'i', 't']) {
            return Some(TokenKind::Trait);
        }
        if chars_eq(cs, &['i', 'm', 'p', 'l']) {
            return Some(TokenKind::Impl);
        }
        if chars_eq(cs, &['f', 'o', 'r']) {
            return Some(TokenKind::For);
        }
        None
    }

    /// Get a human-readable name for this token kind.
    pub fn name(&self) -> (s: &'static str)
        ensures
            s@ == kind_name(self@),
    {
        match self {
            TokenKind::Let => "let",
            TokenKind::In => "in",
            TokenKind::Fn => "fn",
            TokenKind::Fun => "fun",
            TokenKind::Rec => "rec",
            TokenKind::And => "and",
            TokenKind::Match => "match",
            TokenKind::With => "with",
            TokenKind::Case => "case",
            TokenKind::Of => "of",
            TokenKind::Datatype => "datatype",
            TokenKind::Type => "type",
            TokenKind::If => "if",
            TokenKind::Then => "then",
            TokenKind::Else => "else",
            TokenKind::Do => "do",
            TokenKind::End => "end",
            TokenKind::True => "true",
            TokenKind::False => "false",
            TokenKind::Trait => "trait",
            TokenKind::Impl => "impl",
            TokenKind::For => "for",
            TokenKind::Pipe => "|>",
            TokenKind::Gt => ">",
            TokenKind::GtGt => ">>",
            TokenKind::Lt => "<",
            TokenKind::Dollar => "$",
            TokenKind::Backtick => "`",
            TokenKind::CommandText(..) => "command text",
            TokenKind::Plus => "+",
            TokenKind::PlusPlus => "++",
            TokenKind::Minus => "-",
            TokenKind::Star => "*",
            TokenKind::Slash => "/",
            TokenKind::Percent => "%",
            TokenKind::Eq => "=",
            TokenKind::EqEq => "==",
            TokenKind::Neq => "<>",
            TokenKind::Le => "<=",
            TokenKind::Ge => ">=",
            TokenKind::Caret => "^",
            TokenKind::ColonColon => "::",
            TokenKind::At => "@",
            TokenKind::AndAlso => "andalso",
            TokenKind::OrElse => "orelse",
            TokenKind::Bang => "!",
            TokenKind::ColonEq => ":=",
            TokenKind::Arrow => "->",
            TokenKind::FatArrow => "=>",
            TokenKind::LeftArrow => "<-",
            TokenKind::LParen => "(",
            TokenKind::RParen => ")",
            TokenKind::LBracket => "[",
            TokenKind::RBracket => "]",
            TokenKind::LBrace => "{",
            TokenKind::RBrace => "}",
            TokenKind::Comma => ",",
            TokenKind::Semi => ";",
            TokenKind::Colon => ":",
            TokenKind::Bar => "|",
            TokenKind::Underscore => "_",
            TokenKind::Dot => ".",
            TokenKind::Ellipsis => "...",
            TokenKind::Int(..) => "integer",
            TokenKind::Float(..) => "float",
            TokenKind::String(..) => "string",
            TokenKind::Char(..) => "char",
            TokenKind::Ident(..) => "identifier",
            TokenKind::TyVar(..) => "type variable",
            TokenKind::UpperIdent(..) => "constructor",
            TokenKind::Eof => "end of file",
        }
    }
}

impl TokenKind {
    /// A copy of this token kind.
    pub(crate) fn copied(&self) -> (r: Self)
        ensures
            r@ == self@,
    {
        match self {
            TokenKind::Let => TokenKind::Let,
            TokenKind::In => TokenKind::In,
            TokenKind::Fn => TokenKind::Fn,
            TokenKind::Fun => TokenKind::Fun,
            TokenKind::Rec => TokenKind::Rec,
            TokenKind::And => TokenKind::And,
            TokenKind::Match => TokenKind::Match,
            TokenKind::With => TokenKind::With,
            TokenKind::Case => TokenKind::Case,
            TokenKind::Of => TokenKind::Of,
            TokenKind::Datatype => TokenKind::Datatype,
            TokenKind::Type => TokenKind::Type,
            TokenKind::If => TokenKind::If,
            TokenKind::Then => TokenKind::Then,
            TokenKind::Else => TokenKind::Else,
            TokenKind::Do => TokenKind::Do,
            TokenKind::End => TokenKind::End,
            TokenKind::True => TokenKind::True,
            TokenKind::False => TokenKind::False,
            TokenKind::Trait => TokenKind::Trait,
            TokenKind::Impl => TokenKind::Impl,
            TokenKind::For => TokenKind::For,
            TokenKind::Pipe => TokenKind::Pipe,
            TokenKind::Gt => TokenKind::Gt,
            TokenKind::GtGt => TokenKind::GtGt,
            TokenKind::Lt => TokenKind::Lt,
            TokenKind::Dollar => TokenKind::Dollar,
            TokenKind::Backtick => TokenKind::Backtick,
            TokenKind::CommandText(x) => TokenKind::CommandText(x.clone()),
            TokenKind::Plus => TokenKind::Plus,
            TokenKind::PlusPlus => TokenKind::PlusPlus,
            TokenKind::Minus => TokenKind::Minus,
            TokenKind::Star => TokenKind::Star,
            TokenKind::Slash => TokenKind::Slash,
            TokenKind::Percent => TokenKind::Percent,
            TokenKind::Eq => TokenKind::Eq,
            TokenKind::EqEq => TokenKind::EqEq,
            TokenKind::Neq => TokenKind::Neq,
            TokenKind::Le => TokenKind::Le,
            TokenKind::Ge => TokenKind::Ge,
            TokenKind::Caret => TokenKind::Caret,
            TokenKind::ColonColon => TokenKind::ColonColon,
            TokenKind::At => TokenKind::At,
            TokenKind::AndAlso => TokenKind::AndAlso,
            TokenKind::OrElse => TokenKind::OrElse,
            TokenKind::Bang => TokenKind::Bang,
            TokenKind::ColonEq => TokenKind::ColonEq,
            TokenKind::Arrow => TokenKind::Arrow,
            TokenKind::FatArrow => TokenKind::FatArrow,
            TokenKind::LeftArrow => TokenKind::LeftArrow,
            TokenKind::LParen => TokenKind::LParen,
            TokenKind::RParen => TokenKind::RParen,
            TokenKind::LBracket => TokenKind::LBracket,
            TokenKind::RBracket => TokenKind::RBracket,
            TokenKind::LBrace => TokenKind::LBrace,
            TokenKind::RBrace => TokenKind::RBrace,
            TokenKind::Comma => TokenKind::Comma,
            TokenKind::Semi => TokenKind::Semi,
            TokenKind::Colon => TokenKind::Colon,
            TokenKind::Bar => TokenKind::Bar,
            TokenKind::Underscore => TokenKind::Underscore,
            TokenKind::Dot => TokenKind::Dot,
            TokenKind::Ellipsis => TokenKind::Ellipsis,
            TokenKind::Int(x) => TokenKind::Int(*x),
            TokenKind::Float(x) => TokenKind::Float(x.clone()),
            TokenKind::String(x) => TokenKind::String(x.clone()),
            TokenKind::Char(x) => TokenKind::Char(*x),
            TokenKind::Ident(x) => TokenKind::Ident(x.clone()),
            TokenKind::TyVar(x) => TokenKind::TyVar(x.clone()),
            TokenKind::UpperIdent(x) => TokenKind::UpperIdent(x.clone()),
            TokenKind::Eof => TokenKind::Eof,
        }
    }
}

impl Token {
    /// A copy of this token.
    pub(crate) fn copied(&self) -> (r: Self)
        ensures
            r.kind@ == self.kind@,
            r.span == self.span,
    {
        Token { kind: self.kind.copied(), span: self.span }
    }
}

/// The position of a token kind's variant in the declaration of `TokenKind`.
pub open spec fn tag(t: Tok) -> nat {
    match t {
        Tok::Let => 0,
        Tok::In => 1,
        Tok::Fn => 2,
        Tok::Fun => 3,
        Tok::Rec => 4,
        Tok::And => 5,
        Tok::Match => 6,
        Tok::With => 7,
        Tok::Case => 8,
        Tok::Of => 9,
        Tok::Datatype => 10,
        Tok::Type => 11,
        Tok::If => 12,
        Tok::Then => 13,
        Tok::Else => 14,
        Tok::Do => 15,
        Tok::End => 16,
        Tok::True => 17,
        Tok::False => 18,
        Tok::Trait => 19,
        Tok::Impl => 20,
        Tok::For => 21,
        Tok::Pipe => 22,
        Tok::Gt => 23,
        Tok::GtGt => 24,
        Tok::Lt => 25,
        Tok::Dollar => 26,
        Tok::Backtick => 27,
        Tok::CommandText(_) => 28,
        Tok::Plus => 29,
        Tok::PlusPlus => 30,
        Tok::Minus => 31,
        Tok::Star => 32,
        Tok::Slash => 33,
        Tok::Percent => 34,
        Tok::Eq => 35,
        Tok::EqEq => 36,
        Tok::Neq => 37,
        Tok::Le => 38,
        Tok::Ge => 39,
        Tok::Caret => 40,
        Tok::ColonColon => 41,
        Tok::At => 42,
        Tok::AndAlso => 43,
        Tok::OrElse => 44,
        Tok::Bang => 45,
        Tok::ColonEq => 46,
        Tok::Arrow => 47,
        Tok::FatArrow => 48,
        Tok::LeftArrow => 49,
        Tok::LParen => 50,
        Tok::RParen => 51,
        Tok::LBracket => 52,
        Tok::RBracket => 53,
        Tok::LBrace => 54,
        Tok::RBrace => 55,
        Tok::Comma => 56,
        Tok::Semi => 57,
        Tok::Colon => 58,
        Tok::Bar => 59,
        Tok::Underscore => 60,
        Tok::Dot => 61,
        Tok::Ellipsis => 62,
        Tok::Int(_) => 63,
        Tok::Float(_) => 64,
        Tok::String(_) => 65,
        Tok::Char(_) => 66,
        Tok::Ident(_) => 67,
        Tok::TyVar(_) => 68,
        Tok::UpperIdent(_) => 69,
        Tok::Eof => 70,
    }
}

/// Whether a token kind carries a value (text, a number or a character).
pub open spec fn has_payload(t: Tok) -> bool {
    match t {
        Tok::CommandText(_) | Tok::Int(_) | Tok::Float(_) | Tok::String(_) | Tok::Char(_) | Tok::Ident(_) | Tok::TyVar(_) | Tok::UpperIdent(_) => true,
        _ => false,
    }
}

/// The token kind without payload at a variant position.
pub open spec fn untag(n: nat) -> Tok {
    if n == 0 { Tok::Let }
    else if n == 1 { Tok::In }
    else if n == 2 { Tok::Fn }
    else if n == 3 { Tok::Fun }
    else if n == 4 { Tok::Rec }
    else if n == 5 { Tok::And }
    else if n == 6 { Tok::Match }
    else if n == 7 { Tok::With }
    else if n == 8 { Tok::Case }
    else if n == 9 { Tok::Of }
    else if n == 10 { Tok::Datatype }
    else if n == 11 { Tok::Type }
    else if n == 12 { Tok::If }
    else if n == 13 { Tok::Then }
    else if n == 14 { Tok::Else }
    else if n == 15 { Tok::Do }
    else if n == 16 { Tok::End }
    else if n == 17 { Tok::True }
    else if n == 18 { Tok::False }
    else if n == 19 { Tok::Trait }
    else if n == 20 { Tok::Impl }
    else if n == 21 { Tok::For }
    else if n == 22 { Tok::Pipe }
    else if n == 23 { Tok::Gt }
    else if n == 24 { Tok::GtGt }
    else if n == 25 { Tok::Lt }
    else if n == 26 { Tok::Dollar }
    else if n == 27 { Tok::Backtick }
    else if n == 28 { Tok::CommandText(Seq::empty()) }
    else if n == 29 { Tok::Plus }
    else if n == 30 { Tok::PlusPlus }
    else if n == 31 { Tok::Minus }
    else if n == 32 { Tok::Star }
    else if n == 33 { Tok::Slash }
    else if n == 34 { Tok::Percent }
    else if n == 35 { Tok::Eq }
    else if n == 36 { Tok::EqEq }
    else if n == 37 { Tok::Neq }
    else if n == 38 { Tok::Le }
    else if n == 39 { Tok::Ge }
    else if n == 40 { Tok::Caret }
    else if n == 41 { Tok::ColonColon }
    else if n == 42 { Tok::At }
    else if n == 43 { Tok::AndAlso }
    else if n == 44 { Tok::OrElse }
    else if n == 45 { Tok::Bang }
    else if n == 46 { Tok::ColonEq }
    else if n == 47 { Tok::Arrow }
    else if n == 48 { Tok::FatArrow }
    else if n == 49 { Tok::LeftArrow }
    else if n == 50 { Tok::LParen }
    else if n == 51 { Tok::RParen }
    else if n == 52 { Tok::LBracket }
    else if n == 53 { Tok::RBracket }
    else if n == 54 { Tok::LBrace }
    else if n == 55 { Tok::RBrace }
    else if n == 56 { Tok::Comma }
    else if n == 57 { Tok::Semi }
    else if n == 58 { Tok::Colon }
    else if n == 59 { Tok::Bar }
    else if n == 60 { Tok::Underscore }
    else if n == 61 { Tok::Dot }
    else if n == 62 { Tok::Ellipsis }
    else if n == 63 { Tok::Int(0) }
    else if n == 64 { Tok::Float(Seq::empty()) }
    else if n == 65 { Tok::String(Seq::empty()) }
    else if n == 66 { Tok::Char(' ') }
    else if n == 67 { Tok::Ident(Seq::empty()) }
    else if n == 68 { Tok::TyVar(Seq::empty()) }
    else if n == 69 { Tok::UpperIdent(Seq::empty()) }
    else if n == 70 { Tok::Eof }
    else { Tok::Eof }
}

/// Two token kinds with the same variant position are equal where one of them carries no value.
pub proof fn lemma_tag_determines(a: Tok, b: Tok)
    requires
        tag(a) == tag(b),
        !has_payload(b),
    ensures
        a == b,
{
    assert(untag(tag(b)) == b) by {
        match b {
            Tok::Let => {},
            Tok::In => {},
            Tok::Fn => {},
            Tok::Fun => {},
            Tok::Rec => {},
            Tok::And => {},
            Tok::Match => {},
            Tok::With => {},
            Tok::Case => {},
            Tok::Of => {},
            Tok::Datatype => {},
            Tok::Type => {},
            Tok::If => {},
            Tok::Then => {},
            Tok::Else => {},
            Tok::Do => {},
            Tok::End => {},
            Tok::True => {},
            Tok::False => {},
            Tok::Trait => {},
            Tok::Impl => {},
            Tok::For => {},
            Tok::Pipe => {},
            Tok::Gt => {},
            Tok::GtGt => {},
            Tok::Lt => {},
            Tok::Dollar => {},
            Tok::Backtick => {},
            Tok::CommandText(_) => {},
            Tok::Plus => {},
            Tok::PlusPlus => {},
            Tok::Minus => {},
            Tok::Star => {},
            Tok::Slash => {},
            Tok::Percent => {},
            Tok::Eq => {},
            Tok::EqEq => {},
            Tok::Neq => {},
            Tok::Le => {},
            Tok::Ge => {},
            Tok::Caret => {},
            Tok::ColonColon => {},
            Tok::At => {},
            Tok::AndAlso => {},
            Tok::OrElse => {},
            Tok::Bang => {},
            Tok::ColonEq => {},
            Tok::Arrow => {},
            Tok::FatArrow => {},
            Tok::LeftArrow => {},
            Tok::LParen => {},
            Tok::RParen => {},
            Tok::LBracket => {},
            Tok::RBracket => {},
            Tok::LBrace => {},
            Tok::RBrace => {},
            Tok::Comma => {},
            Tok::Semi => {},
            Tok::Colon => {},
            Tok::Bar => {},
            Tok::Underscore => {},
            Tok::Dot => {},
            Tok::Ellipsis => {},
            Tok::Int(_) => {},
            Tok::Float(_) => {},
            Tok::String(_) => {},
            Tok::Char(_) => {},
            Tok::Ident(_) => {},
            Tok::TyVar(_) => {},
            Tok::UpperIdent(_) => {},
            Tok::Eof => {},
        }
    }
    match a {
        Tok::Let => {},
        Tok::In => {},
        Tok::Fn => {},
        Tok::Fun => {},
        Tok::Rec => {},
        Tok::And => {},
        Tok::Match => {},
        Tok::With => {},
        Tok::Case => {},
        Tok::Of => {},
        Tok::Datatype => {},
        Tok::Type => {},
        Tok::If => {},
        Tok::Then => {},
        Tok::Else => {},
        Tok::Do => {},
        Tok::End => {},
        Tok::True => {},
        Tok::False => {},
        Tok::Trait => {},
        Tok::Impl => {},
        Tok::For => {},
        Tok::Pipe => {},
        Tok::Gt => {},
        Tok::GtGt => {},
        Tok::Lt => {},
        Tok::Dollar => {},
        Tok::Backtick => {},
        Tok::CommandText(_) => {},
        Tok::Plus => {},
        Tok::PlusPlus => {},
        Tok::Minus => {},
        Tok::Star => {},
        Tok::Slash => {},
        Tok::Percent => {},
        Tok::Eq => {},
        Tok::EqEq => {},
        Tok::Neq => {},
        Tok::Le => {},
        Tok::Ge => {},
        Tok::Caret => {},
        Tok::ColonColon => {},
        Tok::At => {},
        Tok::AndAlso => {},
        Tok::OrElse => {},
        Tok::Bang => {},
        Tok::ColonEq => {},
        Tok::Arrow => {},
        Tok::FatArrow => {},
        Tok::LeftArrow => {},
        Tok::LParen => {},
        Tok::RParen => {},
        Tok::LBracket => {},
        Tok::RBracket => {},
        Tok::LBrace => {},
        Tok::RBrace => {},
        Tok::Comma => {},
        Tok::Semi => {},
        Tok::Colon => {},
        Tok::Bar => {},
        Tok::Underscore => {},
        Tok::Dot => {},
        Tok::Ellipsis => {},
        Tok::Int(_) => {},
        Tok::Float(_) => {},
        Tok::String(_) => {},
        Tok::Char(_) => {},
        Tok::Ident(_) => {},
        Tok::TyVar(_) => {},
        Tok::UpperIdent(_) => {},
        Tok::Eof => {},
    }
}

impl TokenKind {
    /// The position of this kind's variant.
    pub(crate) fn tag_of(&self) -> (n: u8)
        ensures
            n == tag(self@),
    {
        match self {
            TokenKind::Let => 0,
            TokenKind::In => 1,
            TokenKind::Fn => 2,
            TokenKind::Fun => 3,
            TokenKind::Rec => 4,
            TokenKind::And => 5,
            TokenKind::Match => 6,
            TokenKind::With => 7,
            TokenKind::Case => 8,
            TokenKind::Of => 9,
            TokenKind::Datatype => 10,
            TokenKind::Type => 11,
            TokenKind::If => 12,
            TokenKind::Then => 13,
            TokenKind::Else => 14,
            TokenKind::Do => 15,
            TokenKind::End => 16,
            TokenKind::True => 17,
            TokenKind::False => 18,
            TokenKind::Trait => 19,
            TokenKind::Impl => 20,
            TokenKind::For => 21,
            TokenKind::Pipe => 22,
            TokenKind::Gt => 23,
            TokenKind::GtGt => 24,
            TokenKind::Lt => 25,
            TokenKind::Dollar => 26,
            TokenKind::Backtick => 27,
            TokenKind::CommandText(_) => 28,
            TokenKind::Plus => 29,
            TokenKind::PlusPlus => 30,
            TokenKind::Minus => 31,
            TokenKind::Star => 32,
            TokenKind::Slash => 33,
            TokenKind::Percent => 34,
            TokenKind::Eq => 35,
            TokenKind::EqEq => 36,
            TokenKind::Neq => 37,
            TokenKind::Le => 38,
            TokenKind::Ge => 39,
            TokenKind::Caret => 40,
            TokenKind::ColonColon => 41,
            TokenKind::At => 42,
            TokenKind::AndAlso => 43,
            TokenKind::OrElse => 44,
            TokenKind::Bang => 45,
            TokenKind::ColonEq => 46,
            TokenKind::Arrow => 47,
            TokenKind::FatArrow => 48,
            TokenKind::LeftArrow => 49,
            TokenKind::LParen => 50,
            TokenKind::RParen => 51,
            TokenKind::LBracket => 52,
            TokenKind::RBracket => 53,
            TokenKind::LBrace => 54,
            TokenKind::RBrace => 55,
            TokenKind::Comma => 56,
            TokenKind::Semi => 57,
            TokenKind::Colon => 58,
            TokenKind::Bar => 59,
            TokenKind::Underscore => 60,
            TokenKind::Dot => 61,
            TokenKind::Ellipsis => 62,
            TokenKind::Int(_) => 63,
            TokenKind::Float(_) => 64,
            TokenKind::String(_) => 65,
            TokenKind::Char(_) => 66,
            TokenKind::Ident(_) => 67,
            TokenKind::TyVar(_) => 68,
            TokenKind::UpperIdent(_) => 69,
            TokenKind::Eof => 70,
        }
    }
}

} // verus!
