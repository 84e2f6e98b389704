//! Parser for the Neap language
//!
//! Transforms a token stream into an Abstract Syntax Tree using
//! recursive descent parsing with Pratt parsing for operators.

use vstd::prelude::*;
use super::ast::{
    BinOp, CommandPart, Constructor, DatatypeDecl, Decl, DoStmt, Expr, FunClause, FunDecl, ImplDecl,
    Literal, MatchArm, MethodImpl, MethodSig, Pattern, Program, TraitDecl, TypeDecl, TypeExpr, UnOp,
    ValDecl,
};
use super::lexer::{LexErr, Lexer, LexerError, initial_state, lex_error_text, lex_from, utf8_len};
use super::span::{Span, Spanned};
use super::token::{Tok, Token, TokenKind, has_payload, kind_name, lemma_tag_determines, tag};
use crate::text::{decimal, push_decimal, push_str};

verus! {

/// Errors that can occur during parsing.
#[derive(Debug, PartialEq)]
pub enum ParseError {
    /// Lexer error during tokenization
    LexerError(LexerError),
    /// Unexpected token
    UnexpectedToken { expected: String, found: String, span: Span },
    /// Unexpected end of file
    UnexpectedEof { expected: String },
    /// Invalid pattern
    InvalidPattern { span: Span },
    /// Invalid expression
    InvalidExpression { span: Span },
}

/// A parse error as a value.
pub enum ParseErr {
    Lexer(LexErr),
    UnexpectedToken { expected: Seq<char>, found: Seq<char>, span: Span },
    UnexpectedEof { expected: Seq<char> },
    InvalidPattern { span: Span },
    InvalidExpression { span: Span },
}

impl View for ParseError {
    type V = ParseErr;

    open spec fn view(&self) -> ParseErr {
        match self {
            ParseError::LexerError(e) => ParseErr::Lexer(e@),
            ParseError::UnexpectedToken { expected, found, span } =>
                ParseErr::UnexpectedToken { expected: expected@, found: found@, span: *span },
            ParseError::UnexpectedEof { expected } => ParseErr::UnexpectedEof { expected: expected@ },
            ParseError::InvalidPattern { span } => ParseErr::InvalidPattern { span: *span },
            ParseError::InvalidExpression { span } => ParseErr::InvalidExpression { span: *span },
        }
    }
}

/// How a span is written in messages.
pub open spec fn span_text(s: Span) -> Seq<char> {
    "Span { start: "@ + decimal(s.start as nat) + ", end: "@ + decimal(s.end as nat) + " }"@
}

/// The message of a parse error.
pub open spec fn parse_error_text(e: ParseErr) -> Seq<char> {
    match e {
        ParseErr::Lexer(l) => "lexer error: "@ + lex_error_text(l),
        ParseErr::UnexpectedToken { expected, found, span } =>
            "unexpected token: expected "@ + expected + ", found "@ + found + " at "@ + span_text(span),
        ParseErr::UnexpectedEof { expected } => "unexpected end of file: expected "@ + expected,
        ParseErr::InvalidPattern { span } => "invalid pattern at "@ + span_text(span),
        ParseErr::InvalidExpression { span } => "invalid expression at "@ + span_text(span),
    }
}

fn push_span(s: &mut String, span: Span)
    ensures
        final(s)@ == old(s)@ + span_text(span),
{
    push_str(s, "Span { start: ");
    push_decimal(s, span.start as u64);
    push_str(s, ", end: ");
    push_decimal(s, span.end as u64);
    push_str(s, " }");
}

impl ParseError {
    /// The error's message.
    pub fn to_string(&self) -> (s: String)
        ensures
            s@ == parse_error_text(self@),
    {
        let mut s = String::new();
        match self {
            ParseError::LexerError(e) => {
                push_str(&mut s, "lexer error: ");
                let m = e.to_string();
                push_str(&mut s, m.as_str());
            },
            ParseError::UnexpectedToken { expected, found, span } => {
                push_str(&mut s, "unexpected token: expected ");
                push_str(&mut s, expected.as_str());
                push_str(&mut s, ", found ");
                push_str(&mut s, found.as_str());
                push_str(&mut s, " at ");
                push_span(&mut s, *span);
            },
            ParseError::UnexpectedEof { expected } => {
                push_str(&mut s, "unexpected end of file: expected ");
                push_str(&mut s, expected.as_str());
            },
            ParseError::InvalidPattern { span } => {
                push_str(&mut s, "invalid pattern at ");
                push_span(&mut s, *span);
            },
            ParseError::InvalidExpression { span } => {
                push_str(&mut s, "invalid expression at ");
                push_span(&mut s, *span);
            },
        }
        s
    }
}

/// The Neap parser.
///
/// Parses a token stream into an AST.
pub struct Parser {
    /// The tokens to parse
    tokens: Vec<Token>,
    /// Current position in the token stream
    pos: usize,
}

/// `b` reads the same tokens as `a`, from no earlier position.
pub open spec fn follows(a: Parser, b: Parser) -> bool {
    &&& b.wf()
    &&& b.toks() == a.toks()
    &&& a.at() <= b.at()
}

/// `b` reads the same tokens as `a`, from a later position.
pub open spec fn moved(a: Parser, b: Parser) -> bool {
    follows(a, b) && a.at() < b.at()
}

impl Parser {
    /// The position is within the tokens.
    pub closed spec fn wf(&self) -> bool {
        self.pos <= self.tokens@.len()
    }

    /// The tokens being parsed.
    pub closed spec fn toks(&self) -> Seq<Token> {
        self.tokens@
    }

    /// The current position.
    pub closed spec fn at(&self) -> int {
        self.pos as int
    }

    /// How many tokens are left.
    pub closed spec fn remaining(&self) -> nat {
        if self.pos <= self.tokens@.len() { (self.tokens@.len() - self.pos) as nat } else { 0 }
    }

    /// The kind of the current token, if any.
    pub open spec fn current(&self) -> Option<Tok> {
        if 0 <= self.at() < self.toks().len() { Some(self.toks()[self.at()].kind@) } else { None }
    }

    /// The span of the current token (meaningful where there is one).
    pub open spec fn current_span(&self) -> Span {
        self.toks()[self.at()].span
    }

    /// Create a new parser from source code.
    pub fn new(source: &str) -> (r: Result<Self, ParseError>)
        requires
            utf8_len(source@) <= usize::MAX,
        ensures
            match r {
                Ok(p) => p.wf() && p.at() == 0
                    && lex_from(source@, initial_state()) == Ok::<Seq<(Tok, Span)>, LexErr>(p.toks().map_values(|t: Token| t@)),
                Err(e) => e matches ParseError::LexerError(l)
                    && lex_from(source@, initial_state()) == Err::<Seq<(Tok, Span)>, LexErr>(l@),
            },
    {
        match Lexer::tokenize(source) {
            Ok(tokens) => Ok(Self { tokens, pos: 0 }),
            Err(e) => Err(ParseError::LexerError(e)),
        }
    }

    /// Create a parser from a pre-tokenized stream.
    pub fn from_tokens(tokens: Vec<Token>) -> (p: Self)
        ensures
            p.wf(),
            p.toks() == tokens@,
            p.at() == 0,
    {
        Self { tokens, pos: 0 }
    }

    /// Check if the parser has consumed all input.
    pub fn is_at_end(&self) -> (b: bool)
        requires
            self.wf(),
        ensures
            b == (self.current() is None || self.current() == Some(Tok::Eof)),
    {
        match self.peek_kind() {
            None => true,
            Some(TokenKind::Eof) => true,
            Some(_) => false,
        }
    }

    // ========== Helper Methods ==========

    fn peek(&self) -> (r: Option<&Token>)
        requires
            self.wf(),
        ensures
            match r {
                Some(t) => self.pos < self.tokens@.len() && *t == self.tokens@[self.pos as int],
                None => self.pos == self.tokens@.len(),
            },
    {
        if self.pos < self.tokens.len() { Some(&self.tokens[self.pos]) } else { None }
    }

    fn peek_kind(&self) -> (r: Option<&TokenKind>)
        requires
            self.wf(),
        ensures
            match r {
                Some(k) => self.pos < self.tokens@.len() && *k == self.tokens@[self.pos as int].kind,
                None => self.pos == self.tokens@.len(),
            },
    {
        if self.pos < self.tokens.len() { Some(&self.tokens[self.pos].kind) } else { None }
    }

    /// A copy of the current token's kind.
    fn peek_owned(&self) -> (r: Option<TokenKind>)
        requires
            self.wf(),
        ensures
            match r {
                Some(k) => self.current() == Some(k@),
                None => self.current() is None,
            },
    {
        if self.pos < self.tokens.len() { Some(self.tokens[self.pos].kind.copied()) } else { None }
    }

    fn advance(&mut self) -> (t: Token)
        requires
            old(self).wf(),
            old(self).pos < old(self).tokens@.len(),
        ensures
            final(self).tokens == old(self).tokens,
            final(self).pos == old(self).pos + 1,
            final(self).wf(),
            t.kind@ == old(self).tokens@[old(self).pos as int].kind@,
            t.span == old(self).tokens@[old(self).pos as int].span,
    {
        let token = self.tokens[self.pos].copied();
        let n = self.tokens.len();
        assert(self.pos < n);
        self.pos += 1;
        token
    }

    fn eat(&mut self, kind: TokenKind) -> (b: bool)
        requires
            old(self).wf(),
            !has_payload(kind@),
        ensures
            b == (old(self).current() == Some(kind@)),
            final(self).tokens == old(self).tokens,
            final(self).wf(),
            final(self).pos == if b { old(self).pos + 1 } else { old(self).pos as int },
    {
        let here = match self.peek_kind() {
            Some(k) => {
                let same = k.tag_of() == kind.tag_of();
                proof {
                    if same {
                        lemma_tag_determines(k@, kind@);
                    }
                }
                same
            },
            None => false,
        };
        if here {
            self.advance();
        }
        here
    }

    fn expect(&mut self, kind: TokenKind) -> (r: Result<Token, ParseError>)
        requires
            old(self).wf(),
            !has_payload(kind@),
        ensures
            final(self).tokens == old(self).tokens,
            final(self).wf(),
            match r {
                Ok(t) => old(self).current() == Some(kind@) && final(self).pos == old(self).pos + 1
                    && t.span == old(self).current_span(),
                Err(e) => final(self).pos == old(self).pos && old(self).current() != Some(kind@) && match old(self).current() {
                    Some(found) => e@ == (ParseErr::UnexpectedToken {
                        expected: kind_name(kind@),
                        found: kind_name(found),
                        span: old(self).current_span(),
                    }),
                    None => e@ == (ParseErr::UnexpectedEof { expected: kind_name(kind@) }),
                },
            },
    {
        let expected = kind.name().to_owned();
        match self.peek() {
            Some(token) => {
                let same = token.kind.tag_of() == kind.tag_of();
                proof {
                    if same {
                        lemma_tag_determines(token.kind@, kind@);
                    }
                }
                if same {
                    Ok(self.advance())
                } else {
                    Err(ParseError::UnexpectedToken {
                        expected,
                        found: token.kind.name().to_owned(),
                        span: token.span,
                    })
                }
            },
            None => Err(ParseError::UnexpectedEof { expected }),
        }
    }

    /// An error for an unexpected current token.
    fn unexpected_here(&self, expected: &str) -> (e: ParseError)
        requires
            self.wf(),
            self.pos < self.tokens@.len(),
        ensures
            e@ == (ParseErr::UnexpectedToken {
                expected: expected@,
                found: kind_name(self.current()->0),
                span: self.current_span(),
            }),
    {
        let token = &self.tokens[self.pos];
        ParseError::UnexpectedToken {
            expected: expected.to_owned(),
            found: token.kind.name().to_owned(),
            span: token.span,
        }
    }

    fn eof_error(expected: &str) -> (e: ParseError)
        ensures
            e@ == (ParseErr::UnexpectedEof { expected: expected@ }),
    {
        ParseError::UnexpectedEof { expected: expected.to_owned() }
    }

    fn expect_ident(&mut self) -> (r: Result<Spanned<String>, ParseError>)
        requires
            old(self).wf(),
        ensures
            final(self).tokens == old(self).tokens,
            final(self).wf(),
            match r {
                Ok(s) => old(self).current() == Some(Tok::Ident(s.value@)) && final(self).pos == old(self).pos + 1
                    && s.span == old(self).current_span(),
                Err(e) => final(self).pos == old(self).pos && !(old(self).current() matches Some(Tok::Ident(_)))
                    && match old(self).current() {
                        Some(found) => e@ == (ParseErr::UnexpectedToken {
                            expected: "identifier"@,
                            found: kind_name(found),
                            span: old(self).current_span(),
                        }),
                        None => e@ == (ParseErr::UnexpectedEof { expected: "identifier"@ }),
                    },
            },
    {
        match self.peek_owned() {
            Some(TokenKind::Ident(name)) => {
                let token = self.advance();
                Ok(Spanned::new(name, token.span))
            },
            Some(_) => Err(self.unexpected_here("identifier")),
            None => Err(Self::eof_error("identifier")),
        }
    }

    fn expect_upper_ident(&mut self) -> (r: Result<Spanned<String>, ParseError>)
        requires
            old(self).wf(),
        ensures
            final(self).tokens == old(self).tokens,
            final(self).wf(),
            match r {
                Ok(s) => old(self).current() == Some(Tok::UpperIdent(s.value@)) && final(self).pos == old(self).pos + 1
                    && s.span == old(self).current_span(),
                Err(e) => final(self).pos == old(self).pos && !(old(self).current() matches Some(Tok::UpperIdent(_)))
                    && match old(self).current() {
                        Some(found) => e@ == (ParseErr::UnexpectedToken {
                            expected: "constructor"@,
                            found: kind_name(found),
                            span: old(self).current_span(),
                        }),
                        None => e@ == (ParseErr::UnexpectedEof { expected: "constructor"@ }),
                    },
            },
    {
        match self.peek_owned() {
            Some(TokenKind::UpperIdent(name)) => {
                let token = self.advance();
                Ok(Spanned::new(name, token.span))
            },
            Some(_) => Err(self.unexpected_here("constructor")),
            None => Err(Self::eof_error("constructor")),
        }
    }

    fn expect_any_ident(&mut self) -> (r: Result<Spanned<String>, ParseError>)
        requires
            old(self).wf(),
        ensures
            final(self).tokens == old(self).tokens,
            final(self).wf(),
            match r {
                Ok(s) => (old(self).current() == Some(Tok::Ident(s.value@))
                    || old(self).current() == Some(Tok::UpperIdent(s.value@)))
                    && final(self).pos == old(self).pos + 1 && s.span == old(self).current_span(),
                Err(e) => final(self).pos == old(self).pos
                    && !(old(self).current() matches Some(Tok::Ident(_)))
                    && !(old(self).current() matches Some(Tok::UpperIdent(_)))
                    && match old(self).current() {
                        Some(found) => e@ == (ParseErr::UnexpectedToken {
                            expected: "identifier"@,
                            found: kind_name(found),
                            span: old(self).current_span(),
                        }),
                        None => e@ == (ParseErr::UnexpectedEof { expected: "identifier"@ }),
                    },
            },
    {
        match self.peek_owned() {
            Some(TokenKind::Ident(name)) => {
                let token = self.advance();
                Ok(Spanned::new(name, token.span))
            },
            Some(TokenKind::UpperIdent(name)) => {
                let token = self.advance();
                Ok(Spanned::new(name, token.span))
            },
            Some(_) => Err(self.unexpected_here("identifier")),
            None => Err(Self::eof_error("identifier")),
        }
    }
}

// ========== Operator Binding Powers ==========

/// The binding power of a prefix operator.
pub open spec fn prefix_bp(op: Tok) -> u8 {
    match op {
        Tok::Minus | Tok::Bang => 23,
        _ => 0,
    }
}

/// The binding powers (left, right) of an infix operator; higher binds tighter.
pub open spec fn infix_bp(op: Tok) -> Option<(u8, u8)> {
    match op {
        Tok::Colon => Some((2, 1)),
        Tok::OrElse => Some((3, 4)),
        Tok::AndAlso => Some((5, 6)),
        Tok::Eq | Tok::Neq | Tok::Lt | Tok::Le | Tok::Gt | Tok::Ge => Some((7, 8)),
        Tok::ColonColon | Tok::At => Some((10, 9)),
        Tok::PlusPlus => Some((11, 12)),
        Tok::Plus | Tok::Minus => Some((13, 14)),
        Tok::Star | Tok::Slash | Tok::Percent => Some((15, 16)),
        Tok::Pipe => Some((1, 2)),
        _ => None,
    }
}

/// The tokens that can start an atomic expression.
pub open spec fn starts_atom(k: Tok) -> bool {
    match k {
        Tok::Int(_) | Tok::Float(_) | Tok::String(_) | Tok::Char(_) | Tok::True | Tok::False
        | Tok::Ident(_) | Tok::UpperIdent(_) | Tok::LParen | Tok::LBracket | Tok::LBrace
        | Tok::Dollar => true,
        _ => false,
    }
}

/// The left binding power of a postfix operator: application and field access.
pub open spec fn postfix_bp(op: Tok) -> Option<u8> {
    if starts_atom(op) { Some(21) } else if op == Tok::Dot { Some(25) } else { None }
}

/// Prefix binding power (for unary operators)
fn prefix_binding_power(op: &TokenKind) -> (r: ((), u8))
    ensures
        r.1 == prefix_bp(op@),
{
    match op {
        TokenKind::Minus => ((), 23),
        TokenKind::Bang => ((), 23),
        _ => ((), 0),
    }
}

/// Infix binding power (for binary operators)
/// Returns (left_bp, right_bp) where higher binds tighter.
fn infix_binding_power(op: &TokenKind) -> (r: Option<(u8, u8)>)
    ensures
        r == infix_bp(op@),
{
    match op {
        // Type annotation (lowest precedence)
        TokenKind::Colon => Some((2, 1)),
        // Logical or
        TokenKind::OrElse => Some((3, 4)),
        // Logical and
        TokenKind::AndAlso => Some((5, 6)),
        // Comparison
        TokenKind::Eq | TokenKind::Neq | TokenKind::Lt | TokenKind::Le | TokenKind::Gt | TokenKind::Ge => Some((7, 8)),
        // Cons and append (right-associative)
        TokenKind::ColonColon | TokenKind::At => Some((10, 9)),
        // String/list concatenation (Haskell-style ++)
        TokenKind::PlusPlus => Some((11, 12)),
        // Addition and subtraction
        TokenKind::Plus | TokenKind::Minus => Some((13, 14)),
        // Multiplication, division, modulo
        TokenKind::Star | TokenKind::Slash | TokenKind::Percent => Some((15, 16)),
        // Pipe (left-associative, low precedence)
        TokenKind::Pipe => Some((1, 2)),
        _ => None,
    }
}

/// Postfix binding power (for function application)
fn postfix_binding_power(op: &TokenKind) -> (r: Option<(u8, ())>)
    ensures
        match r {
            Some((bp, _)) => postfix_bp(op@) == Some(bp),
            None => postfix_bp(op@) is None,
        },
{
    if can_start_atom(op) {
        // Function application (very high precedence)
        Some((21, ()))
    } else {
        match op {
            // Field access
            TokenKind::Dot => Some((25, ())),
            _ => None,
        }
    }
}

/// Check if a token can start an atomic expression
fn can_start_atom(kind: &TokenKind) -> (b: bool)
    ensures
        b == starts_atom(kind@),
{
    match kind {
        TokenKind::Int(_) | TokenKind::Float(_) | TokenKind::String(_) | TokenKind::Char(_)
        | TokenKind::True | TokenKind::False | TokenKind::Ident(_) | TokenKind::UpperIdent(_)
        | TokenKind::LParen | TokenKind::LBracket | TokenKind::LBrace | TokenKind::Dollar => true,
        _ => false,
    }
}

/// The span from a token's span to one byte after its end (as the release build computes it).
fn unit_span(start: Span) -> (s: Span)
    ensures
        s == unit_span_of(start),
        s.start == if start.start < start.end { start.start } else { start.end },
        s.end == if start.end > start.end.wrapping_add(1) { start.end } else { start.end.wrapping_add(1) },
{
    start.merge(Span::new(start.end, start.end.wrapping_add(1)))
}

/// The kind of the token at position `p`, if there is one.
pub open spec fn tok_at(toks: Seq<Token>, p: int) -> Option<Tok> {
    if 0 <= p < toks.len() { Some(toks[p].kind@) } else { None }
}

/// The error for a token other than the `expected` one at position `p`.
pub open spec fn expected_error(toks: Seq<Token>, p: int, expected: Seq<char>) -> ParseErr {
    match tok_at(toks, p) {
        Some(found) => ParseErr::UnexpectedToken { expected, found: kind_name(found), span: toks[p].span },
        None => ParseErr::UnexpectedEof { expected },
    }
}

/// The error for a missing identifier at position `p`.
pub open spec fn ident_error(toks: Seq<Token>, p: int) -> ParseErr {
    expected_error(toks, p, "identifier"@)
}

/// The span that an empty bracket pair starting with a token at `start` is given.
pub open spec fn unit_span_of(start: Span) -> Span {
    Span {
        start: if start.start < start.end { start.start } else { start.end },
        end: if start.end > start.end.wrapping_add(1) { start.end } else { start.end.wrapping_add(1) },
    }
}

/// How many `, name` pairs stand one after another from position `p`.
pub open spec fn comma_ident_run(toks: Seq<Token>, p: int) -> nat
    decreases toks.len() - p,
{
    if 0 <= p && p + 1 < toks.len() && toks[p].kind@ == Tok::Comma && toks[p + 1].kind@ is Ident {
        1 + comma_ident_run(toks, p + 2)
    } else {
        0
    }
}

proof fn lemma_comma_ident_run(toks: Seq<Token>, p: int)
    ensures
        forall|k: int| 0 <= k <= comma_ident_run(toks, p) ==>
            #[trigger] comma_ident_run(toks, p + 2 * k) == comma_ident_run(toks, p) - k,
    decreases toks.len() - p,
{
    if 0 <= p && p + 1 < toks.len() && toks[p].kind@ == Tok::Comma && toks[p + 1].kind@ is Ident {
        lemma_comma_ident_run(toks, p + 2);
        assert forall|k: int| 0 <= k <= comma_ident_run(toks, p) implies
            #[trigger] comma_ident_run(toks, p + 2 * k) == comma_ident_run(toks, p) - k by {
            if k > 0 {
                assert(p + 2 * k == (p + 2) + 2 * (k - 1));
            }
        }
    }
}

/// `datatype 'a .. name = C` with one constructor that takes no argument, at `at`.
pub open spec fn simple_datatype_at(toks: Seq<Token>, at: int) -> bool {
    let n = tyvar_run(toks, at + 1);
    &&& tok_at(toks, at) == Some(Tok::Datatype)
    &&& tok_at(toks, at + 1 + n) matches Some(Tok::Ident(_))
    &&& tok_at(toks, at + 2 + n) == Some(Tok::Eq)
    &&& tok_at(toks, at + 3 + n) matches Some(Tok::UpperIdent(_))
    &&& tok_at(toks, at + 4 + n) != Some(Tok::Of)
    &&& tok_at(toks, at + 4 + n) != Some(Tok::Bar)
}

/// `trait Name { }` at `at`.
pub open spec fn empty_trait_at(toks: Seq<Token>, at: int) -> bool {
    &&& tok_at(toks, at) == Some(Tok::Trait)
    &&& tok_at(toks, at + 1) matches Some(Tok::UpperIdent(_))
    &&& tok_at(toks, at + 2) == Some(Tok::LBrace)
    &&& tok_at(toks, at + 3) == Some(Tok::RBrace)
}

/// `impl Name for type { }` at `at`, the type being a single token.
pub open spec fn empty_impl_at(toks: Seq<Token>, at: int) -> bool {
    &&& tok_at(toks, at) == Some(Tok::Impl)
    &&& tok_at(toks, at + 1) matches Some(Tok::UpperIdent(_))
    &&& tok_at(toks, at + 2) == Some(Tok::For)
    &&& simple_type_at(toks, at + 3)
    &&& tok_at(toks, at + 4) == Some(Tok::LBrace)
    &&& tok_at(toks, at + 5) == Some(Tok::RBrace)
}

/// A match arm `pattern -> expression` at `p`, each a single token.
pub open spec fn simple_arm_at(toks: Seq<Token>, p: int) -> bool {
    simple_pattern_at(toks, p) && tok_at(toks, p + 1) == Some(Tok::Arrow) && simple_expr_at(toks, p + 2, 0)
}

/// `a` is the arm that the tokens at `p` stand for.
pub open spec fn simple_arm(toks: Seq<Token>, p: int, a: MatchArm) -> bool {
    &&& token_pattern(a.pattern.value, tok_at(toks, p)->0)
    &&& a.guard is None
    &&& token_expr(a.body.value, tok_at(toks, p + 2)->0)
}

/// A single token standing for an expression at `p`.
pub open spec fn single_expr_at(toks: Seq<Token>, p: int) -> bool {
    tok_at(toks, p) is Some && single_token_expr(tok_at(toks, p)->0)
}

/// A single token at `p` that is a whole expression at binding power `min_bp`.
pub open spec fn simple_expr_at(toks: Seq<Token>, p: int, min_bp: u8) -> bool {
    single_expr_at(toks, p) && stops_expr(tok_at(toks, p + 1), min_bp)
}

/// A single token at `p` that is a whole type.
pub open spec fn simple_type_at(toks: Seq<Token>, p: int) -> bool {
    is_type_name(tok_at(toks, p)) && !continues_type(tok_at(toks, p + 1))
}

/// `p` is the pattern that the single token `k` stands for.
pub open spec fn token_pattern(p: Pattern, k: Tok) -> bool {
    match k {
        Tok::Underscore => p == Pattern::Wildcard,
        Tok::Ident(n) => p matches Pattern::Var(v) && v@ == n,
        Tok::Int(n) => p == Pattern::Lit(Literal::Int(n)),
        _ => false,
    }
}

/// A single token at `p` that is a whole pattern.
pub open spec fn simple_pattern_at(toks: Seq<Token>, p: int) -> bool {
    &&& tok_at(toks, p) matches Some(k) && (k == Tok::Underscore || k is Ident || k is Int)
    &&& tok_at(toks, p + 1) != Some(Tok::ColonColon)
    &&& tok_at(toks, p + 1) != Some(Tok::Bar)
}

/// An expression built from single-token operands by prefix, binary infix operators,
/// application to a single-token argument and field access.
pub enum OpTree {
    Leaf(Tok),
    Node(Tok, Box<OpTree>, Box<OpTree>),
    Prefix(Tok, Box<OpTree>),
    Apply(Box<OpTree>, Tok),
    ApplyTo(Box<OpTree>, Box<OpTree>),
    Select(Box<OpTree>, Seq<char>),
    UnitValue,
}

/// The tree of a reading (see `spec_operand`).
pub open spec fn tree_of(r: Option<(OpTree, int)>) -> OpTree {
    (r->0).0
}

/// Where a reading ends (see `spec_operand`).
pub open spec fn end_of(r: Option<(OpTree, int)>) -> int {
    (r->0).1
}

/// `e` is the expression that the tree `t` describes.
pub open spec fn matches_tree(e: Expr, t: OpTree) -> bool
    decreases t,
{
    match t {
        OpTree::Leaf(k) => token_expr(e, k),
        OpTree::Node(op, a, b) => match e {
            Expr::Pipe(x, y) => op == Tok::Pipe && matches_tree(x.value, *a) && matches_tree(y.value, *b),
            Expr::BinOp(o, x, y) => op != Tok::Pipe && o == binop_of(op) && matches_tree(x.value, *a)
                && matches_tree(y.value, *b),
            _ => false,
        },
        OpTree::Prefix(op, a) => match e {
            Expr::UnOp(o, x) => o == unop_of(op) && matches_tree(x.value, *a),
            _ => false,
        },
        OpTree::Apply(a, k) => match e {
            Expr::App(f, x) => matches_tree(f.value, *a) && token_expr(x.value, k),
            _ => false,
        },
        OpTree::ApplyTo(a, b) => match e {
            Expr::App(f, x) => matches_tree(f.value, *a) && matches_tree(x.value, *b),
            _ => false,
        },
        OpTree::UnitValue => e == Expr::Unit,
        OpTree::Select(a, n) => match e {
            Expr::Field(r, name) => matches_tree(r.value, *a) && name.value@ == n,
            _ => false,
        },
    }
}

/// The unary operator that a prefix token stands for.
pub open spec fn unop_of(k: Tok) -> UnOp {
    if k == Tok::Bang { UnOp::Not } else { UnOp::Neg }
}

/// `e` joins `lhs` by the infix token `op` to the expression that the tree `t` describes.
pub open spec fn joins(e: Expr, op: Tok, lhs: Spanned<Expr>, t: OpTree) -> bool {
    match e {
        Expr::Pipe(x, y) => op == Tok::Pipe && *x == lhs && matches_tree(y.value, t),
        Expr::BinOp(o, x, y) => op != Tok::Pipe && o == binop_of(op) && *x == lhs && matches_tree(y.value, t),
        _ => false,
    }
}

/// Operator-precedence reading of the tokens from `p`: an operand (a single token, a
/// parenthesised expression, or `-` or `!` before an operand read at the prefix binding
/// power), then, while they bind at least `min_bp`, application to a single-token or
/// parenthesised argument, field access, and infix
/// operators each followed by its right operand read at the operator's right binding
/// power. The tree read and where it ends; `None` where the tokens leave this fragment
/// (brackets, keywords such as `if` or `fn`, annotations).
pub open spec fn spec_operand(toks: Seq<Token>, p: int, min_bp: u8) -> Option<(OpTree, int)>
    decreases toks.len() - p, 2nat,
{
    if single_expr_at(toks, p) {
        spec_climb(toks, p + 1, min_bp, OpTree::Leaf(tok_at(toks, p)->0))
    } else if tok_at(toks, p) == Some(Tok::LParen) {
        match spec_paren(toks, p) {
            Some((t, q)) => if p < q && q <= toks.len() { spec_climb(toks, q, min_bp, t) } else { None },
            None => None,
        }
    } else if 0 <= p < toks.len() && (toks[p].kind@ == Tok::Minus || toks[p].kind@ == Tok::Bang) {
        match spec_operand(toks, p + 1, 23) {
            Some((t, q)) => if p < q && q <= toks.len() {
                spec_climb(toks, q, min_bp, OpTree::Prefix(toks[p].kind@, Box::new(t)))
            } else {
                None
            },
            None => None,
        }
    } else {
        None
    }
}

/// A parenthesised expression at `p`: `()` for unit, or `(` an expression `)`; the tree
/// read and the position after the closing parenthesis.
pub open spec fn spec_paren(toks: Seq<Token>, p: int) -> Option<(OpTree, int)>
    decreases toks.len() - p, 0nat,
{
    if tok_at(toks, p) == Some(Tok::LParen) && tok_at(toks, p + 1) == Some(Tok::RParen) {
        Some((OpTree::UnitValue, p + 2))
    } else if 0 <= p < toks.len() && tok_at(toks, p) == Some(Tok::LParen) {
        match spec_operand(toks, p + 1, 0) {
            Some((t, q)) => if p < q && tok_at(toks, q) == Some(Tok::RParen) { Some((t, q + 1)) } else { None },
            None => None,
        }
    } else {
        None
    }
}

/// Continue reading operators from `p` after the operand `lhs` (see `spec_operand`).
pub open spec fn spec_climb(toks: Seq<Token>, p: int, min_bp: u8, lhs: OpTree) -> Option<(OpTree, int)>
    decreases toks.len() - p, 1nat,
{
    if stops_expr(tok_at(toks, p), min_bp) {
        Some((lhs, p))
    } else if 0 <= p < toks.len() {
        let k = toks[p].kind@;
        let bp = infix_bp(k);
        if postfix_bp(k) is Some && postfix_bp(k)->0 >= min_bp {
            if single_token_expr(k) {
                spec_climb(toks, p + 1, min_bp, OpTree::Apply(Box::new(lhs), k))
            } else if k == Tok::LParen {
                match spec_paren(toks, p) {
                    Some((a, q)) => if p < q && q <= toks.len() {
                        spec_climb(toks, q, min_bp, OpTree::ApplyTo(Box::new(lhs), Box::new(a)))
                    } else {
                        None
                    },
                    None => None,
                }
            } else if k == Tok::Dot && (tok_at(toks, p + 1) matches Some(Tok::Ident(_))) {
                spec_climb(toks, p + 2, min_bp, OpTree::Select(Box::new(lhs), tok_at(toks, p + 1)->0->Ident_0))
            } else {
                None
            }
        } else if postfix_bp(k) is None && k != Tok::Colon && bp is Some && (bp->0).0 >= min_bp {
            match spec_operand(toks, p + 1, (bp->0).1) {
                Some((rhs, q)) => if p < q && q <= toks.len() {
                    spec_climb(toks, q, min_bp, OpTree::Node(k, Box::new(lhs), Box::new(rhs)))
                } else {
                    None
                },
                None => None,
            }
        } else {
            None
        }
    } else {
        None
    }
}

/// The binary operator that an infix token stands for.
pub open spec fn binop_of(k: Tok) -> BinOp {
    match k {
        Tok::Plus => BinOp::Add,
        Tok::Minus => BinOp::Sub,
        Tok::Star => BinOp::Mul,
        Tok::Slash => BinOp::Div,
        Tok::Percent => BinOp::Mod,
        Tok::Eq => BinOp::Eq,
        Tok::Neq => BinOp::Neq,
        Tok::Lt => BinOp::Lt,
        Tok::Le => BinOp::Le,
        Tok::Gt => BinOp::Gt,
        Tok::Ge => BinOp::Ge,
        Tok::AndAlso => BinOp::And,
        Tok::OrElse => BinOp::Or,
        Tok::PlusPlus => BinOp::Concat,
        Tok::ColonColon => BinOp::Cons,
        _ => BinOp::Append,
    }
}

/// `e` joins `lhs` by the infix token `op` to the expression that the token `k` stands for.
pub open spec fn infix_result(e: Expr, op: Tok, lhs: Spanned<Expr>, k: Tok) -> bool {
    match op {
        Tok::Pipe => e matches Expr::Pipe(a, b) && *a == lhs && token_expr(b.value, k),
        _ => e matches Expr::BinOp(o, a, b) && o == binop_of(op) && *a == lhs && token_expr(b.value, k),
    }
}

/// The tokens that make up an expression by themselves: literals and names.
pub open spec fn single_token_expr(k: Tok) -> bool {
    k is Int || k == Tok::True || k == Tok::False || k is Char || k is Ident || k is UpperIdent
}

/// `e` is the expression that the single token `k` stands for.
pub open spec fn token_expr(e: Expr, k: Tok) -> bool {
    match k {
        Tok::Int(n) => e == Expr::Lit(Literal::Int(n)),
        Tok::True => e == Expr::Lit(Literal::Bool(true)),
        Tok::False => e == Expr::Lit(Literal::Bool(false)),
        Tok::Char(c) => e == Expr::Lit(Literal::Char(c)),
        Tok::Ident(n) => e matches Expr::Var(v) && v@ == n,
        Tok::UpperIdent(n) => e matches Expr::Con(v) && v@ == n,
        _ => false,
    }
}

/// The tokens that can start an expression.
pub open spec fn starts_expr(k: Tok) -> bool {
    starts_atom(k) || k == Tok::Backtick || k == Tok::Minus || k == Tok::Bang || k == Tok::Fn
        || k == Tok::If || k == Tok::Match || k == Tok::Case || k == Tok::Do
}

/// After an operand, the token `k` ends an expression whose operators bind at least `min_bp`.
pub open spec fn stops_expr(k: Option<Tok>, min_bp: u8) -> bool {
    match k {
        None => true,
        Some(Tok::Eof) => true,
        Some(t) => match postfix_bp(t) {
            Some(l) => l < min_bp,
            None => match infix_bp(t) {
                Some((l, _)) => l < min_bp,
                None => true,
            },
        },
    }
}

/// Three single-token operands joined by two infix operators at positions 1 and 3, after
/// which the expression ends.
pub open spec fn three_operands(toks: Seq<Token>) -> bool {
    &&& toks.len() >= 5
    &&& single_expr_at(toks, 0)
    &&& single_expr_at(toks, 2)
    &&& single_expr_at(toks, 4)
    &&& stops_expr(tok_at(toks, 5), 0)
}

/// The leaf for the single-token operand at `p`.
pub open spec fn leaf_at(toks: Seq<Token>, p: int) -> Box<OpTree> {
    Box::new(OpTree::Leaf(toks[p].kind@))
}

/// The precedence level of an infix operator, from the loosest: the pipe `|>`, `||`,
/// `&&`, the comparisons, `::` and `@`, `++`, `+ -`, `* / %`.
pub open spec fn precedence_level(k: Tok) -> Option<nat> {
    match k {
        Tok::Pipe => Some(1),
        Tok::OrElse => Some(2),
        Tok::AndAlso => Some(3),
        Tok::Eq | Tok::Neq | Tok::Lt | Tok::Le | Tok::Gt | Tok::Ge => Some(4),
        Tok::ColonColon | Tok::At => Some(5),
        Tok::PlusPlus => Some(6),
        Tok::Plus | Tok::Minus => Some(7),
        Tok::Star | Tok::Slash | Tok::Percent => Some(8),
        _ => None,
    }
}

/// The operators that group to the right: `::` and `@`; all others group to the left.
pub open spec fn right_associative(k: Tok) -> bool {
    k == Tok::ColonColon || k == Tok::At
}

/// Law: how two infix operators group. In `a op1 b op2 c`, the operator of the higher
/// level takes the middle operand; of two operators of one level, the first takes it,
/// except for `::` and `@`, where the second does.
pub proof fn law_operator_grouping(toks: Seq<Token>)
    requires
        three_operands(toks),
        precedence_level(toks[1].kind@) is Some,
        precedence_level(toks[3].kind@) is Some,
    ensures
        ({
            let o1 = toks[1].kind@;
            let o2 = toks[3].kind@;
            let v1 = precedence_level(o1)->0;
            let v2 = precedence_level(o2)->0;
            let left = Some((OpTree::Node(o2, Box::new(OpTree::Node(o1, leaf_at(toks, 0), leaf_at(toks, 2))),
                leaf_at(toks, 4)), 5int));
            let right = Some((OpTree::Node(o1, leaf_at(toks, 0),
                Box::new(OpTree::Node(o2, leaf_at(toks, 2), leaf_at(toks, 4)))), 5int));
            &&& (v1 > v2 || (v1 == v2 && !right_associative(o1))) ==> spec_operand(toks, 0, 0) == left
            &&& (v1 < v2 || (v1 == v2 && right_associative(o1))) ==> spec_operand(toks, 0, 0) == right
        }),
{
    lemma_three_operands(toks);
}

/// How three single-token operands read: the second operator groups to the left exactly
/// where its left binding power is below the first one's right binding power.
proof fn lemma_three_operands(toks: Seq<Token>)
    requires
        three_operands(toks),
        infix_bp(toks[1].kind@) is Some,
        infix_bp(toks[3].kind@) is Some,
        postfix_bp(toks[1].kind@) is None,
        postfix_bp(toks[3].kind@) is None,
        toks[1].kind@ != Tok::Colon,
        toks[3].kind@ != Tok::Colon,
        toks[1].kind@ != Tok::Eof,
        toks[3].kind@ != Tok::Eof,
    ensures
        ({
            let o1 = toks[1].kind@;
            let o2 = toks[3].kind@;
            let (l1, r1) = infix_bp(o1)->0;
            let (l2, r2) = infix_bp(o2)->0;
            &&& l2 < r1 ==> spec_operand(toks, 0, 0) == Some((OpTree::Node(o2,
                Box::new(OpTree::Node(o1, leaf_at(toks, 0), leaf_at(toks, 2))), leaf_at(toks, 4)), 5int))
            &&& l2 >= r1 ==> spec_operand(toks, 0, 0) == Some((OpTree::Node(o1, leaf_at(toks, 0),
                Box::new(OpTree::Node(o2, leaf_at(toks, 2), leaf_at(toks, 4)))), 5int))
        }),
{
    let o1 = toks[1].kind@;
    let o2 = toks[3].kind@;
    let (l1, r1) = infix_bp(o1)->0;
    let (l2, r2) = infix_bp(o2)->0;
    let t4 = OpTree::Leaf(toks[4].kind@);
    assert(stops_expr(tok_at(toks, 5), r2));
    assert(stops_expr(tok_at(toks, 5), r1));
    assert(spec_climb(toks, 5, r2, t4) == Some((t4, 5int)));
    assert(spec_operand(toks, 4, r2) == Some((t4, 5int)));
    assert(!stops_expr(tok_at(toks, 3), 0));
    assert(!stops_expr(tok_at(toks, 1), 0));
    let t2 = OpTree::Leaf(toks[2].kind@);
    let t0 = OpTree::Leaf(toks[0].kind@);
    if l2 < r1 {
        assert(stops_expr(tok_at(toks, 3), r1));
        assert(spec_climb(toks, 3, r1, t2) == Some((t2, 3int)));
        assert(spec_operand(toks, 2, r1) == Some((t2, 3int)));
        let n1 = OpTree::Node(o1, Box::new(t0), Box::new(t2));
        let n2 = OpTree::Node(o2, Box::new(n1), Box::new(t4));
        assert(spec_climb(toks, 5, 0, n2) == Some((n2, 5int)));
        assert(spec_climb(toks, 3, 0, n1) == Some((n2, 5int)));
        assert(spec_climb(toks, 1, 0, t0) == Some((n2, 5int)));
    } else {
        assert(!stops_expr(tok_at(toks, 3), r1));
        let n2 = OpTree::Node(o2, Box::new(t2), Box::new(t4));
        assert(spec_climb(toks, 5, r1, n2) == Some((n2, 5int)));
        assert(spec_climb(toks, 3, r1, t2) == Some((n2, 5int)));
        assert(spec_operand(toks, 2, r1) == Some((n2, 5int)));
        let n1 = OpTree::Node(o1, Box::new(t0), Box::new(n2));
        assert(spec_climb(toks, 5, 0, n1) == Some((n1, 5int)));
        assert(spec_climb(toks, 1, 0, t0) == Some((n1, 5int)));
    }
}

/// Where a declaration of one of the forms below, starting at `at`, ends: `let p = e` and
/// `let rec p = e`, `fun f x = e` (one clause), `type 'a.. t = τ`, a datatype with one
/// constructor that takes no argument, an empty trait and an empty impl; each pattern
/// and type a single token, each expression one that `spec_operand` reads. `None` for
/// any other declaration.
pub open spec fn decl_end(toks: Seq<Token>, at: int) -> Option<int> {
    let n = tyvar_run(toks, at + 1);
    if tok_at(toks, at) == Some(Tok::Let) && simple_pattern_at(toks, at + 1)
        && tok_at(toks, at + 2) == Some(Tok::Eq) && spec_operand(toks, at + 3, 0) is Some {
        Some(end_of(spec_operand(toks, at + 3, 0)))
    } else if tok_at(toks, at) == Some(Tok::Let) && tok_at(toks, at + 1) == Some(Tok::Rec)
        && simple_pattern_at(toks, at + 2) && tok_at(toks, at + 3) == Some(Tok::Eq)
        && spec_operand(toks, at + 4, 0) is Some {
        Some(end_of(spec_operand(toks, at + 4, 0)))
    } else if tok_at(toks, at) == Some(Tok::Fun) && (tok_at(toks, at + 1) matches Some(Tok::Ident(_)))
        && (tok_at(toks, at + 2) matches Some(Tok::Ident(_))) && tok_at(toks, at + 3) == Some(Tok::Eq)
        && spec_operand(toks, at + 4, 0) is Some && tok_at(toks, end_of(spec_operand(toks, at + 4, 0))) != Some(Tok::Bar) {
        Some(end_of(spec_operand(toks, at + 4, 0)))
    } else if tok_at(toks, at) == Some(Tok::Type) && (tok_at(toks, at + 1 + n) matches Some(Tok::Ident(_)))
        && tok_at(toks, at + 2 + n) == Some(Tok::Eq) && simple_type_at(toks, at + 3 + n) {
        Some(at + 4 + n)
    } else if simple_datatype_at(toks, at) {
        Some(at + 4 + n)
    } else if empty_trait_at(toks, at) {
        Some(at + 4)
    } else if empty_impl_at(toks, at) {
        Some(at + 6)
    } else {
        None
    }
}

/// `d` is the declaration that the form at `at` (see `decl_end`) stands for.
pub open spec fn decl_read(d: Decl, toks: Seq<Token>, at: int) -> bool {
    let n = tyvar_run(toks, at + 1);
    match d {
        Decl::Val(v) => v.ty is None && if v.rec {
            token_pattern(v.pattern.value, tok_at(toks, at + 2)->0) && matches_tree(v.expr.value, tree_of(spec_operand(toks, at + 4, 0)))
        } else {
            token_pattern(v.pattern.value, tok_at(toks, at + 1)->0) && matches_tree(v.expr.value, tree_of(spec_operand(toks, at + 3, 0)))
        },
        Decl::Fun(f) => tok_at(toks, at + 1) == Some(Tok::Ident(f.name.value@)) && f.clauses@.len() == 1
            && f.clauses@[0].params@.len() == 1
            && token_pattern(f.clauses@[0].params@[0].value, tok_at(toks, at + 2)->0)
            && matches_tree(f.clauses@[0].body.value, tree_of(spec_operand(toks, at + 4, 0))),
        Decl::Type(td) => td.params@.len() == n && tok_at(toks, at + 1 + n) == Some(Tok::Ident(td.name.value@))
            && names_type(td.ty.value, tok_at(toks, at + 3 + n)->0),
        Decl::Datatype(dd) => dd.params@.len() == n && tok_at(toks, at + 1 + n) == Some(Tok::Ident(dd.name.value@))
            && dd.constructors@.len() == 1 && dd.constructors@[0].arg is None
            && tok_at(toks, at + 3 + n) == Some(Tok::UpperIdent(dd.constructors@[0].name.value@)),
        Decl::Trait(td) => td.methods@.len() == 0 && tok_at(toks, at + 1) == Some(Tok::UpperIdent(td.name.value@)),
        Decl::Impl(im) => im.methods@.len() == 0 && tok_at(toks, at + 1) == Some(Tok::UpperIdent(im.trait_name.value@))
            && names_type(im.for_type.value, tok_at(toks, at + 3)->0),
    }
}

/// A run of small declarations (see `decl_end`) from `p` up to the end of the input: the
/// position of each, in order; `None` where something else stands in the way.
pub open spec fn decl_run(toks: Seq<Token>, p: int) -> Option<Seq<int>>
    decreases toks.len() - p,
{
    if tok_at(toks, p) is None || tok_at(toks, p) == Some(Tok::Eof) {
        Some(Seq::empty())
    } else if decl_end(toks, p) is Some && p < decl_end(toks, p)->0 <= toks.len() {
        match decl_run(toks, decl_end(toks, p)->0) {
            Some(rest) => Some(seq![p] + rest),
            None => None,
        }
    } else {
        None
    }
}

/// The keywords that start a declaration.
pub open spec fn starts_decl(k: Tok) -> bool {
    k == Tok::Let || k == Tok::Fun || k == Tok::Type || k == Tok::Datatype || k == Tok::Trait || k == Tok::Impl
}

/// The tokens that can start a type.
pub open spec fn starts_type(k: Option<Tok>) -> bool {
    match k {
        Some(Tok::TyVar(_)) | Some(Tok::Ident(_)) | Some(Tok::LParen) | Some(Tok::LBrace) => true,
        _ => false,
    }
}

/// A token that is a whole type by itself: a type variable or a type name.
pub open spec fn is_type_name(k: Option<Tok>) -> bool {
    k matches Some(Tok::TyVar(_)) || k matches Some(Tok::Ident(_))
}

/// A token that, after a type, makes it part of a longer one.
pub open spec fn continues_type(k: Option<Tok>) -> bool {
    k matches Some(Tok::Ident(_)) || k == Some(Tok::Arrow) || k == Some(Tok::Star)
}

/// `t` is the type that the single token `k` names.
pub open spec fn names_type(t: TypeExpr, k: Tok) -> bool {
    match k {
        Tok::TyVar(n) => t matches TypeExpr::Var(v) && v@ == n,
        Tok::Ident(n) => t matches TypeExpr::Con(v) && v@ == n,
        _ => false,
    }
}

/// Where a list of names read from `p` ends (at its closing parenthesis, if it has one).
pub open spec fn ident_list_end(toks: Seq<Token>, p: int) -> int {
    if tok_at(toks, p) == Some(Tok::RParen) { p } else { p + 1 + 2 * comma_ident_run(toks, p + 1) }
}

/// How many names a list read from `p` holds.
pub open spec fn ident_list_len(toks: Seq<Token>, p: int) -> nat {
    if tok_at(toks, p) == Some(Tok::RParen) { 0 } else { comma_ident_run(toks, p + 1) + 1 }
}

/// A list of names `a, b, ..` at `p`, closed by a parenthesis.
pub open spec fn ident_list_at(toks: Seq<Token>, p: int) -> bool {
    &&& (tok_at(toks, p) == Some(Tok::RParen) || tok_at(toks, p) matches Some(Tok::Ident(_)))
    &&& tok_at(toks, ident_list_end(toks, p)) == Some(Tok::RParen)
}

/// How many type-variable tokens stand one after another from position `at`.
pub open spec fn tyvar_run(toks: Seq<Token>, at: int) -> nat
    decreases toks.len() - at,
{
    if 0 <= at < toks.len() && toks[at].kind@ is TyVar {
        1 + tyvar_run(toks, at + 1)
    } else {
        0
    }
}

proof fn lemma_tyvar_run_steps(toks: Seq<Token>, at: int)
    ensures
        forall|k: int| 0 <= k <= tyvar_run(toks, at) ==>
            #[trigger] tyvar_run(toks, at + k) == tyvar_run(toks, at) - k,
        forall|k: int| 0 <= k < tyvar_run(toks, at) ==>
            0 <= #[trigger] (at + k) < toks.len() && toks[at + k].kind@ is TyVar,
    decreases toks.len() - at,
{
    if 0 <= at < toks.len() && toks[at].kind@ is TyVar {
        lemma_tyvar_run_steps(toks, at + 1);
        assert forall|k: int| 0 <= k <= tyvar_run(toks, at) implies
            #[trigger] tyvar_run(toks, at + k) == tyvar_run(toks, at) - k by {
            if k > 0 {
                assert(at + k == (at + 1) + (k - 1));
            }
        }
        assert forall|k: int| 0 <= k < tyvar_run(toks, at) implies
            0 <= #[trigger] (at + k) < toks.len() && toks[at + k].kind@ is TyVar by {
            if k > 0 {
                assert(at + k == (at + 1) + (k - 1));
            }
        }
    }
}

impl Parser {
    /// Parse the entire source into a program.
    pub fn parse_program(&mut self) -> (r: Result<Program, ParseError>)
        requires
            old(self).wf(),
        ensures
            follows(*old(self), *final(self)),
            r is Ok ==> (final(self).current() is None || final(self).current() == Some(Tok::Eof)),
            (old(self).current() is None || old(self).current() == Some(Tok::Eof)) ==> (r matches Ok(p)
                && p.decls@.len() == 0 && final(self).at() == old(self).at()),
            (old(self).current() is Some && old(self).current()->0 != Tok::Eof && !starts_decl(old(self).current()->0))
                ==> (r matches Err(e) && e@ == (ParseErr::UnexpectedToken {
                    expected: "declaration (let, fun, type, datatype, trait, or impl)"@,
                    found: kind_name(old(self).current()->0),
                    span: old(self).current_span(),
                })),
            r matches Ok(p) ==> (p.decls@.len() > 0 <==> !(old(self).current() is None || old(self).current() == Some(Tok::Eof))),
            decl_run(old(self).toks(), old(self).at()) is Some ==> (r matches Ok(p) && p.decls@.len() == decl_run(old(self).toks(), old(self).at())->0.len()
                && forall|i: int| 0 <= i < p.decls@.len() ==> decl_read(#[trigger] p.decls@[i].value, old(self).toks(), decl_run(old(self).toks(), old(self).at())->0[i])),
    {
        let mut decls: Vec<Spanned<Decl>> = Vec::new();
        while !self.is_at_end()
            invariant
                follows(*old(self), *self),
                decls@.len() == 0 ==> self.at() == old(self).at(),
                decls@.len() > 0 ==> !(old(self).current() is None || old(self).current() == Some(Tok::Eof)),
                (old(self).current() is Some && old(self).current()->0 != Tok::Eof && !starts_decl(old(self).current()->0))
                    ==> decls@.len() == 0,
                decl_run(old(self).toks(), old(self).at()) is Some ==> (decl_run(old(self).toks(), self.at()) is Some
                    && decls@.len() + decl_run(old(self).toks(), self.at())->0.len() == decl_run(old(self).toks(), old(self).at())->0.len()
                    && decl_run(old(self).toks(), self.at())->0 == decl_run(old(self).toks(), old(self).at())->0.subrange(decls@.len() as int, decl_run(old(self).toks(), old(self).at())->0.len() as int)
                    && forall|i: int| 0 <= i < decls@.len() ==> decl_read(#[trigger] decls@[i].value, old(self).toks(), decl_run(old(self).toks(), old(self).at())->0[i])),
            decreases self.remaining(),
        {
            let ghost p0 = self.at();
            let ghost k = decls@.len();
            let decl = self.parse_decl()?;
            decls.push(decl);
            proof {
                if decl_run(old(self).toks(), old(self).at()) is Some {
                    let full = decl_run(old(self).toks(), old(self).at())->0;
                    let here = decl_run(old(self).toks(), p0)->0;
                    let q = decl_end(old(self).toks(), p0)->0;
                    assert(here == seq![p0] + decl_run(old(self).toks(), q)->0);
                    assert(here[0] == p0);
                    assert(full[k as int] == here[0]);
                    let rest = decl_run(old(self).toks(), q)->0;
                    assert(here == full.subrange(k as int, full.len() as int));
                    assert(rest.len() == here.len() - 1);
                    assert forall|j: int| 0 <= j < rest.len() implies rest[j] == full[k as int + 1 + j] by {
                        assert(rest[j] == here[j + 1]);
                    }
                    assert(rest =~= full.subrange(k as int + 1, full.len() as int));
                }
            }
        }
        Ok(Program::with_decls(decls))
    }

    /// Parse a single expression (for REPL/testing).
    pub fn parse_expr(&mut self) -> (r: Result<Spanned<Expr>, ParseError>)
        requires
            old(self).wf(),
        ensures
            follows(*old(self), *final(self)),
            r is Ok ==> moved(*old(self), *final(self)),
            simple_expr_at(old(self).toks(), old(self).at(), 0) ==> (r matches Ok(e) && token_expr(e.value, old(self).current()->0)
                && e.span == old(self).current_span() && final(self).at() == old(self).at() + 1),
            old(self).current() matches Some(k) && !starts_expr(k) ==> (r matches Err(e)
                && e@ == (ParseErr::InvalidExpression { span: old(self).current_span() })),
            old(self).current() is None ==> (r matches Err(e) && e@ == (ParseErr::UnexpectedEof { expected: "expression"@ })),
            spec_operand(old(self).toks(), old(self).at(), 0) is Some ==> (r matches Ok(e) && matches_tree(e.value, tree_of(spec_operand(old(self).toks(), old(self).at(), 0)))
                && final(self).at() == end_of(spec_operand(old(self).toks(), old(self).at(), 0))),
        decreases old(self).remaining(), 26nat,
    {
        self.parse_expr_bp(0)
    }

    /// Parse a single pattern (for testing).
    pub fn parse_pattern(&mut self) -> (r: Result<Spanned<Pattern>, ParseError>)
        requires
            old(self).wf(),
        ensures
            follows(*old(self), *final(self)),
            r is Ok ==> moved(*old(self), *final(self)),
            simple_pattern_at(old(self).toks(), old(self).at()) ==> (r matches Ok(p) && token_pattern(p.value, old(self).current()->0)
                && p.span == old(self).current_span() && final(self).at() == old(self).at() + 1),
        decreases old(self).remaining(), 15nat,
    {
        self.parse_pattern_inner()
    }

    /// Parse a single type expression (for testing).
    pub fn parse_type(&mut self) -> (r: Result<Spanned<TypeExpr>, ParseError>)
        requires
            old(self).wf(),
        ensures
            follows(*old(self), *final(self)),
            r is Ok ==> moved(*old(self), *final(self)),
            !starts_type(old(self).current()) ==> (r matches Err(e) && e@ == expected_error(old(self).toks(), old(self).at(), "type"@)),
            (is_type_name(old(self).current()) && !continues_type(tok_at(old(self).toks(), old(self).at() + 1))) ==> (r matches Ok(t)
                && names_type(t.value, old(self).current()->0) && t.span == old(self).current_span()
                && final(self).at() == old(self).at() + 1),
        decreases old(self).remaining(), 8nat,
    {
        self.parse_type_expr()
    }

    // ========== Declaration Parsing ==========

    /// Parse a single declaration.
    pub fn parse_decl(&mut self) -> (r: Result<Spanned<Decl>, ParseError>)
        requires
            old(self).wf(),
        ensures
            follows(*old(self), *final(self)),
            r is Ok ==> moved(*old(self), *final(self)),
            match r {
                Ok(d) => match d.value {
                    Decl::Val(_) => old(self).current() == Some(Tok::Let),
                    Decl::Fun(_) => old(self).current() == Some(Tok::Fun),
                    Decl::Type(_) => old(self).current() == Some(Tok::Type),
                    Decl::Datatype(_) => old(self).current() == Some(Tok::Datatype),
                    Decl::Trait(_) => old(self).current() == Some(Tok::Trait),
                    Decl::Impl(_) => old(self).current() == Some(Tok::Impl),
                },
                Err(e) => match old(self).current() {
                    None => e@ == (ParseErr::UnexpectedEof { expected: "declaration"@ }),
                    Some(k) => (k != Tok::Let && k != Tok::Fun && k != Tok::Type && k != Tok::Datatype
                        && k != Tok::Trait && k != Tok::Impl) ==> e@ == (ParseErr::UnexpectedToken {
                            expected: "declaration (let, fun, type, datatype, trait, or impl)"@,
                            found: kind_name(k),
                            span: old(self).current_span(),
                        }),
                },
            },
            decl_end(old(self).toks(), old(self).at()) is Some ==> (r matches Ok(d) && final(self).at() == decl_end(old(self).toks(), old(self).at())->0
                && decl_read(d.value, old(self).toks(), old(self).at())),
        decreases old(self).remaining(), 30nat,
    {
        match self.peek_kind() {
            Some(TokenKind::Let) => self.parse_let_decl(),
            Some(TokenKind::Fun) => self.parse_fun_decl(),
            Some(TokenKind::Type) => self.parse_type_decl(),
            Some(TokenKind::Datatype) => self.parse_datatype_decl(),
            Some(TokenKind::Trait) => self.parse_trait_decl(),
            Some(TokenKind::Impl) => self.parse_impl_decl(),
            Some(_) => Err(self.unexpected_here("declaration (let, fun, type, datatype, trait, or impl)")),
            None => Err(Self::eof_error("declaration")),
        }
    }

    fn parse_let_decl(&mut self) -> (r: Result<Spanned<Decl>, ParseError>)
        requires
            old(self).wf(),
        ensures
            follows(*old(self), *final(self)),
            r is Ok ==> moved(*old(self), *final(self)),
            old(self).current() != Some(Tok::Let) ==> (r matches Err(e)
                && e@ == expected_error(old(self).toks(), old(self).at(), kind_name(Tok::Let))),
            (old(self).current() == Some(Tok::Let) && simple_pattern_at(old(self).toks(), old(self).at() + 1)
                && tok_at(old(self).toks(), old(self).at() + 2) == Some(Tok::Eq) && spec_operand(old(self).toks(), old(self).at() + 3, 0) is Some)
                ==> (r matches Ok(d) && final(self).at() == end_of(spec_operand(old(self).toks(), old(self).at() + 3, 0))
                && (d.value matches Decl::Val(v) && !v.rec && v.ty is None
                    && token_pattern(v.pattern.value, tok_at(old(self).toks(), old(self).at() + 1)->0)
                    && matches_tree(v.expr.value, tree_of(spec_operand(old(self).toks(), old(self).at() + 3, 0))))),
            (old(self).current() == Some(Tok::Let) && tok_at(old(self).toks(), old(self).at() + 1) == Some(Tok::Rec)
                && simple_pattern_at(old(self).toks(), old(self).at() + 2)
                && tok_at(old(self).toks(), old(self).at() + 3) == Some(Tok::Eq) && spec_operand(old(self).toks(), old(self).at() + 4, 0) is Some)
                ==> (r matches Ok(d) && final(self).at() == end_of(spec_operand(old(self).toks(), old(self).at() + 4, 0))
                && (d.value matches Decl::Val(v) && v.rec && v.ty is None
                    && token_pattern(v.pattern.value, tok_at(old(self).toks(), old(self).at() + 2)->0)
                    && matches_tree(v.expr.value, tree_of(spec_operand(old(self).toks(), old(self).at() + 4, 0))))),
            r matches Ok(d) ==> d.value is Val,
        decreases old(self).remaining(), 29nat,
    {
        let start = self.expect(TokenKind::Let)?.span;
        let rec = self.eat(TokenKind::Rec);
        let pattern = self.parse_pattern()?;
        let ty = if self.eat(TokenKind::Colon) {
            Some(self.parse_type()?)
        } else {
            None
        };
        self.expect(TokenKind::Eq)?;
        let expr = self.parse_expr()?;
        let span = start.merge(expr.span);
        Ok(Spanned::new(Decl::Val(ValDecl { rec, pattern, ty, expr }), span))
    }

    fn parse_fun_decl(&mut self) -> (r: Result<Spanned<Decl>, ParseError>)
        requires
            old(self).wf(),
        ensures
            follows(*old(self), *final(self)),
            r is Ok ==> moved(*old(self), *final(self)),
            old(self).current() != Some(Tok::Fun) ==> (r matches Err(e)
                && e@ == expected_error(old(self).toks(), old(self).at(), kind_name(Tok::Fun))),
            (old(self).current() == Some(Tok::Fun) && (tok_at(old(self).toks(), old(self).at() + 1) matches Some(Tok::Ident(_)))
                && (tok_at(old(self).toks(), old(self).at() + 2) matches Some(Tok::Ident(_))) && tok_at(old(self).toks(), old(self).at() + 3) == Some(Tok::Eq)
                && spec_operand(old(self).toks(), old(self).at() + 4, 0) is Some && tok_at(old(self).toks(), end_of(spec_operand(old(self).toks(), old(self).at() + 4, 0))) != Some(Tok::Bar))
                ==> (r matches Ok(d) && final(self).at() == end_of(spec_operand(old(self).toks(), old(self).at() + 4, 0))
                && (d.value matches Decl::Fun(f) && tok_at(old(self).toks(), old(self).at() + 1) == Some(Tok::Ident(f.name.value@))
                    && f.clauses@.len() == 1 && f.clauses@[0].params@.len() == 1
                    && token_pattern(f.clauses@[0].params@[0].value, tok_at(old(self).toks(), old(self).at() + 2)->0)
                    && matches_tree(f.clauses@[0].body.value, tree_of(spec_operand(old(self).toks(), old(self).at() + 4, 0))))),
            r matches Ok(d) ==> d.value is Fun,
        decreases old(self).remaining(), 29nat,
    {
        let start = self.expect(TokenKind::Fun)?.span;
        let name = self.expect_ident()?;
        let mut clauses: Vec<FunClause> = Vec::new();
        let first = self.parse_fun_clause()?;
        let mut end_span = first.body.span;
        clauses.push(first);
        // Parse additional clauses with |
        while self.eat(TokenKind::Bar)
            invariant
                moved(*old(self), *self),
                old(self).current() == Some(Tok::Fun),
                ((tok_at(old(self).toks(), old(self).at() + 1) matches Some(Tok::Ident(_)))
                && (tok_at(old(self).toks(), old(self).at() + 2) matches Some(Tok::Ident(_))) && tok_at(old(self).toks(), old(self).at() + 3) == Some(Tok::Eq)
                && spec_operand(old(self).toks(), old(self).at() + 4, 0) is Some && tok_at(old(self).toks(), end_of(spec_operand(old(self).toks(), old(self).at() + 4, 0))) != Some(Tok::Bar))
                ==> (self.at() == end_of(spec_operand(old(self).toks(), old(self).at() + 4, 0)) && tok_at(old(self).toks(), old(self).at() + 1) == Some(Tok::Ident(name.value@))
                    && clauses@.len() == 1 && clauses@[0].params@.len() == 1
                    && token_pattern(clauses@[0].params@[0].value, tok_at(old(self).toks(), old(self).at() + 2)->0)
                    && matches_tree(clauses@[0].body.value, tree_of(spec_operand(old(self).toks(), old(self).at() + 4, 0)))),
            decreases self.remaining(),
        {
            // Expect the function name again
            let clause_name = self.expect_ident()?;
            if !(clause_name.value == name.value) {
                let mut expected = String::new();
                push_str(&mut expected, "function name '");
                push_str(&mut expected, name.value.as_str());
                push_str(&mut expected, "'");
                return Err(ParseError::UnexpectedToken {
                    expected,
                    found: clause_name.value,
                    span: clause_name.span,
                });
            }
            let clause = self.parse_fun_clause()?;
            end_span = clause.body.span;
            clauses.push(clause);
        }
        let span = start.merge(end_span);
        Ok(Spanned::new(Decl::Fun(FunDecl { name, clauses }), span))
    }

    fn parse_fun_clause(&mut self) -> (r: Result<FunClause, ParseError>)
        requires
            old(self).wf(),
        ensures
            follows(*old(self), *final(self)),
            r is Ok ==> moved(*old(self), *final(self)),
            (tok_at(old(self).toks(), old(self).at()) == Some(Tok::Eq) && spec_operand(old(self).toks(), old(self).at() + 1, 0) is Some) ==> (r matches Ok(c)
                && final(self).at() == end_of(spec_operand(old(self).toks(), old(self).at() + 1, 0)) && c.params@.len() == 0 && c.result_ty is None
                && matches_tree(c.body.value, tree_of(spec_operand(old(self).toks(), old(self).at() + 1, 0)))),
            ((tok_at(old(self).toks(), old(self).at()) matches Some(Tok::Ident(_))) && tok_at(old(self).toks(), old(self).at() + 1) == Some(Tok::Eq)
                && spec_operand(old(self).toks(), old(self).at() + 2, 0) is Some) ==> (r matches Ok(c)
                && final(self).at() == end_of(spec_operand(old(self).toks(), old(self).at() + 2, 0)) && c.params@.len() == 1 && c.result_ty is None
                && token_pattern(c.params@[0].value, tok_at(old(self).toks(), old(self).at())->0)
                && matches_tree(c.body.value, tree_of(spec_operand(old(self).toks(), old(self).at() + 2, 0)))),
        decreases old(self).remaining(), 28nat,
    {
        let mut params: Vec<Spanned<Pattern>> = Vec::new();
        // Parse parameters until we hit = or :
        loop
            invariant
                follows(*old(self), *self),
                tok_at(old(self).toks(), old(self).at()) == Some(Tok::Eq) ==> (params@.len() == 0 && self.at() == old(self).at()),
                ((tok_at(old(self).toks(), old(self).at()) matches Some(Tok::Ident(_))) && tok_at(old(self).toks(), old(self).at() + 1) == Some(Tok::Eq)) ==> ((params@.len() == 0 && self.at() == old(self).at())
                    || (params@.len() == 1 && self.at() == old(self).at() + 1 && token_pattern(params@[0].value, tok_at(old(self).toks(), old(self).at())->0))),
            ensures
                follows(*old(self), *self),
                self.current() == Some(Tok::Eq) || self.current() == Some(Tok::Colon) || self.current() is None,
                tok_at(old(self).toks(), old(self).at()) == Some(Tok::Eq) ==> (params@.len() == 0 && self.at() == old(self).at()),
                ((tok_at(old(self).toks(), old(self).at()) matches Some(Tok::Ident(_))) && tok_at(old(self).toks(), old(self).at() + 1) == Some(Tok::Eq)) ==> ((params@.len() == 0 && self.at() == old(self).at())
                    || (params@.len() == 1 && self.at() == old(self).at() + 1 && token_pattern(params@[0].value, tok_at(old(self).toks(), old(self).at())->0))),
            decreases self.remaining(),
        {
            match self.peek_kind() {
                Some(TokenKind::Eq) | Some(TokenKind::Colon) | None => break,
                Some(_) => {},
            }
            params.push(self.parse_atomic_pattern()?);
        }
        let result_ty = if self.eat(TokenKind::Colon) {
            Some(self.parse_type()?)
        } else {
            None
        };
        self.expect(TokenKind::Eq)?;
        let body = self.parse_expr()?;
        Ok(FunClause { params, result_ty, body })
    }

    /// The type parameters `'a 'b ...` before a declared name.
    fn parse_type_params(&mut self) -> (r: Vec<Spanned<String>>)
        requires
            old(self).wf(),
        ensures
            follows(*old(self), *final(self)),
            final(self).at() == old(self).at() + tyvar_run(old(self).toks(), old(self).at()),
            r@.len() == tyvar_run(old(self).toks(), old(self).at()),
            forall|i: int| 0 <= i < r@.len() ==> {
                &&& #[trigger] old(self).toks()[old(self).at() + i].kind@ == Tok::TyVar(r@[i].value@)
                &&& old(self).toks()[old(self).at() + i].span == r@[i].span
            },
    {
        let mut params: Vec<Spanned<String>> = Vec::new();
        proof { lemma_tyvar_run_steps(old(self).toks(), old(self).at()); }
        loop
            invariant
                follows(*old(self), *self),
                self.at() == old(self).at() + params@.len(),
                params@.len() <= tyvar_run(old(self).toks(), old(self).at()),
                forall|i: int| 0 <= i < params@.len() ==> {
                    &&& #[trigger] old(self).toks()[old(self).at() + i].kind@ == Tok::TyVar(params@[i].value@)
                    &&& old(self).toks()[old(self).at() + i].span == params@[i].span
                },
                forall|k: int| 0 <= k <= tyvar_run(old(self).toks(), old(self).at()) ==>
                    #[trigger] tyvar_run(old(self).toks(), old(self).at() + k)
                        == tyvar_run(old(self).toks(), old(self).at()) - k,
            ensures
                params@.len() == tyvar_run(old(self).toks(), old(self).at()),
                self.at() == old(self).at() + params@.len(),
            decreases self.remaining(),
        {
            match self.peek_owned() {
                Some(TokenKind::TyVar(name)) => {
                    let ghost k = params@.len() as int;
                    assert(tyvar_run(old(self).toks(), old(self).at() + k) > 0);
                    let span = self.advance().span;
                    params.push(Spanned::new(name, span));
                },
                _ => {
                    proof {
                        let k = params@.len() as int;
                        if k < tyvar_run(old(self).toks(), old(self).at()) {
                            assert(tyvar_run(old(self).toks(), old(self).at() + k) > 0);
                        }
                    }
                    break;
                },
            }
        }
        params
    }

    fn parse_type_decl(&mut self) -> (r: Result<Spanned<Decl>, ParseError>)
        requires
            old(self).wf(),
        ensures
            follows(*old(self), *final(self)),
            r is Ok ==> moved(*old(self), *final(self)),
            old(self).current() != Some(Tok::Type) ==> (r matches Err(e)
                && e@ == expected_error(old(self).toks(), old(self).at(), kind_name(Tok::Type))),
            ({
                let n = tyvar_run(old(self).toks(), old(self).at() + 1);
                &&& old(self).current() == Some(Tok::Type)
                &&& tok_at(old(self).toks(), old(self).at() + 1 + n) matches Some(Tok::Ident(_))
                &&& tok_at(old(self).toks(), old(self).at() + 2 + n) == Some(Tok::Eq)
                &&& simple_type_at(old(self).toks(), old(self).at() + 3 + n)
            }) ==> (r matches Ok(d) && final(self).at() == old(self).at() + 4 + tyvar_run(old(self).toks(), old(self).at() + 1)
                && (d.value matches Decl::Type(td) && td.params@.len() == tyvar_run(old(self).toks(), old(self).at() + 1)
                    && tok_at(old(self).toks(), old(self).at() + 1 + tyvar_run(old(self).toks(), old(self).at() + 1)) == Some(Tok::Ident(td.name.value@))
                    && names_type(td.ty.value, tok_at(old(self).toks(), old(self).at() + 3 + tyvar_run(old(self).toks(), old(self).at() + 1))->0))),
            r matches Ok(d) ==> d.value is Type,
        decreases old(self).remaining(), 29nat,
    {
        let start = self.expect(TokenKind::Type)?.span;
        // Parse type parameters
        let params = self.parse_type_params();
        let name = self.expect_ident()?;
        self.expect(TokenKind::Eq)?;
        let ty = self.parse_type()?;
        let span = start.merge(ty.span);
        Ok(Spanned::new(Decl::Type(TypeDecl { params, name, ty }), span))
    }

    fn parse_datatype_decl(&mut self) -> (r: Result<Spanned<Decl>, ParseError>)
        requires
            old(self).wf(),
        ensures
            follows(*old(self), *final(self)),
            r is Ok ==> moved(*old(self), *final(self)),
            old(self).current() != Some(Tok::Datatype) ==> (r matches Err(e)
                && e@ == expected_error(old(self).toks(), old(self).at(), kind_name(Tok::Datatype))),
            simple_datatype_at(old(self).toks(), old(self).at()) ==> (r matches Ok(d) && final(self).at() == old(self).at() + 4 + tyvar_run(old(self).toks(), old(self).at() + 1)
                && (d.value matches Decl::Datatype(dd) && dd.params@.len() == tyvar_run(old(self).toks(), old(self).at() + 1)
                    && tok_at(old(self).toks(), old(self).at() + 1 + tyvar_run(old(self).toks(), old(self).at() + 1)) == Some(Tok::Ident(dd.name.value@))
                    && dd.constructors@.len() == 1 && dd.constructors@[0].arg is None
                    && tok_at(old(self).toks(), old(self).at() + 3 + tyvar_run(old(self).toks(), old(self).at() + 1)) == Some(Tok::UpperIdent(dd.constructors@[0].name.value@)))),
            r matches Ok(d) ==> d.value is Datatype,
        decreases old(self).remaining(), 29nat,
    {
        let start = self.expect(TokenKind::Datatype)?.span;
        // Parse type parameters
        let params = self.parse_type_params();
        let name = self.expect_ident()?;
        self.expect(TokenKind::Eq)?;
        // Optional leading |
        self.eat(TokenKind::Bar);
        let mut constructors: Vec<Constructor> = Vec::new();
        let first = self.parse_constructor()?;
        let mut end_span = match &first.arg {
            Some(a) => a.span,
            None => first.name.span,
        };
        constructors.push(first);
        while self.eat(TokenKind::Bar)
            invariant
                moved(*old(self), *self),
                old(self).current() == Some(Tok::Datatype),
                simple_datatype_at(old(self).toks(), old(self).at()) ==> (constructors@.len() == 1 && constructors@[0].arg is None
                    && self.at() == old(self).at() + 4 + tyvar_run(old(self).toks(), old(self).at() + 1)
                    && tok_at(old(self).toks(), old(self).at() + 3 + tyvar_run(old(self).toks(), old(self).at() + 1)) == Some(Tok::UpperIdent(constructors@[0].name.value@))
                    && params@.len() == tyvar_run(old(self).toks(), old(self).at() + 1)
                    && tok_at(old(self).toks(), old(self).at() + 1 + tyvar_run(old(self).toks(), old(self).at() + 1)) == Some(Tok::Ident(name.value@))),
            decreases self.remaining(),
        {
            let c = self.parse_constructor()?;
            end_span = match &c.arg {
                Some(a) => a.span,
                None => c.name.span,
            };
            constructors.push(c);
        }
        let span = start.merge(end_span);
        Ok(Spanned::new(Decl::Datatype(DatatypeDecl { params, name, constructors }), span))
    }

    fn parse_constructor(&mut self) -> (r: Result<Constructor, ParseError>)
        requires
            old(self).wf(),
        ensures
            follows(*old(self), *final(self)),
            r is Ok ==> moved(*old(self), *final(self)),
            !(old(self).current() matches Some(Tok::UpperIdent(_))) ==> (r matches Err(e)
                && e@ == expected_error(old(self).toks(), old(self).at(), "constructor"@)),
            (old(self).current() matches Some(Tok::UpperIdent(_)) && tok_at(old(self).toks(), old(self).at() + 1) != Some(Tok::Of))
                ==> (r matches Ok(c) && c.arg is None && final(self).at() == old(self).at() + 1),
            r matches Ok(c) ==> (old(self).current() == Some(Tok::UpperIdent(c.name.value@))
                && c.name.span == old(self).current_span()
                && (c.arg is Some <==> tok_at(old(self).toks(), old(self).at() + 1) == Some(Tok::Of))),
        decreases old(self).remaining(), 28nat,
    {
        let name = self.expect_upper_ident()?;
        let arg = if self.eat(TokenKind::Of) {
            Some(self.parse_type()?)
        } else {
            None
        };
        Ok(Constructor { name, arg })
    }

    /// Parse a trait declaration.
    ///
    /// Syntax: `trait Name { fn method(self) -> Type ... }`
    fn parse_trait_decl(&mut self) -> (r: Result<Spanned<Decl>, ParseError>)
        requires
            old(self).wf(),
        ensures
            follows(*old(self), *final(self)),
            r is Ok ==> moved(*old(self), *final(self)),
            old(self).current() != Some(Tok::Trait) ==> (r matches Err(e)
                && e@ == expected_error(old(self).toks(), old(self).at(), kind_name(Tok::Trait))),
            empty_trait_at(old(self).toks(), old(self).at())
                ==> (r matches Ok(d) && final(self).at() == old(self).at() + 4
                && (d.value matches Decl::Trait(td) && td.methods@.len() == 0
                    && tok_at(old(self).toks(), old(self).at() + 1) == Some(Tok::UpperIdent(td.name.value@)) && td.type_param.value@ == "self"@)),
            r matches Ok(d) ==> d.value is Trait,
        decreases old(self).remaining(), 29nat,
    {
        let start = self.expect(TokenKind::Trait)?.span;
        let name = self.expect_upper_ident()?;
        self.expect(TokenKind::LBrace)?;
        let mut methods: Vec<MethodSig> = Vec::new();
        // Parse method signatures until we hit }
        loop
            invariant
                moved(*old(self), *self),
                old(self).current() == Some(Tok::Trait),
                empty_trait_at(old(self).toks(), old(self).at()) ==> (methods@.len() == 0 && self.at() == old(self).at() + 3),
            decreases self.remaining(),
        {
            let closing = match self.peek_kind() {
                Some(TokenKind::RBrace) => true,
                _ => false,
            };
            if closing || self.is_at_end() {
                break;
            }
            methods.push(self.parse_method_sig()?);
        }
        let end = self.expect(TokenKind::RBrace)?.span;
        let span = start.merge(end);
        // The type parameter is implicit "self" for now
        let type_param = Spanned::new("self".to_owned(), name.span);
        Ok(Spanned::new(Decl::Trait(TraitDecl { name, type_param, methods }), span))
    }

    /// Comma-separated identifiers up to a closing parenthesis (which is not consumed).
    fn parse_ident_list(&mut self) -> (r: Result<Vec<Spanned<String>>, ParseError>)
        requires
            old(self).wf(),
        ensures
            follows(*old(self), *final(self)),
            old(self).current() == Some(Tok::RParen) ==> (r matches Ok(v) && v@.len() == 0
                && final(self).at() == old(self).at()),
            old(self).current() != Some(Tok::RParen) && !(old(self).current() matches Some(Tok::Ident(_)))
                ==> (r matches Err(e) && e@ == ident_error(old(self).toks(), old(self).at())),
            old(self).current() matches Some(Tok::Ident(_)) ==> {
                let n = comma_ident_run(old(self).toks(), old(self).at() + 1);
                let q = old(self).at() + 1 + 2 * n;
                &&& (r is Ok <==> tok_at(old(self).toks(), q) != Some(Tok::Comma))
                &&& r is Err ==> r->Err_0@ == ident_error(old(self).toks(), q + 1)
                &&& r matches Ok(v) ==> {
                    &&& v@.len() == n + 1
                    &&& final(self).at() == q
                    &&& forall|i: int| 0 <= i <= n ==> {
                        &&& #[trigger] tok_at(old(self).toks(), old(self).at() + 2 * i) == Some(Tok::Ident(v@[i].value@))
                        &&& old(self).toks()[old(self).at() + 2 * i].span == v@[i].span
                    }
                }
            },
    {
        let mut params: Vec<Spanned<String>> = Vec::new();
        let closing = match self.peek_kind() {
            Some(TokenKind::RParen) => true,
            _ => false,
        };
        if !closing {
            params.push(self.expect_ident()?);
            let ghost a = old(self).at();
            let ghost toks = old(self).toks();
            proof { lemma_comma_ident_run(toks, a + 1); }
            while self.eat(TokenKind::Comma)
                invariant
                    follows(*old(self), *self),
                    toks == old(self).toks(),
                    a == old(self).at(),
                    old(self).current() matches Some(Tok::Ident(_)),
                    params@.len() >= 1,
                    self.at() == a + 1 + 2 * (params@.len() - 1),
                    params@.len() - 1 <= comma_ident_run(toks, a + 1),
                    forall|i: int| 0 <= i < params@.len() ==> {
                        &&& #[trigger] tok_at(toks, a + 2 * i) == Some(Tok::Ident(params@[i].value@))
                        &&& toks[a + 2 * i].span == params@[i].span
                    },
                    forall|k: int| 0 <= k <= comma_ident_run(toks, a + 1) ==>
                        #[trigger] comma_ident_run(toks, a + 1 + 2 * k) == comma_ident_run(toks, a + 1) - k,
                decreases self.remaining(),
            {
                let ghost k = params@.len() - 1;
                let id = self.expect_ident();
                match id {
                    Ok(x) => {
                        proof {
                            assert(a + 1 + 2 * k + 1 == a + 2 * (k + 1));
                            assert(comma_ident_run(toks, a + 1 + 2 * k) > 0);
                        }
                        params.push(x);
                    },
                    Err(e) => {
                        proof {
                            if k < comma_ident_run(toks, a + 1) {
                                assert(comma_ident_run(toks, a + 1 + 2 * k) > 0);
                            }
                            assert(a + 1 + 2 * k + 1 == a + 1 + 2 * comma_ident_run(toks, a + 1) + 1);
                        }
                        return Err(e);
                    },
                }
            }
            proof {
                let k = params@.len() - 1;
                if k < comma_ident_run(toks, a + 1) {
                    assert(comma_ident_run(toks, a + 1 + 2 * k) > 0);
                }
            }
        }
        Ok(params)
    }

    /// Parse a method signature in a trait.
    ///
    /// Syntax: `fn name(param1, param2, ...) -> ReturnType`
    fn parse_method_sig(&mut self) -> (r: Result<MethodSig, ParseError>)
        requires
            old(self).wf(),
        ensures
            follows(*old(self), *final(self)),
            r is Ok ==> moved(*old(self), *final(self)),
            old(self).current() != Some(Tok::Fn) ==> (r matches Err(e)
                && e@ == expected_error(old(self).toks(), old(self).at(), kind_name(Tok::Fn))),
            (old(self).current() == Some(Tok::Fn) && (tok_at(old(self).toks(), old(self).at() + 1) matches Some(Tok::Ident(_)))
                && tok_at(old(self).toks(), old(self).at() + 2) == Some(Tok::LParen) && ident_list_at(old(self).toks(), old(self).at() + 3)
                && tok_at(old(self).toks(), ident_list_end(old(self).toks(), old(self).at() + 3) + 1) == Some(Tok::Arrow) && simple_type_at(old(self).toks(), ident_list_end(old(self).toks(), old(self).at() + 3) + 2))
                ==> (r matches Ok(m) && final(self).at() == ident_list_end(old(self).toks(), old(self).at() + 3) + 3
                && tok_at(old(self).toks(), old(self).at() + 1) == Some(Tok::Ident(m.name.value@))
                && m.params@.len() == ident_list_len(old(self).toks(), old(self).at() + 3)
                && names_type(m.return_ty.value, tok_at(old(self).toks(), ident_list_end(old(self).toks(), old(self).at() + 3) + 2)->0)),
        decreases old(self).remaining(), 28nat,
    {
        self.expect(TokenKind::Fn)?;
        let name = self.expect_ident()?;
        self.expect(TokenKind::LParen)?;
        // Parse parameters (comma-separated identifiers)
        let params = self.parse_ident_list()?;
        self.expect(TokenKind::RParen)?;
        self.expect(TokenKind::Arrow)?;
        let return_ty = self.parse_type()?;
        Ok(MethodSig { name, params, return_ty })
    }

    /// Parse an impl declaration.
    ///
    /// Syntax: `impl TraitName for Type { fn method(param) = expr ... }`
    fn parse_impl_decl(&mut self) -> (r: Result<Spanned<Decl>, ParseError>)
        requires
            old(self).wf(),
        ensures
            follows(*old(self), *final(self)),
            r is Ok ==> moved(*old(self), *final(self)),
            old(self).current() != Some(Tok::Impl) ==> (r matches Err(e)
                && e@ == expected_error(old(self).toks(), old(self).at(), kind_name(Tok::Impl))),
            empty_impl_at(old(self).toks(), old(self).at())
                ==> (r matches Ok(d) && final(self).at() == old(self).at() + 6
                && (d.value matches Decl::Impl(im) && im.methods@.len() == 0
                    && tok_at(old(self).toks(), old(self).at() + 1) == Some(Tok::UpperIdent(im.trait_name.value@))
                    && names_type(im.for_type.value, tok_at(old(self).toks(), old(self).at() + 3)->0))),
            r matches Ok(d) ==> d.value is Impl,
        decreases old(self).remaining(), 29nat,
    {
        let start = self.expect(TokenKind::Impl)?.span;
        let trait_name = self.expect_upper_ident()?;
        self.expect(TokenKind::For)?;
        let for_type = self.parse_type()?;
        self.expect(TokenKind::LBrace)?;
        let mut methods: Vec<MethodImpl> = Vec::new();
        // Parse method implementations until we hit }
        loop
            invariant
                moved(*old(self), *self),
                old(self).current() == Some(Tok::Impl),
                empty_impl_at(old(self).toks(), old(self).at()) ==> (methods@.len() == 0 && self.at() == old(self).at() + 5),
            decreases self.remaining(),
        {
            let closing = match self.peek_kind() {
                Some(TokenKind::RBrace) => true,
                _ => false,
            };
            if closing || self.is_at_end() {
                break;
            }
            methods.push(self.parse_method_impl()?);
        }
        let end = self.expect(TokenKind::RBrace)?.span;
        let span = start.merge(end);
        Ok(Spanned::new(Decl::Impl(ImplDecl { trait_name, for_type, methods }), span))
    }

    /// Parse a method implementation in an impl block.
    ///
    /// Syntax: `fn name(param1, param2, ...) = expr`
    /// or: `fn name(param1, param2, ...) -> ReturnType = expr`
    fn parse_method_impl(&mut self) -> (r: Result<MethodImpl, ParseError>)
        requires
            old(self).wf(),
        ensures
            follows(*old(self), *final(self)),
            r is Ok ==> moved(*old(self), *final(self)),
            old(self).current() != Some(Tok::Fn) ==> (r matches Err(e)
                && e@ == expected_error(old(self).toks(), old(self).at(), kind_name(Tok::Fn))),
            (old(self).current() == Some(Tok::Fn) && (tok_at(old(self).toks(), old(self).at() + 1) matches Some(Tok::Ident(_)))
                && tok_at(old(self).toks(), old(self).at() + 2) == Some(Tok::LParen) && ident_list_at(old(self).toks(), old(self).at() + 3)
                && tok_at(old(self).toks(), ident_list_end(old(self).toks(), old(self).at() + 3) + 1) == Some(Tok::Eq) && simple_expr_at(old(self).toks(), ident_list_end(old(self).toks(), old(self).at() + 3) + 2, 0))
                ==> (r matches Ok(m) && final(self).at() == ident_list_end(old(self).toks(), old(self).at() + 3) + 3
                && tok_at(old(self).toks(), old(self).at() + 1) == Some(Tok::Ident(m.name.value@))
                && m.params@.len() == ident_list_len(old(self).toks(), old(self).at() + 3) && m.return_ty is None
                && token_expr(m.body.value, tok_at(old(self).toks(), ident_list_end(old(self).toks(), old(self).at() + 3) + 2)->0)),
        decreases old(self).remaining(), 28nat,
    {
        self.expect(TokenKind::Fn)?;
        let name = self.expect_ident()?;
        self.expect(TokenKind::LParen)?;
        // Parse parameters (comma-separated identifiers)
        let params = self.parse_ident_list()?;
        self.expect(TokenKind::RParen)?;
        // Optional return type annotation
        let return_ty = if self.eat(TokenKind::Arrow) {
            Some(self.parse_type()?)
        } else {
            None
        };
        self.expect(TokenKind::Eq)?;
        let body = self.parse_expr()?;
        Ok(MethodImpl { name, params, return_ty, body })
    }
}

impl Parser {
    // ========== Expression Parsing (Pratt Parser) ==========

    /// Parse an expression with the given minimum binding power.
    fn parse_expr_bp(&mut self, min_bp: u8) -> (r: Result<Spanned<Expr>, ParseError>)
        requires
            old(self).wf(),
        ensures
            follows(*old(self), *final(self)),
            r is Ok ==> moved(*old(self), *final(self)),
            (old(self).current() matches Some(k) && single_token_expr(k)
                && stops_expr(tok_at(old(self).toks(), old(self).at() + 1), min_bp)) ==> (r matches Ok(e)
                && token_expr(e.value, old(self).current()->0) && e.span == old(self).current_span()
                && final(self).at() == old(self).at() + 1),
            old(self).current() matches Some(k) && !starts_expr(k) ==> (r matches Err(e)
                && e@ == (ParseErr::InvalidExpression { span: old(self).current_span() })),
            old(self).current() is None ==> (r matches Err(e) && e@ == (ParseErr::UnexpectedEof { expected: "expression"@ })),
            spec_operand(old(self).toks(), old(self).at(), min_bp) is Some ==> (r matches Ok(e) && matches_tree(e.value, tree_of(spec_operand(old(self).toks(), old(self).at(), min_bp)))
                && final(self).at() == end_of(spec_operand(old(self).toks(), old(self).at(), min_bp))),
        decreases old(self).remaining(), 25nat,
    {
        let mut lhs = self.parse_prefix_expr()?;
        let ghost mut cur: OpTree = if single_expr_at(old(self).toks(), old(self).at()) {
            OpTree::Leaf(old(self).toks()[old(self).at()].kind@)
        } else if tok_at(old(self).toks(), old(self).at()) == Some(Tok::LParen) {
            tree_of(spec_paren(old(self).toks(), old(self).at()))
        } else {
            OpTree::Prefix(old(self).toks()[old(self).at()].kind@, Box::new(tree_of(spec_operand(old(self).toks(), old(self).at() + 1, 23))))
        };
        loop
            invariant
                moved(*old(self), *self),
                spec_operand(old(self).toks(), old(self).at(), min_bp) is Some ==> (matches_tree(lhs.value, cur)
                    && spec_climb(old(self).toks(), self.at(), min_bp, cur) == spec_operand(old(self).toks(), old(self).at(), min_bp)),
                old(self).current() matches Some(k) && starts_expr(k),
                (old(self).current() matches Some(k) && single_token_expr(k)
                    && stops_expr(tok_at(old(self).toks(), old(self).at() + 1), min_bp)) ==> (
                    token_expr(lhs.value, old(self).current()->0) && lhs.span == old(self).current_span()
                    && self.at() == old(self).at() + 1),
            ensures
                moved(*old(self), *self),
                spec_operand(old(self).toks(), old(self).at(), min_bp) is Some ==> (matches_tree(lhs.value, cur)
                    && spec_climb(old(self).toks(), self.at(), min_bp, cur) == spec_operand(old(self).toks(), old(self).at(), min_bp)
                    && stops_expr(tok_at(old(self).toks(), self.at()), min_bp)),
                (old(self).current() matches Some(k) && single_token_expr(k)
                    && stops_expr(tok_at(old(self).toks(), old(self).at() + 1), min_bp)) ==> (
                    token_expr(lhs.value, old(self).current()->0) && lhs.span == old(self).current_span()
                    && self.at() == old(self).at() + 1),
            decreases self.remaining(),
        {
            let op = match self.peek_kind() {
                None => break,
                Some(TokenKind::Eof) => break,
                Some(kind) => kind.copied(),
            };
            // Check for postfix operators (function application)
            match postfix_binding_power(&op) {
                Some((l_bp, ())) => {
                    if l_bp < min_bp {
                        break;
                    }
                    let ghost p = self.at();
                    lhs = self.parse_postfix_expr(lhs)?;
                    proof {
                        if spec_operand(old(self).toks(), old(self).at(), min_bp) is Some {
                            cur = if single_token_expr(op@) {
                                OpTree::Apply(Box::new(cur), op@)
                            } else if op@ == Tok::LParen {
                                OpTree::ApplyTo(Box::new(cur), Box::new(tree_of(spec_paren(old(self).toks(), p))))
                            } else {
                                OpTree::Select(Box::new(cur), tok_at(old(self).toks(), p + 1)->0->Ident_0)
                            };
                        }
                    }
                    continue;
                },
                None => {},
            }
            // Check for infix operators
            match infix_binding_power(&op) {
                Some((l_bp, r_bp)) => {
                    if l_bp < min_bp {
                        break;
                    }
                    let ghost p = self.at();
                    lhs = self.parse_infix_expr(lhs, r_bp)?;
                    proof {
                        if spec_operand(old(self).toks(), old(self).at(), min_bp) is Some {
                            cur = OpTree::Node(op@, Box::new(cur), Box::new(tree_of(spec_operand(old(self).toks(), p + 1, r_bp))));
                        }
                    }
                    continue;
                },
                None => {},
            }
            break;
        }
        Ok(lhs)
    }

    fn parse_prefix_expr(&mut self) -> (r: Result<Spanned<Expr>, ParseError>)
        requires
            old(self).wf(),
        ensures
            follows(*old(self), *final(self)),
            r is Ok ==> moved(*old(self), *final(self)),
            old(self).current() matches Some(k) && single_token_expr(k) ==> (r matches Ok(e)
                && token_expr(e.value, old(self).current()->0) && e.span == old(self).current_span()
                && final(self).at() == old(self).at() + 1),
            old(self).current() matches Some(k) && !starts_expr(k) ==> (r matches Err(e)
                && e@ == (ParseErr::InvalidExpression { span: old(self).current_span() })),
            old(self).current() is None ==> (r matches Err(e) && e@ == (ParseErr::UnexpectedEof { expected: "expression"@ })),
            ((old(self).current() == Some(Tok::Minus) || old(self).current() == Some(Tok::Bang))
                && spec_operand(old(self).toks(), old(self).at() + 1, 23) is Some) ==> (r matches Ok(e)
                && final(self).at() == end_of(spec_operand(old(self).toks(), old(self).at() + 1, 23))
                && (e.value matches Expr::UnOp(o, x) && o == unop_of(old(self).current()->0)
                    && matches_tree(x.value, tree_of(spec_operand(old(self).toks(), old(self).at() + 1, 23))))),
            r matches Ok(e) ==> match old(self).current() {
                Some(Tok::Minus) => e.value matches Expr::UnOp(UnOp::Neg, _),
                Some(Tok::Bang) => e.value matches Expr::UnOp(UnOp::Not, _),
                Some(Tok::Fn) => e.value is Lambda,
                Some(Tok::If) => e.value is If,
                Some(Tok::Match) | Some(Tok::Case) => e.value is Match,
                Some(Tok::Do) => e.value is Do,
                _ => true,
            },
            spec_paren(old(self).toks(), old(self).at()) is Some ==> (r matches Ok(x) && matches_tree(x.value, tree_of(spec_paren(old(self).toks(), old(self).at())))
                && final(self).at() == end_of(spec_paren(old(self).toks(), old(self).at()))),
        decreases old(self).remaining(), 24nat,
    {
        match self.peek_kind() {
            // Unary minus
            Some(TokenKind::Minus) => {
                let op_token = self.advance();
                let ((), r_bp) = prefix_binding_power(&TokenKind::Minus);
                let operand = self.parse_expr_bp(r_bp)?;
                let span = op_token.span.merge(operand.span);
                Ok(Spanned::new(Expr::UnOp(UnOp::Neg, Box::new(operand)), span))
            },
            // Logical not
            Some(TokenKind::Bang) => {
                let op_token = self.advance();
                let ((), r_bp) = prefix_binding_power(&TokenKind::Bang);
                let operand = self.parse_expr_bp(r_bp)?;
                let span = op_token.span.merge(operand.span);
                Ok(Spanned::new(Expr::UnOp(UnOp::Not, Box::new(operand)), span))
            },
            // Lambda
            Some(TokenKind::Fn) => self.parse_lambda(),
            // Conditional
            Some(TokenKind::If) => self.parse_if_expr(),
            // Match expression
            Some(TokenKind::Match) => self.parse_match_expr(),
            // Case expression (alternative syntax)
            Some(TokenKind::Case) => self.parse_case_expr(),
            // Do block
            Some(TokenKind::Do) => self.parse_do_expr(),
            // Atomic expressions
            _ => self.parse_atomic_expr(),
        }
    }

    fn parse_atomic_expr(&mut self) -> (r: Result<Spanned<Expr>, ParseError>)
        requires
            old(self).wf(),
        ensures
            follows(*old(self), *final(self)),
            r is Ok ==> moved(*old(self), *final(self)),
            old(self).current() matches Some(k) && single_token_expr(k) ==> (r matches Ok(e)
                && token_expr(e.value, old(self).current()->0) && e.span == old(self).current_span()
                && final(self).at() == old(self).at() + 1),
            match old(self).current() {
                Some(Tok::Int(n)) => r matches Ok(e) && e.value == Expr::Lit(Literal::Int(n))
                    && e.span == old(self).current_span(),
                Some(Tok::True) => r matches Ok(e) && e.value == Expr::Lit(Literal::Bool(true))
                    && e.span == old(self).current_span(),
                Some(Tok::False) => r matches Ok(e) && e.value == Expr::Lit(Literal::Bool(false))
                    && e.span == old(self).current_span(),
                Some(Tok::Char(c)) => r matches Ok(e) && e.value == Expr::Lit(Literal::Char(c))
                    && e.span == old(self).current_span(),
                Some(Tok::Ident(name)) => r matches Ok(e) && e.value matches Expr::Var(v) && v@ == name
                    && e.span == old(self).current_span(),
                Some(Tok::UpperIdent(name)) => r matches Ok(e) && e.value matches Expr::Con(v) && v@ == name
                    && e.span == old(self).current_span(),
                Some(k) => (!starts_atom(k) && k != Tok::Backtick) ==>
                    (r matches Err(e) && e@ == (ParseErr::InvalidExpression { span: old(self).current_span() })),
                None => r matches Err(e) && e@ == (ParseErr::UnexpectedEof { expected: "expression"@ }),
            },
            spec_paren(old(self).toks(), old(self).at()) is Some ==> (r matches Ok(x) && matches_tree(x.value, tree_of(spec_paren(old(self).toks(), old(self).at())))
                && final(self).at() == end_of(spec_paren(old(self).toks(), old(self).at()))),
        decreases old(self).remaining(), 22nat,
    {
        match self.peek_owned() {
            // Literals
            Some(TokenKind::Int(n)) => {
                let token = self.advance();
                Ok(Spanned::new(Expr::Lit(Literal::Int(n)), token.span))
            },
            Some(TokenKind::Float(f)) => {
                let token = self.advance();
                Ok(Spanned::new(Expr::Lit(Literal::Float(f)), token.span))
            },
            Some(TokenKind::String(s)) => {
                let token = self.advance();
                Ok(Spanned::new(Expr::Lit(Literal::String(s)), token.span))
            },
            Some(TokenKind::Char(c)) => {
                let token = self.advance();
                Ok(Spanned::new(Expr::Lit(Literal::Char(c)), token.span))
            },
            Some(TokenKind::True) => {
                let token = self.advance();
                Ok(Spanned::new(Expr::Lit(Literal::Bool(true)), token.span))
            },
            Some(TokenKind::False) => {
                let token = self.advance();
                Ok(Spanned::new(Expr::Lit(Literal::Bool(false)), token.span))
            },
            // Variables
            Some(TokenKind::Ident(name)) => {
                let token = self.advance();
                Ok(Spanned::new(Expr::Var(name), token.span))
            },
            // Constructors
            Some(TokenKind::UpperIdent(name)) => {
                let token = self.advance();
                Ok(Spanned::new(Expr::Con(name), token.span))
            },
            // Environment variables (accept both ident and upper ident for $HOME, $PATH, etc.)
            Some(TokenKind::Dollar) => {
                let start = self.advance().span;
                let name = self.expect_any_ident()?;
                let span = start.merge(name.span);
                Ok(Spanned::new(Expr::EnvVar(name.value), span))
            },
            // Parenthesized expression, tuple, or unit
            Some(TokenKind::LParen) => self.parse_paren_expr(),
            // List
            Some(TokenKind::LBracket) => self.parse_list_expr(),
            // Record
            Some(TokenKind::LBrace) => self.parse_record_expr(),
            // Shell command
            Some(TokenKind::Backtick) => self.parse_command_expr(),
            Some(_) => {
                let span = self.tokens[self.pos].span;
                Err(ParseError::InvalidExpression { span })
            },
            None => Err(Self::eof_error("expression")),
        }
    }

    /// Comma-separated expressions after a first one.
    fn parse_more_exprs(&mut self, elements: Vec<Spanned<Expr>>) -> (r: Result<Vec<Spanned<Expr>>, ParseError>)
        requires
            old(self).wf(),
        ensures
            follows(*old(self), *final(self)),
            old(self).current() != Some(Tok::Comma) ==> (r matches Ok(v) && v@ == elements@
                && final(self).at() == old(self).at()),
            r matches Ok(v) ==> {
                &&& v@.len() >= elements@.len()
                &&& v@.subrange(0, elements@.len() as int) == elements@
                &&& final(self).current() != Some(Tok::Comma)
                &&& (v@.len() > elements@.len() <==> old(self).current() == Some(Tok::Comma))
            },
        decreases old(self).remaining(), 27nat,
    {
        let ghost n = elements@.len();
        let ghost orig = elements@;
        let mut elements = elements;
        while self.eat(TokenKind::Comma)
            invariant
                follows(*old(self), *self),
                elements@.len() >= n,
                elements@.subrange(0, n as int) == orig,
                elements@.len() == n ==> self.at() == old(self).at(),
                elements@.len() > n ==> self.at() > old(self).at() && old(self).current() == Some(Tok::Comma),
            decreases self.remaining(),
        {
            let x = self.parse_expr()?;
            elements.push(x);
            proof { assert(elements@.subrange(0, n as int) =~= orig); }
        }
        Ok(elements)
    }

    fn parse_paren_expr(&mut self) -> (r: Result<Spanned<Expr>, ParseError>)
        requires
            old(self).wf(),
        ensures
            follows(*old(self), *final(self)),
            r is Ok ==> moved(*old(self), *final(self)),
            old(self).current() != Some(Tok::LParen) ==> (r matches Err(e)
                && e@ == expected_error(old(self).toks(), old(self).at(), kind_name(Tok::LParen))),
            (old(self).current() == Some(Tok::LParen) && tok_at(old(self).toks(), old(self).at() + 1) == Some(Tok::RParen))
                ==> (r matches Ok(x) && x.value == Expr::Unit
                    && x.span == unit_span_of(old(self).current_span()) && final(self).at() == old(self).at() + 2),
            r matches Ok(x) ==> (old(self).current() == Some(Tok::LParen)
                && tok_at(final(self).toks(), final(self).at() - 1) == Some(Tok::RParen)),
            spec_paren(old(self).toks(), old(self).at()) is Some ==> (r matches Ok(x) && matches_tree(x.value, tree_of(spec_paren(old(self).toks(), old(self).at())))
                && final(self).at() == end_of(spec_paren(old(self).toks(), old(self).at()))),
        decreases old(self).remaining(), 21nat,
    {
        let start = self.expect(TokenKind::LParen)?.span;
        // Unit: ()
        if self.eat(TokenKind::RParen) {
            return Ok(Spanned::new(Expr::Unit, unit_span(start)));
        }
        let first = self.parse_expr()?;
        // Tuple: (e1, e2, ...)
        if self.eat(TokenKind::Comma) {
            let second = self.parse_expr()?;
            let elements = self.parse_more_exprs(vec![first, second])?;
            let end = self.expect(TokenKind::RParen)?.span;
            return Ok(Spanned::new(Expr::Tuple(elements), start.merge(end)));
        }
        // Parenthesized expression
        let end = self.expect(TokenKind::RParen)?.span;
        Ok(Spanned::new(first.value, start.merge(end)))
    }

    fn parse_list_expr(&mut self) -> (r: Result<Spanned<Expr>, ParseError>)
        requires
            old(self).wf(),
        ensures
            follows(*old(self), *final(self)),
            r is Ok ==> moved(*old(self), *final(self)),
            old(self).current() != Some(Tok::LBracket) ==> (r matches Err(e)
                && e@ == expected_error(old(self).toks(), old(self).at(), kind_name(Tok::LBracket))),
            (old(self).current() == Some(Tok::LBracket) && tok_at(old(self).toks(), old(self).at() + 1) == Some(Tok::RBracket))
                ==> (r matches Ok(x) && (x.value matches Expr::List(v) && v@.len() == 0)
                    && x.span == unit_span_of(old(self).current_span()) && final(self).at() == old(self).at() + 2),
            r matches Ok(x) ==> (old(self).current() == Some(Tok::LBracket)
                && tok_at(final(self).toks(), final(self).at() - 1) == Some(Tok::RBracket) && x.value is List),
        decreases old(self).remaining(), 21nat,
    {
        let start = self.expect(TokenKind::LBracket)?.span;
        // Empty list: []
        if self.eat(TokenKind::RBracket) {
            return Ok(Spanned::new(Expr::List(Vec::new()), unit_span(start)));
        }
        let first = self.parse_expr()?;
        let elements = self.parse_more_exprs(vec![first])?;
        let end = self.expect(TokenKind::RBracket)?.span;
        Ok(Spanned::new(Expr::List(elements), start.merge(end)))
    }

    fn parse_record_expr(&mut self) -> (r: Result<Spanned<Expr>, ParseError>)
        requires
            old(self).wf(),
        ensures
            follows(*old(self), *final(self)),
            r is Ok ==> moved(*old(self), *final(self)),
            old(self).current() != Some(Tok::LBrace) ==> (r matches Err(e)
                && e@ == expected_error(old(self).toks(), old(self).at(), kind_name(Tok::LBrace))),
            (old(self).current() == Some(Tok::LBrace) && tok_at(old(self).toks(), old(self).at() + 1) == Some(Tok::RBrace))
                ==> (r matches Ok(x) && (x.value matches Expr::Record(v) && v@.len() == 0)
                    && x.span == unit_span_of(old(self).current_span()) && final(self).at() == old(self).at() + 2),
            r matches Ok(x) ==> (old(self).current() == Some(Tok::LBrace)
                && tok_at(final(self).toks(), final(self).at() - 1) == Some(Tok::RBrace) && x.value is Record),
        decreases old(self).remaining(), 21nat,
    {
        let start = self.expect(TokenKind::LBrace)?.span;
        // Empty record: {}
        if self.eat(TokenKind::RBrace) {
            return Ok(Spanned::new(Expr::Record(Vec::new()), unit_span(start)));
        }
        let mut fields: Vec<(Spanned<String>, Spanned<Expr>)> = Vec::new();
        fields.push(self.parse_record_field()?);
        while self.eat(TokenKind::Comma)
            invariant
                moved(*old(self), *self),
                old(self).current() == Some(Tok::LBrace),
                tok_at(old(self).toks(), old(self).at() + 1) != Some(Tok::RBrace),
            decreases self.remaining(),
        {
            fields.push(self.parse_record_field()?);
        }
        let end = self.expect(TokenKind::RBrace)?.span;
        Ok(Spanned::new(Expr::Record(fields), start.merge(end)))
    }

    fn parse_record_field(&mut self) -> (r: Result<(Spanned<String>, Spanned<Expr>), ParseError>)
        requires
            old(self).wf(),
        ensures
            follows(*old(self), *final(self)),
            r is Ok ==> moved(*old(self), *final(self)),
            (old(self).current() matches Some(Tok::Ident(_)) && tok_at(old(self).toks(), old(self).at() + 1) == Some(Tok::Eq)
                && simple_expr_at(old(self).toks(), old(self).at() + 2, 0)) ==> (r matches Ok(f) && final(self).at() == old(self).at() + 3
                && token_expr(f.1.value, tok_at(old(self).toks(), old(self).at() + 2)->0)),
            !(old(self).current() matches Some(Tok::Ident(_))) ==> (r matches Err(e) && e@ == ident_error(old(self).toks(), old(self).at())),
            r matches Ok(f) ==> (old(self).current() == Some(Tok::Ident(f.0.value@)) && f.0.span == old(self).current_span()
                && tok_at(old(self).toks(), old(self).at() + 1) == Some(Tok::Eq)),
        decreases old(self).remaining(), 27nat,
    {
        let name = self.expect_ident()?;
        self.expect(TokenKind::Eq)?;
        let value = self.parse_expr()?;
        Ok((name, value))
    }

    /// Parse a shell command expression: `` `command {interpolation} more` ``
    fn parse_command_expr(&mut self) -> (r: Result<Spanned<Expr>, ParseError>)
        requires
            old(self).wf(),
        ensures
            follows(*old(self), *final(self)),
            r is Ok ==> moved(*old(self), *final(self)),
            old(self).current() != Some(Tok::Backtick) ==> (r matches Err(e)
                && e@ == expected_error(old(self).toks(), old(self).at(), kind_name(Tok::Backtick))),
            (old(self).current() == Some(Tok::Backtick) && tok_at(old(self).toks(), old(self).at() + 1) == Some(Tok::Backtick))
                ==> (r matches Ok(e) && final(self).at() == old(self).at() + 2 && (e.value matches Expr::Command(ps) && ps@.len() == 0)),
            (old(self).current() == Some(Tok::Backtick) && (tok_at(old(self).toks(), old(self).at() + 1) matches Some(Tok::CommandText(t)) && t.len() > 0)
                && tok_at(old(self).toks(), old(self).at() + 2) == Some(Tok::Backtick))
                ==> (r matches Ok(e) && final(self).at() == old(self).at() + 3 && (e.value matches Expr::Command(ps) && ps@.len() == 1
                    && (ps@[0] matches CommandPart::Literal(x) && tok_at(old(self).toks(), old(self).at() + 1) == Some(Tok::CommandText(x@))))),
            r matches Ok(e) ==> e.value is Command,
        decreases old(self).remaining(), 21nat,
    {
        let start = self.expect(TokenKind::Backtick)?.span;
        let mut parts: Vec<CommandPart> = Vec::new();
        loop
            invariant
                moved(*old(self), *self),
                old(self).current() == Some(Tok::Backtick),
                tok_at(old(self).toks(), old(self).at() + 1) == Some(Tok::Backtick) ==> (self.at() == old(self).at() + 1 && parts@.len() == 0),
                ((tok_at(old(self).toks(), old(self).at() + 1) matches Some(Tok::CommandText(t)) && t.len() > 0)
                    && tok_at(old(self).toks(), old(self).at() + 2) == Some(Tok::Backtick)) ==> ((self.at() == old(self).at() + 1 && parts@.len() == 0)
                    || (self.at() == old(self).at() + 2 && parts@.len() == 1
                        && (parts@[0] matches CommandPart::Literal(x) && tok_at(old(self).toks(), old(self).at() + 1) == Some(Tok::CommandText(x@))))),
            decreases self.remaining(),
        {
            match self.peek_owned() {
                Some(TokenKind::Backtick) => {
                    // End of command
                    let end = self.advance().span;
                    return Ok(Spanned::new(Expr::Command(parts), start.merge(end)));
                },
                Some(TokenKind::CommandText(text)) => {
                    // Literal command text
                    self.advance();
                    if !text.as_str().is_empty() {
                        parts.push(CommandPart::Literal(text));
                    }
                },
                Some(TokenKind::LBrace) => {
                    // Start of interpolation
                    self.advance();
                    let expr = self.parse_expr()?;
                    self.expect(TokenKind::RBrace)?;
                    parts.push(CommandPart::Interpolation(Box::new(expr)));
                },
                Some(TokenKind::Eof) | None => {
                    return Err(Self::eof_error("closing backtick"));
                },
                Some(_) => {
                    return Err(self.unexpected_here("command text, interpolation, or closing backtick"));
                },
            }
        }
    }

    fn parse_lambda(&mut self) -> (r: Result<Spanned<Expr>, ParseError>)
        requires
            old(self).wf(),
        ensures
            follows(*old(self), *final(self)),
            r is Ok ==> moved(*old(self), *final(self)),
            old(self).current() != Some(Tok::Fn) ==> (r matches Err(e)
                && e@ == expected_error(old(self).toks(), old(self).at(), kind_name(Tok::Fn))),
            (old(self).current() == Some(Tok::Fn) && tok_at(old(self).toks(), old(self).at() + 1) == Some(Tok::FatArrow)
                && simple_expr_at(old(self).toks(), old(self).at() + 2, 0)) ==> (r matches Ok(e) && final(self).at() == old(self).at() + 3
                && (e.value matches Expr::Lambda(ps, b) && ps@.len() == 0 && token_expr(b.value, tok_at(old(self).toks(), old(self).at() + 2)->0))),
            (old(self).current() == Some(Tok::Fn) && (tok_at(old(self).toks(), old(self).at() + 1) matches Some(Tok::Ident(_)))
                && tok_at(old(self).toks(), old(self).at() + 2) == Some(Tok::FatArrow) && simple_expr_at(old(self).toks(), old(self).at() + 3, 0))
                ==> (r matches Ok(e) && final(self).at() == old(self).at() + 4
                && (e.value matches Expr::Lambda(ps, b) && ps@.len() == 1
                    && token_pattern(ps@[0].value, tok_at(old(self).toks(), old(self).at() + 1)->0)
                    && token_expr(b.value, tok_at(old(self).toks(), old(self).at() + 3)->0))),
            r matches Ok(e) ==> e.value is Lambda,
        decreases old(self).remaining(), 23nat,
    {
        let start = self.expect(TokenKind::Fn)?.span;
        let mut params: Vec<Spanned<Pattern>> = Vec::new();
        loop
            invariant
                moved(*old(self), *self),
                old(self).current() == Some(Tok::Fn),
                tok_at(old(self).toks(), old(self).at() + 1) == Some(Tok::FatArrow)
                    ==> params@.len() == 0 && self.at() == old(self).at() + 1,
                ((tok_at(old(self).toks(), old(self).at() + 1) matches Some(Tok::Ident(_)))
                    && tok_at(old(self).toks(), old(self).at() + 2) == Some(Tok::FatArrow))
                    ==> ((params@.len() == 0 && self.at() == old(self).at() + 1)
                        || (params@.len() == 1 && self.at() == old(self).at() + 2
                            && token_pattern(params@[0].value, tok_at(old(self).toks(), old(self).at() + 1)->0))),
            ensures
                moved(*old(self), *self),
                self.current() == Some(Tok::FatArrow) || self.current() is None,
                tok_at(old(self).toks(), old(self).at() + 1) == Some(Tok::FatArrow)
                    ==> params@.len() == 0 && self.at() == old(self).at() + 1,
                ((tok_at(old(self).toks(), old(self).at() + 1) matches Some(Tok::Ident(_)))
                    && tok_at(old(self).toks(), old(self).at() + 2) == Some(Tok::FatArrow))
                    ==> ((params@.len() == 0 && self.at() == old(self).at() + 1)
                        || (params@.len() == 1 && self.at() == old(self).at() + 2
                            && token_pattern(params@[0].value, tok_at(old(self).toks(), old(self).at() + 1)->0))),
            decreases self.remaining(),
        {
            match self.peek_kind() {
                Some(TokenKind::FatArrow) | None => break,
                Some(_) => {},
            }
            params.push(self.parse_atomic_pattern()?);
        }
        self.expect(TokenKind::FatArrow)?;
        let body = self.parse_expr()?;
        let span = start.merge(body.span);
        Ok(Spanned::new(Expr::Lambda(params, Box::new(body)), span))
    }

    fn parse_if_expr(&mut self) -> (r: Result<Spanned<Expr>, ParseError>)
        requires
            old(self).wf(),
        ensures
            follows(*old(self), *final(self)),
            r is Ok ==> moved(*old(self), *final(self)),
            old(self).current() != Some(Tok::If) ==> (r matches Err(e)
                && e@ == expected_error(old(self).toks(), old(self).at(), kind_name(Tok::If))),
            (old(self).current() == Some(Tok::If) && single_expr_at(old(self).toks(), old(self).at() + 1) && tok_at(old(self).toks(), old(self).at() + 2) == Some(Tok::Then)
                && single_expr_at(old(self).toks(), old(self).at() + 3) && tok_at(old(self).toks(), old(self).at() + 4) == Some(Tok::Else)
                && simple_expr_at(old(self).toks(), old(self).at() + 5, 0)) ==> (r matches Ok(e) && final(self).at() == old(self).at() + 6
                && (e.value matches Expr::If(c, t, f) && token_expr(c.value, tok_at(old(self).toks(), old(self).at() + 1)->0)
                    && token_expr(t.value, tok_at(old(self).toks(), old(self).at() + 3)->0) && token_expr(f.value, tok_at(old(self).toks(), old(self).at() + 5)->0))),
            r matches Ok(e) ==> e.value is If,
        decreases old(self).remaining(), 23nat,
    {
        let start = self.expect(TokenKind::If)?.span;
        let cond = self.parse_expr()?;
        self.expect(TokenKind::Then)?;
        let then_branch = self.parse_expr()?;
        self.expect(TokenKind::Else)?;
        let else_branch = self.parse_expr()?;
        let span = start.merge(else_branch.span);
        Ok(Spanned::new(Expr::If(Box::new(cond), Box::new(then_branch), Box::new(else_branch)), span))
    }

    /// The arms of a `match` or `case`, with an optional leading `|`.
    fn parse_arms(&mut self) -> (r: Result<Vec<MatchArm>, ParseError>)
        requires
            old(self).wf(),
        ensures
            follows(*old(self), *final(self)),
            r is Ok ==> moved(*old(self), *final(self)),
            (simple_arm_at(old(self).toks(), old(self).at()) && tok_at(old(self).toks(), old(self).at() + 3) != Some(Tok::Bar)) ==> (r matches Ok(v)
                && final(self).at() == old(self).at() + 3 && v@.len() == 1 && simple_arm(old(self).toks(), old(self).at(), v@[0])),
            r matches Ok(v) ==> v@.len() >= 1,
        decreases old(self).remaining(), 28nat,
    {
        // Optional leading |
        self.eat(TokenKind::Bar);
        let mut arms: Vec<MatchArm> = Vec::new();
        arms.push(self.parse_match_arm()?);
        while self.eat(TokenKind::Bar)
            invariant
                moved(*old(self), *self),
                (simple_arm_at(old(self).toks(), old(self).at()) && tok_at(old(self).toks(), old(self).at() + 3) != Some(Tok::Bar)) ==> (arms@.len() == 1
                    && self.at() == old(self).at() + 3 && simple_arm(old(self).toks(), old(self).at(), arms@[0])),
                arms@.len() >= 1,
            decreases self.remaining(),
        {
            arms.push(self.parse_match_arm()?);
        }
        Ok(arms)
    }

    fn parse_match_expr(&mut self) -> (r: Result<Spanned<Expr>, ParseError>)
        requires
            old(self).wf(),
        ensures
            follows(*old(self), *final(self)),
            r is Ok ==> moved(*old(self), *final(self)),
            old(self).current() != Some(Tok::Match) ==> (r matches Err(e)
                && e@ == expected_error(old(self).toks(), old(self).at(), kind_name(Tok::Match))),
            (old(self).current() == Some(Tok::Match) && simple_expr_at(old(self).toks(), old(self).at() + 1, 0)
                && tok_at(old(self).toks(), old(self).at() + 2) == Some(Tok::With) && simple_arm_at(old(self).toks(), old(self).at() + 3)
                && tok_at(old(self).toks(), old(self).at() + 6) != Some(Tok::Bar)) ==> (r matches Ok(e) && final(self).at() == old(self).at() + 6
                && (e.value matches Expr::Match(x, arms) && token_expr(x.value, tok_at(old(self).toks(), old(self).at() + 1)->0)
                    && arms@.len() == 1 && simple_arm(old(self).toks(), old(self).at() + 3, arms@[0]))),
            r matches Ok(e) ==> e.value is Match,
        decreases old(self).remaining(), 23nat,
    {
        let start = self.expect(TokenKind::Match)?.span;
        let scrutinee = self.parse_expr()?;
        self.expect(TokenKind::With)?;
        let arms = self.parse_arms()?;
        let end_span = arms[arms.len() - 1].body.span;
        let span = start.merge(end_span);
        Ok(Spanned::new(Expr::Match(Box::new(scrutinee), arms), span))
    }

    fn parse_case_expr(&mut self) -> (r: Result<Spanned<Expr>, ParseError>)
        requires
            old(self).wf(),
        ensures
            follows(*old(self), *final(self)),
            r is Ok ==> moved(*old(self), *final(self)),
            old(self).current() != Some(Tok::Case) ==> (r matches Err(e)
                && e@ == expected_error(old(self).toks(), old(self).at(), kind_name(Tok::Case))),
            (old(self).current() == Some(Tok::Case) && simple_expr_at(old(self).toks(), old(self).at() + 1, 0)
                && tok_at(old(self).toks(), old(self).at() + 2) == Some(Tok::Of) && simple_arm_at(old(self).toks(), old(self).at() + 3)
                && tok_at(old(self).toks(), old(self).at() + 6) != Some(Tok::Bar)) ==> (r matches Ok(e) && final(self).at() == old(self).at() + 6
                && (e.value matches Expr::Match(x, arms) && token_expr(x.value, tok_at(old(self).toks(), old(self).at() + 1)->0)
                    && arms@.len() == 1 && simple_arm(old(self).toks(), old(self).at() + 3, arms@[0]))),
            r matches Ok(e) ==> e.value is Match,
        decreases old(self).remaining(), 23nat,
    {
        let start = self.expect(TokenKind::Case)?.span;
        let scrutinee = self.parse_expr()?;
        self.expect(TokenKind::Of)?;
        let arms = self.parse_arms()?;
        let end_span = arms[arms.len() - 1].body.span;
        let span = start.merge(end_span);
        Ok(Spanned::new(Expr::Match(Box::new(scrutinee), arms), span))
    }

    fn parse_match_arm(&mut self) -> (r: Result<MatchArm, ParseError>)
        requires
            old(self).wf(),
        ensures
            follows(*old(self), *final(self)),
            r is Ok ==> moved(*old(self), *final(self)),
            simple_arm_at(old(self).toks(), old(self).at()) ==> (r matches Ok(a) && final(self).at() == old(self).at() + 3
                && simple_arm(old(self).toks(), old(self).at(), a)),
        decreases old(self).remaining(), 27nat,
    {
        let pattern = self.parse_pattern()?;
        // Guards (`when`) are not parsed yet
        let guard: Option<Spanned<Expr>> = None;
        self.expect(TokenKind::Arrow)?;
        let body = self.parse_expr()?;
        Ok(MatchArm { pattern, guard, body })
    }

    fn parse_do_expr(&mut self) -> (r: Result<Spanned<Expr>, ParseError>)
        requires
            old(self).wf(),
        ensures
            follows(*old(self), *final(self)),
            r is Ok ==> moved(*old(self), *final(self)),
            old(self).current() != Some(Tok::Do) ==> (r matches Err(e)
                && e@ == expected_error(old(self).toks(), old(self).at(), kind_name(Tok::Do))),
            (old(self).current() == Some(Tok::Do) && tok_at(old(self).toks(), old(self).at() + 1) == Some(Tok::End))
                ==> (r matches Ok(e) && final(self).at() == old(self).at() + 2 && (e.value matches Expr::Do(st) && st@.len() == 0)),
            (old(self).current() == Some(Tok::Do) && tok_at(old(self).toks(), old(self).at() + 1) != Some(Tok::Let)
                && simple_expr_at(old(self).toks(), old(self).at() + 1, 0) && tok_at(old(self).toks(), old(self).at() + 2) == Some(Tok::End))
                ==> (r matches Ok(e) && final(self).at() == old(self).at() + 3 && (e.value matches Expr::Do(st) && st@.len() == 1
                    && (st@[0] matches DoStmt::Expr(x) && token_expr(x.value, tok_at(old(self).toks(), old(self).at() + 1)->0)))),
            r matches Ok(e) ==> e.value is Do,
        decreases old(self).remaining(), 23nat,
    {
        let start = self.expect(TokenKind::Do)?.span;
        let mut stmts: Vec<DoStmt> = Vec::new();
        loop
            invariant
                moved(*old(self), *self),
                old(self).current() == Some(Tok::Do),
                tok_at(old(self).toks(), old(self).at() + 1) == Some(Tok::End) ==> (self.at() == old(self).at() + 1 && stmts@.len() == 0),
                (tok_at(old(self).toks(), old(self).at() + 1) != Some(Tok::Let) && simple_expr_at(old(self).toks(), old(self).at() + 1, 0)
                    && tok_at(old(self).toks(), old(self).at() + 2) == Some(Tok::End)) ==> ((self.at() == old(self).at() + 1 && stmts@.len() == 0)
                    || (self.at() == old(self).at() + 2 && stmts@.len() == 1
                        && (stmts@[0] matches DoStmt::Expr(x) && token_expr(x.value, tok_at(old(self).toks(), old(self).at() + 1)->0)))),
            ensures
                moved(*old(self), *self),
                self.current() == Some(Tok::End) || self.current() is None,
                old(self).current() == Some(Tok::Do),
                tok_at(old(self).toks(), old(self).at() + 1) == Some(Tok::End) ==> (self.at() == old(self).at() + 1 && stmts@.len() == 0),
                (tok_at(old(self).toks(), old(self).at() + 1) != Some(Tok::Let) && simple_expr_at(old(self).toks(), old(self).at() + 1, 0)
                    && tok_at(old(self).toks(), old(self).at() + 2) == Some(Tok::End)) ==> ((self.at() == old(self).at() + 1 && stmts@.len() == 0)
                    || (self.at() == old(self).at() + 2 && stmts@.len() == 1
                        && (stmts@[0] matches DoStmt::Expr(x) && token_expr(x.value, tok_at(old(self).toks(), old(self).at() + 1)->0)))),
            decreases self.remaining(),
        {
            match self.peek_kind() {
                Some(TokenKind::End) | None => break,
                Some(_) => {},
            }
            stmts.push(self.parse_do_stmt()?);
            // Optional semicolon
            self.eat(TokenKind::Semi);
        }
        let end = self.expect(TokenKind::End)?.span;
        Ok(Spanned::new(Expr::Do(stmts), start.merge(end)))
    }

    fn parse_do_stmt(&mut self) -> (r: Result<DoStmt, ParseError>)
        requires
            old(self).wf(),
        ensures
            follows(*old(self), *final(self)),
            r is Ok ==> moved(*old(self), *final(self)),
            (old(self).current() != Some(Tok::Let) && simple_expr_at(old(self).toks(), old(self).at(), 0)
                && tok_at(old(self).toks(), old(self).at() + 1) != Some(Tok::LeftArrow)) ==> (r matches Ok(st) && final(self).at() == old(self).at() + 1
                && (st matches DoStmt::Expr(e) && token_expr(e.value, old(self).current()->0))),
            (old(self).current() == Some(Tok::Let) && simple_pattern_at(old(self).toks(), old(self).at() + 1)
                && tok_at(old(self).toks(), old(self).at() + 2) == Some(Tok::Eq) && simple_expr_at(old(self).toks(), old(self).at() + 3, 0))
                ==> (r matches Ok(st) && final(self).at() == old(self).at() + 4
                && (st matches DoStmt::Let(p, e) && token_pattern(p.value, tok_at(old(self).toks(), old(self).at() + 1)->0)
                    && token_expr(e.value, tok_at(old(self).toks(), old(self).at() + 3)->0))),
        decreases old(self).remaining(), 28nat,
    {
        // Check for let binding
        if self.eat(TokenKind::Let) {
            let pattern = self.parse_pattern()?;
            self.expect(TokenKind::Eq)?;
            let expr = self.parse_expr()?;
            return Ok(DoStmt::Let(pattern, expr));
        }
        // Parse expression, then check for <- (bind)
        let expr = self.parse_expr()?;
        if self.eat(TokenKind::LeftArrow) {
            // This was actually a pattern
            let pattern = self.expr_to_pattern(&expr)?;
            let rhs = self.parse_expr()?;
            return Ok(DoStmt::Bind(pattern, rhs));
        }
        Ok(DoStmt::Expr(expr))
    }

    fn parse_postfix_expr(&mut self, lhs: Spanned<Expr>) -> (r: Result<Spanned<Expr>, ParseError>)
        requires
            old(self).wf(),
            old(self).current() matches Some(k) && postfix_bp(k) is Some,
        ensures
            follows(*old(self), *final(self)),
            r is Ok ==> moved(*old(self), *final(self)),
            match r {
                Ok(e) => e.value is App || e.value is Field,
                Err(_) => true,
            },
            old(self).current() matches Some(k) && single_token_expr(k) ==> (r matches Ok(e)
                && (e.value matches Expr::App(f, a) && *f == lhs && token_expr(a.value, old(self).current()->0))
                && final(self).at() == old(self).at() + 1),
            spec_paren(old(self).toks(), old(self).at()) is Some ==> (r matches Ok(e) && final(self).at() == end_of(spec_paren(old(self).toks(), old(self).at()))
                && (e.value matches Expr::App(f, a) && *f == lhs && matches_tree(a.value, tree_of(spec_paren(old(self).toks(), old(self).at()))))),
            old(self).current() == Some(Tok::Dot) ==> match tok_at(old(self).toks(), old(self).at() + 1) {
                Some(Tok::Ident(n)) => r matches Ok(e) && final(self).at() == old(self).at() + 2
                    && (e.value matches Expr::Field(f, name) && *f == lhs && name.value@ == n),
                _ => r matches Err(e) && e@ == ident_error(old(self).toks(), old(self).at() + 1),
            },
        decreases old(self).remaining(), 24nat,
    {
        // Function application
        let applies = match self.peek_kind() {
            Some(k) => can_start_atom(k),
            None => false,
        };
        if applies {
            let arg = self.parse_atomic_expr()?;
            let span = lhs.span.merge(arg.span);
            return Ok(Spanned::new(Expr::App(Box::new(lhs), Box::new(arg)), span));
        }
        // Record field access
        self.eat(TokenKind::Dot);
        let field = self.expect_ident()?;
        let span = lhs.span.merge(field.span);
        Ok(Spanned::new(Expr::Field(Box::new(lhs), field), span))
    }

    fn binary(op: BinOp, lhs: Spanned<Expr>, rhs: Spanned<Expr>) -> (e: Spanned<Expr>)
        ensures
            e.value == Expr::BinOp(op, Box::new(lhs), Box::new(rhs)),
    {
        let span = lhs.span.merge(rhs.span);
        Spanned::new(Expr::BinOp(op, Box::new(lhs), Box::new(rhs)), span)
    }

    fn parse_infix_expr(&mut self, lhs: Spanned<Expr>, r_bp: u8) -> (r: Result<Spanned<Expr>, ParseError>)
        requires
            old(self).wf(),
            old(self).current() matches Some(k) && infix_bp(k) is Some,
        ensures
            follows(*old(self), *final(self)),
            r is Ok ==> moved(*old(self), *final(self)),
            match r {
                Ok(e) => match old(self).current() {
                    Some(Tok::Pipe) => e.value is Pipe,
                    Some(Tok::Colon) => e.value is Annot,
                    _ => e.value is BinOp,
                },
                Err(_) => true,
            },
            (old(self).current() != Some(Tok::Colon) && tok_at(old(self).toks(), old(self).at() + 1) is Some
                && single_token_expr(tok_at(old(self).toks(), old(self).at() + 1)->0) && stops_expr(tok_at(old(self).toks(), old(self).at() + 2), r_bp))
                ==> (r matches Ok(e) && final(self).at() == old(self).at() + 2
                    && infix_result(e.value, old(self).current()->0, lhs, tok_at(old(self).toks(), old(self).at() + 1)->0)),
            (old(self).current() != Some(Tok::Colon) && spec_operand(old(self).toks(), old(self).at() + 1, r_bp) is Some) ==> (r matches Ok(e)
                && final(self).at() == end_of(spec_operand(old(self).toks(), old(self).at() + 1, r_bp))
                && joins(e.value, old(self).current()->0, lhs, tree_of(spec_operand(old(self).toks(), old(self).at() + 1, r_bp)))),
            (old(self).current() == Some(Tok::Colon) && is_type_name(tok_at(old(self).toks(), old(self).at() + 1))
                && !continues_type(tok_at(old(self).toks(), old(self).at() + 2)))
                ==> (r matches Ok(e) && final(self).at() == old(self).at() + 2
                    && (e.value matches Expr::Annot(a, t) && *a == lhs
                        && names_type(t.value, tok_at(old(self).toks(), old(self).at() + 1)->0))),
        decreases old(self).remaining(), 24nat,
    {
        let op_token = self.advance();
        let op = match &op_token.kind {
            // Binary operators
            TokenKind::Plus => BinOp::Add,
            TokenKind::Minus => BinOp::Sub,
            TokenKind::Star => BinOp::Mul,
            TokenKind::Slash => BinOp::Div,
            TokenKind::Percent => BinOp::Mod,
            TokenKind::Eq => BinOp::Eq,
            TokenKind::Neq => BinOp::Neq,
            TokenKind::Lt => BinOp::Lt,
            TokenKind::Le => BinOp::Le,
            TokenKind::Gt => BinOp::Gt,
            TokenKind::Ge => BinOp::Ge,
            TokenKind::AndAlso => BinOp::And,
            TokenKind::OrElse => BinOp::Or,
            TokenKind::PlusPlus => BinOp::Concat,
            TokenKind::ColonColon => BinOp::Cons,
            TokenKind::At => BinOp::Append,
            // Pipe operator
            TokenKind::Pipe => {
                let rhs = self.parse_expr_bp(r_bp)?;
                let span = lhs.span.merge(rhs.span);
                return Ok(Spanned::new(Expr::Pipe(Box::new(lhs), Box::new(rhs)), span));
            },
            // Type annotation
            TokenKind::Colon => {
                let ty = self.parse_type()?;
                let span = lhs.span.merge(ty.span);
                return Ok(Spanned::new(Expr::Annot(Box::new(lhs), Box::new(ty)), span));
            },
            other => {
                return Err(ParseError::UnexpectedToken {
                    expected: "operator".to_owned(),
                    found: other.name().to_owned(),
                    span: op_token.span,
                });
            },
        };
        let rhs = self.parse_expr_bp(r_bp)?;
        Ok(Self::binary(op, lhs, rhs))
    }
}

/// Whether an expression can be read back as a pattern (for do-notation binds).
pub open spec fn pattern_like(e: Expr) -> bool
    decreases e,
{
    match e {
        Expr::Var(_) | Expr::Con(_) | Expr::Lit(_) | Expr::Unit => true,
        Expr::Tuple(es) => all_pattern_like(es@),
        Expr::List(es) => all_pattern_like(es@),
        _ => false,
    }
}

pub open spec fn all_pattern_like(s: Seq<Spanned<Expr>>) -> bool
    decreases s,
{
    if s.len() == 0 { true } else { all_pattern_like(s.drop_last()) && pattern_like(s.last().value) }
}

fn copy_literal(l: &Literal) -> (r: Literal)
    ensures
        r == *l,
{
    match l {
        Literal::Int(n) => Literal::Int(*n),
        Literal::Float(f) => Literal::Float(f.clone()),
        Literal::String(s) => Literal::String(s.clone()),
        Literal::Char(c) => Literal::Char(*c),
        Literal::Bool(b) => Literal::Bool(*b),
    }
}

impl Parser {
    // ========== Pattern Parsing ==========

    fn parse_pattern_inner(&mut self) -> (r: Result<Spanned<Pattern>, ParseError>)
        requires
            old(self).wf(),
        ensures
            follows(*old(self), *final(self)),
            r is Ok ==> moved(*old(self), *final(self)),
            simple_pattern_at(old(self).toks(), old(self).at()) ==> (r matches Ok(p) && token_pattern(p.value, old(self).current()->0)
                && p.span == old(self).current_span() && final(self).at() == old(self).at() + 1),
        decreases old(self).remaining(), 14nat,
    {
        let lhs = self.parse_atomic_pattern()?;
        // Check for :: (cons)
        if self.eat(TokenKind::ColonColon) {
            let rhs = self.parse_pattern_inner()?;
            let span = lhs.span.merge(rhs.span);
            return Ok(Spanned::new(Pattern::Cons(Box::new(lhs), Box::new(rhs)), span));
        }
        // Check for | (or pattern)
        if self.eat(TokenKind::Bar) {
            let rhs = self.parse_pattern_inner()?;
            let span = lhs.span.merge(rhs.span);
            return Ok(Spanned::new(Pattern::Or(Box::new(lhs), Box::new(rhs)), span));
        }
        Ok(lhs)
    }

    fn parse_atomic_pattern(&mut self) -> (r: Result<Spanned<Pattern>, ParseError>)
        requires
            old(self).wf(),
        ensures
            follows(*old(self), *final(self)),
            r is Ok ==> moved(*old(self), *final(self)),
            match old(self).current() {
                Some(Tok::Underscore) => r matches Ok(p) && p.value == Pattern::Wildcard
                    && p.span == old(self).current_span() && final(self).at() == old(self).at() + 1,
                Some(Tok::Ident(name)) => r matches Ok(p) && p.value matches Pattern::Var(v) && v@ == name
                    && p.span == old(self).current_span() && final(self).at() == old(self).at() + 1,
                Some(Tok::Int(n)) => r matches Ok(p) && p.value == Pattern::Lit(Literal::Int(n))
                    && p.span == old(self).current_span() && final(self).at() == old(self).at() + 1,
                Some(k) => (!starts_atom(k) && k != Tok::Underscore) ==>
                    (r matches Err(e) && e@ == (ParseErr::InvalidPattern { span: old(self).current_span() })),
                None => r matches Err(e) && e@ == (ParseErr::UnexpectedEof { expected: "pattern"@ }),
            },
        decreases old(self).remaining(), 13nat,
    {
        match self.peek_owned() {
            // Wildcard
            Some(TokenKind::Underscore) => {
                let token = self.advance();
                Ok(Spanned::new(Pattern::Wildcard, token.span))
            },
            // Variable
            Some(TokenKind::Ident(name)) => {
                let token = self.advance();
                Ok(Spanned::new(Pattern::Var(name), token.span))
            },
            // Constructor (possibly with argument)
            Some(TokenKind::UpperIdent(name)) => {
                let token = self.advance();
                let name_span = token.span;
                // Check for constructor argument
                let has_arg = match self.peek_kind() {
                    Some(k) => can_start_atom(k),
                    None => false,
                };
                if has_arg {
                    let arg = self.parse_atomic_pattern()?;
                    let span = name_span.merge(arg.span);
                    return Ok(Spanned::new(Pattern::Con(name, Some(Box::new(arg))), span));
                }
                Ok(Spanned::new(Pattern::Con(name, None), name_span))
            },
            // Literal patterns
            Some(TokenKind::Int(n)) => {
                let token = self.advance();
                Ok(Spanned::new(Pattern::Lit(Literal::Int(n)), token.span))
            },
            Some(TokenKind::Float(f)) => {
                let token = self.advance();
                Ok(Spanned::new(Pattern::Lit(Literal::Float(f)), token.span))
            },
            Some(TokenKind::String(s)) => {
                let token = self.advance();
                Ok(Spanned::new(Pattern::Lit(Literal::String(s)), token.span))
            },
            Some(TokenKind::Char(c)) => {
                let token = self.advance();
                Ok(Spanned::new(Pattern::Lit(Literal::Char(c)), token.span))
            },
            Some(TokenKind::True) => {
                let token = self.advance();
                Ok(Spanned::new(Pattern::Lit(Literal::Bool(true)), token.span))
            },
            Some(TokenKind::False) => {
                let token = self.advance();
                Ok(Spanned::new(Pattern::Lit(Literal::Bool(false)), token.span))
            },
            // Parenthesized pattern or tuple
            Some(TokenKind::LParen) => self.parse_paren_pattern(),
            // List pattern
            Some(TokenKind::LBracket) => self.parse_list_pattern(),
            // Record pattern
            Some(TokenKind::LBrace) => self.parse_record_pattern(),
            Some(_) => {
                let span = self.tokens[self.pos].span;
                Err(ParseError::InvalidPattern { span })
            },
            None => Err(Self::eof_error("pattern")),
        }
    }

    /// Comma-separated patterns after the ones given.
    fn parse_more_patterns(&mut self, elements: Vec<Spanned<Pattern>>) -> (r: Result<Vec<Spanned<Pattern>>, ParseError>)
        requires
            old(self).wf(),
        ensures
            follows(*old(self), *final(self)),
            old(self).current() != Some(Tok::Comma) ==> (r matches Ok(v) && v@ == elements@
                && final(self).at() == old(self).at()),
            r matches Ok(v) ==> {
                &&& v@.len() >= elements@.len()
                &&& v@.subrange(0, elements@.len() as int) == elements@
                &&& final(self).current() != Some(Tok::Comma)
                &&& (v@.len() > elements@.len() <==> old(self).current() == Some(Tok::Comma))
            },
        decreases old(self).remaining(), 16nat,
    {
        let ghost n = elements@.len();
        let ghost orig = elements@;
        let mut elements = elements;
        while self.eat(TokenKind::Comma)
            invariant
                follows(*old(self), *self),
                elements@.len() >= n,
                elements@.subrange(0, n as int) == orig,
                elements@.len() == n ==> self.at() == old(self).at(),
                elements@.len() > n ==> self.at() > old(self).at() && old(self).current() == Some(Tok::Comma),
            decreases self.remaining(),
        {
            let x = self.parse_pattern()?;
            elements.push(x);
            proof { assert(elements@.subrange(0, n as int) =~= orig); }
        }
        Ok(elements)
    }

    fn parse_paren_pattern(&mut self) -> (r: Result<Spanned<Pattern>, ParseError>)
        requires
            old(self).wf(),
        ensures
            follows(*old(self), *final(self)),
            r is Ok ==> moved(*old(self), *final(self)),
            old(self).current() != Some(Tok::LParen) ==> (r matches Err(e)
                && e@ == expected_error(old(self).toks(), old(self).at(), kind_name(Tok::LParen))),
            (old(self).current() == Some(Tok::LParen) && tok_at(old(self).toks(), old(self).at() + 1) == Some(Tok::RParen))
                ==> (r matches Ok(x) && (x.value matches Pattern::Tuple(v) && v@.len() == 0)
                    && x.span == unit_span_of(old(self).current_span()) && final(self).at() == old(self).at() + 2),
            r matches Ok(x) ==> (old(self).current() == Some(Tok::LParen)
                && tok_at(final(self).toks(), final(self).at() - 1) == Some(Tok::RParen)),
        decreases old(self).remaining(), 12nat,
    {
        let start = self.expect(TokenKind::LParen)?.span;
        // Unit pattern: ()
        if self.eat(TokenKind::RParen) {
            return Ok(Spanned::new(Pattern::Tuple(Vec::new()), unit_span(start)));
        }
        let first = self.parse_pattern()?;
        // Tuple pattern: (p1, p2, ...)
        if self.eat(TokenKind::Comma) {
            let second = self.parse_pattern()?;
            let elements = self.parse_more_patterns(vec![first, second])?;
            let end = self.expect(TokenKind::RParen)?.span;
            return Ok(Spanned::new(Pattern::Tuple(elements), start.merge(end)));
        }
        // Parenthesized pattern
        let end = self.expect(TokenKind::RParen)?.span;
        Ok(Spanned::new(first.value, start.merge(end)))
    }

    fn parse_list_pattern(&mut self) -> (r: Result<Spanned<Pattern>, ParseError>)
        requires
            old(self).wf(),
        ensures
            follows(*old(self), *final(self)),
            r is Ok ==> moved(*old(self), *final(self)),
            old(self).current() != Some(Tok::LBracket) ==> (r matches Err(e)
                && e@ == expected_error(old(self).toks(), old(self).at(), kind_name(Tok::LBracket))),
            (old(self).current() == Some(Tok::LBracket) && tok_at(old(self).toks(), old(self).at() + 1) == Some(Tok::RBracket))
                ==> (r matches Ok(x) && (x.value matches Pattern::List(v) && v@.len() == 0)
                    && x.span == unit_span_of(old(self).current_span()) && final(self).at() == old(self).at() + 2),
            r matches Ok(x) ==> (old(self).current() == Some(Tok::LBracket)
                && tok_at(final(self).toks(), final(self).at() - 1) == Some(Tok::RBracket) && x.value is List),
        decreases old(self).remaining(), 12nat,
    {
        let start = self.expect(TokenKind::LBracket)?.span;
        // Empty list: []
        if self.eat(TokenKind::RBracket) {
            return Ok(Spanned::new(Pattern::List(Vec::new()), unit_span(start)));
        }
        let first = self.parse_pattern()?;
        let elements = self.parse_more_patterns(vec![first])?;
        let end = self.expect(TokenKind::RBracket)?.span;
        Ok(Spanned::new(Pattern::List(elements), start.merge(end)))
    }

    fn parse_record_pattern(&mut self) -> (r: Result<Spanned<Pattern>, ParseError>)
        requires
            old(self).wf(),
        ensures
            follows(*old(self), *final(self)),
            r is Ok ==> moved(*old(self), *final(self)),
            old(self).current() != Some(Tok::LBrace) ==> (r matches Err(e)
                && e@ == expected_error(old(self).toks(), old(self).at(), kind_name(Tok::LBrace))),
            (old(self).current() == Some(Tok::LBrace) && tok_at(old(self).toks(), old(self).at() + 1) == Some(Tok::RBrace))
                ==> (r matches Ok(x) && (x.value matches Pattern::Record(v) && v@.len() == 0)
                    && x.span == unit_span_of(old(self).current_span()) && final(self).at() == old(self).at() + 2),
            r matches Ok(x) ==> (old(self).current() == Some(Tok::LBrace)
                && tok_at(final(self).toks(), final(self).at() - 1) == Some(Tok::RBrace) && x.value is Record),
        decreases old(self).remaining(), 12nat,
    {
        let start = self.expect(TokenKind::LBrace)?.span;
        // Empty record: {}
        if self.eat(TokenKind::RBrace) {
            return Ok(Spanned::new(Pattern::Record(Vec::new()), unit_span(start)));
        }
        let mut fields: Vec<(Spanned<String>, Spanned<Pattern>)> = Vec::new();
        fields.push(self.parse_record_pattern_field()?);
        while self.eat(TokenKind::Comma)
            invariant
                moved(*old(self), *self),
                old(self).current() == Some(Tok::LBrace),
                tok_at(old(self).toks(), old(self).at() + 1) != Some(Tok::RBrace),
            decreases self.remaining(),
        {
            fields.push(self.parse_record_pattern_field()?);
        }
        let end = self.expect(TokenKind::RBrace)?.span;
        Ok(Spanned::new(Pattern::Record(fields), start.merge(end)))
    }

    fn parse_record_pattern_field(&mut self) -> (r: Result<(Spanned<String>, Spanned<Pattern>), ParseError>)
        requires
            old(self).wf(),
        ensures
            follows(*old(self), *final(self)),
            r is Ok ==> moved(*old(self), *final(self)),
            !(old(self).current() matches Some(Tok::Ident(_))) ==> (r matches Err(e) && e@ == ident_error(old(self).toks(), old(self).at())),
            r matches Ok(f) ==> (old(self).current() == Some(Tok::Ident(f.0.value@)) && f.0.span == old(self).current_span()
                && (tok_at(old(self).toks(), old(self).at() + 1) != Some(Tok::Eq) ==> (f.1.value matches Pattern::Var(v) && v@ == f.0.value@
                    && f.1.span == f.0.span && final(self).at() == old(self).at() + 1))),
            (old(self).current() matches Some(Tok::Ident(_)) && tok_at(old(self).toks(), old(self).at() + 1) != Some(Tok::Eq)) ==> r is Ok,
        decreases old(self).remaining(), 12nat,
    {
        let name = self.expect_ident()?;
        // Punning: { x } means { x = x }
        if !self.eat(TokenKind::Eq) {
            let pattern = Spanned::new(Pattern::Var(name.value.clone()), name.span);
            return Ok((name, pattern));
        }
        let pattern = self.parse_pattern()?;
        Ok((name, pattern))
    }

    /// Convert an expression to a pattern (for do-notation bind)
    fn expr_to_pattern(&self, expr: &Spanned<Expr>) -> (r: Result<Spanned<Pattern>, ParseError>)
        ensures
            r is Ok <==> pattern_like(expr.value),
            match r {
                Ok(p) => p.span == expr.span,
                Err(e) => e@ is InvalidPattern,
            },
        decreases expr.value,
    {
        let pattern = match &expr.value {
            Expr::Var(name) => Pattern::Var(name.clone()),
            Expr::Con(name) => Pattern::Con(name.clone(), None),
            Expr::Lit(lit) => Pattern::Lit(copy_literal(lit)),
            Expr::Unit => Pattern::Tuple(Vec::new()),
            Expr::Tuple(exprs) => Pattern::Tuple(self.exprs_to_patterns(exprs)?),
            Expr::List(exprs) => Pattern::List(self.exprs_to_patterns(exprs)?),
            _ => return Err(ParseError::InvalidPattern { span: expr.span }),
        };
        Ok(Spanned::new(pattern, expr.span))
    }

    /// The elements of a tuple or list expression as patterns.
    fn exprs_to_patterns(&self, exprs: &Vec<Spanned<Expr>>) -> (r: Result<Vec<Spanned<Pattern>>, ParseError>)
        ensures
            r is Ok <==> all_pattern_like(exprs@),
            r matches Err(e) ==> e@ is InvalidPattern,
        decreases exprs@,
    {
        let mut patterns: Vec<Spanned<Pattern>> = Vec::new();
        let mut i: usize = 0;
        while i < exprs.len()
            invariant
                i <= exprs@.len(),
                all_pattern_like(exprs@.take(i as int)),
            decreases exprs.len() - i,
        {
            proof {
                assert(exprs@.take(i + 1).drop_last() =~= exprs@.take(i as int));
                assert(decreases_to!(exprs@ => exprs@[i as int]));
                assert(decreases_to!(exprs@[i as int] => exprs@[i as int].value));
            }
            match self.expr_to_pattern(&exprs[i]) {
                Ok(p) => patterns.push(p),
                Err(e) => {
                    proof { lemma_all_pattern_like(exprs@, i as int); }
                    return Err(e);
                },
            }
            i += 1;
        }
        assert(exprs@.take(i as int) =~= exprs@);
        Ok(patterns)
    }
}

/// All elements are pattern-like exactly when each one is.
proof fn lemma_all_pattern_like(s: Seq<Spanned<Expr>>, i: int)
    requires
        0 <= i < s.len(),
        !pattern_like(s[i].value),
    ensures
        !all_pattern_like(s),
    decreases s.len(),
{
    if i < s.len() - 1 {
        lemma_all_pattern_like(s.drop_last(), i);
    }
}

impl Parser {
    // ========== Type Expression Parsing ==========

    fn parse_type_expr(&mut self) -> (r: Result<Spanned<TypeExpr>, ParseError>)
        requires
            old(self).wf(),
        ensures
            follows(*old(self), *final(self)),
            r is Ok ==> moved(*old(self), *final(self)),
            !starts_type(old(self).current()) ==> (r matches Err(e) && e@ == expected_error(old(self).toks(), old(self).at(), "type"@)),
            (is_type_name(old(self).current()) && !continues_type(tok_at(old(self).toks(), old(self).at() + 1))) ==> (r matches Ok(t)
                && names_type(t.value, old(self).current()->0) && t.span == old(self).current_span()
                && final(self).at() == old(self).at() + 1),
        decreases old(self).remaining(), 7nat,
    {
        let lhs = self.parse_type_app()?;
        // Function type: ty1 -> ty2
        if self.eat(TokenKind::Arrow) {
            let rhs = self.parse_type_expr()?;
            let span = lhs.span.merge(rhs.span);
            return Ok(Spanned::new(TypeExpr::Arrow(Box::new(lhs), Box::new(rhs)), span));
        }
        // Tuple type: ty1 * ty2 * ...
        if self.eat(TokenKind::Star) {
            let first_span = lhs.span;
            let second = self.parse_type_app()?;
            let mut last_span = second.span;
            let mut elements = vec![lhs, second];
            while self.eat(TokenKind::Star)
                invariant
                    moved(*old(self), *self),
                    starts_type(old(self).current()),
                    !(is_type_name(old(self).current()) && !continues_type(tok_at(old(self).toks(), old(self).at() + 1))),
                decreases self.remaining(),
            {
                let next = self.parse_type_app()?;
                last_span = next.span;
                elements.push(next);
            }
            let span = first_span.merge(last_span);
            return Ok(Spanned::new(TypeExpr::Tuple(elements), span));
        }
        Ok(lhs)
    }

    fn parse_type_app(&mut self) -> (r: Result<Spanned<TypeExpr>, ParseError>)
        requires
            old(self).wf(),
        ensures
            follows(*old(self), *final(self)),
            r is Ok ==> moved(*old(self), *final(self)),
            !starts_type(old(self).current()) ==> (r matches Err(e) && e@ == expected_error(old(self).toks(), old(self).at(), "type"@)),
            is_type_name(old(self).current()) ==> match tok_at(old(self).toks(), old(self).at() + 1) {
                Some(Tok::Ident(c)) => r matches Ok(t) && final(self).at() == old(self).at() + 2
                    && (t.value matches TypeExpr::App(f, args) && f.value matches TypeExpr::Con(cv) && cv@ == c
                        && args@.len() == 1 && names_type(args@[0].value, old(self).current()->0)),
                _ => r matches Ok(t) && names_type(t.value, old(self).current()->0)
                    && t.span == old(self).current_span() && final(self).at() == old(self).at() + 1,
            },
        decreases old(self).remaining(), 6nat,
    {
        let base = self.parse_atomic_type()?;
        // Type application: 'a list, int option, etc.
        let applied = match self.peek_kind() {
            Some(TokenKind::Ident(_)) => true,
            _ => false,
        };
        if applied {
            let con = self.expect_ident()?;
            let span = base.span.merge(con.span);
            return Ok(Spanned::new(
                TypeExpr::App(Box::new(Spanned::new(TypeExpr::Con(con.value), con.span)), vec![base]),
                span,
            ));
        }
        Ok(base)
    }

    fn parse_atomic_type(&mut self) -> (r: Result<Spanned<TypeExpr>, ParseError>)
        requires
            old(self).wf(),
        ensures
            follows(*old(self), *final(self)),
            r is Ok ==> moved(*old(self), *final(self)),
            match old(self).current() {
                Some(Tok::TyVar(name)) => r matches Ok(t) && t.value matches TypeExpr::Var(v) && v@ == name
                    && t.span == old(self).current_span() && final(self).at() == old(self).at() + 1,
                Some(Tok::Ident(name)) => r matches Ok(t) && t.value matches TypeExpr::Con(v) && v@ == name
                    && t.span == old(self).current_span() && final(self).at() == old(self).at() + 1,
                Some(Tok::LParen) | Some(Tok::LBrace) => true,
                Some(k) => r matches Err(e) && e@ == (ParseErr::UnexpectedToken {
                    expected: "type"@,
                    found: kind_name(k),
                    span: old(self).current_span(),
                }),
                None => r matches Err(e) && e@ == (ParseErr::UnexpectedEof { expected: "type"@ }),
            },
        decreases old(self).remaining(), 5nat,
    {
        match self.peek_owned() {
            // Type variable
            Some(TokenKind::TyVar(name)) => {
                let token = self.advance();
                Ok(Spanned::new(TypeExpr::Var(name), token.span))
            },
            // Type constructor
            Some(TokenKind::Ident(name)) => {
                let token = self.advance();
                Ok(Spanned::new(TypeExpr::Con(name), token.span))
            },
            // Parenthesized type or tuple type args
            Some(TokenKind::LParen) => self.parse_paren_type(),
            // Record type
            Some(TokenKind::LBrace) => self.parse_record_type(),
            Some(_) => Err(self.unexpected_here("type")),
            None => Err(Self::eof_error("type")),
        }
    }

    fn parse_paren_type(&mut self) -> (r: Result<Spanned<TypeExpr>, ParseError>)
        requires
            old(self).wf(),
        ensures
            follows(*old(self), *final(self)),
            r is Ok ==> moved(*old(self), *final(self)),
            old(self).current() != Some(Tok::LParen) ==> (r matches Err(e)
                && e@ == expected_error(old(self).toks(), old(self).at(), kind_name(Tok::LParen))),
            (old(self).current() == Some(Tok::LParen) && tok_at(old(self).toks(), old(self).at() + 1) == Some(Tok::RParen))
                ==> (r matches Ok(x) && (x.value matches TypeExpr::Con(c) && c@ == "unit"@)
                    && x.span == unit_span_of(old(self).current_span()) && final(self).at() == old(self).at() + 2),
            r matches Ok(x) ==> old(self).current() == Some(Tok::LParen),
        decreases old(self).remaining(), 4nat,
    {
        let start = self.expect(TokenKind::LParen)?.span;
        // Unit type: ()
        if self.eat(TokenKind::RParen) {
            return Ok(Spanned::new(TypeExpr::Con("unit".to_owned()), unit_span(start)));
        }
        let first = self.parse_type_expr()?;
        // Multiple type args: (ty1, ty2) con
        if self.eat(TokenKind::Comma) {
            let second = self.parse_type_expr()?;
            let mut args = vec![first, second];
            while self.eat(TokenKind::Comma)
                invariant
                    moved(*old(self), *self),
                    old(self).current() == Some(Tok::LParen),
                    tok_at(old(self).toks(), old(self).at() + 1) != Some(Tok::RParen),
                decreases self.remaining(),
            {
                args.push(self.parse_type_expr()?);
            }
            self.expect(TokenKind::RParen)?;
            // Expect constructor name after multi-arg type
            let con = self.expect_ident()?;
            let span = start.merge(con.span);
            return Ok(Spanned::new(
                TypeExpr::App(Box::new(Spanned::new(TypeExpr::Con(con.value), con.span)), args),
                span,
            ));
        }
        // Parenthesized type
        let end = self.expect(TokenKind::RParen)?.span;
        Ok(Spanned::new(TypeExpr::Paren(Box::new(first)), start.merge(end)))
    }

    fn parse_record_type(&mut self) -> (r: Result<Spanned<TypeExpr>, ParseError>)
        requires
            old(self).wf(),
        ensures
            follows(*old(self), *final(self)),
            r is Ok ==> moved(*old(self), *final(self)),
            old(self).current() != Some(Tok::LBrace) ==> (r matches Err(e)
                && e@ == expected_error(old(self).toks(), old(self).at(), kind_name(Tok::LBrace))),
            (old(self).current() == Some(Tok::LBrace) && tok_at(old(self).toks(), old(self).at() + 1) == Some(Tok::RBrace))
                ==> (r matches Ok(x) && (x.value matches TypeExpr::Record(v) && v@.len() == 0)
                    && x.span == unit_span_of(old(self).current_span()) && final(self).at() == old(self).at() + 2),
            r matches Ok(x) ==> (old(self).current() == Some(Tok::LBrace)
                && tok_at(final(self).toks(), final(self).at() - 1) == Some(Tok::RBrace) && x.value is Record),
        decreases old(self).remaining(), 4nat,
    {
        let start = self.expect(TokenKind::LBrace)?.span;
        // Empty record type: {}
        if self.eat(TokenKind::RBrace) {
            return Ok(Spanned::new(TypeExpr::Record(Vec::new()), unit_span(start)));
        }
        let mut fields: Vec<(Spanned<String>, Spanned<TypeExpr>)> = Vec::new();
        fields.push(self.parse_record_type_field()?);
        while self.eat(TokenKind::Comma)
            invariant
                moved(*old(self), *self),
                old(self).current() == Some(Tok::LBrace),
                tok_at(old(self).toks(), old(self).at() + 1) != Some(Tok::RBrace),
            decreases self.remaining(),
        {
            fields.push(self.parse_record_type_field()?);
        }
        let end = self.expect(TokenKind::RBrace)?.span;
        Ok(Spanned::new(TypeExpr::Record(fields), start.merge(end)))
    }

    fn parse_record_type_field(&mut self) -> (r: Result<(Spanned<String>, Spanned<TypeExpr>), ParseError>)
        requires
            old(self).wf(),
        ensures
            follows(*old(self), *final(self)),
            r is Ok ==> moved(*old(self), *final(self)),
            (old(self).current() matches Some(Tok::Ident(_)) && tok_at(old(self).toks(), old(self).at() + 1) == Some(Tok::Colon)
                && simple_type_at(old(self).toks(), old(self).at() + 2)) ==> (r matches Ok(f) && final(self).at() == old(self).at() + 3
                && names_type(f.1.value, tok_at(old(self).toks(), old(self).at() + 2)->0)),
            !(old(self).current() matches Some(Tok::Ident(_))) ==> (r matches Err(e) && e@ == ident_error(old(self).toks(), old(self).at())),
            r matches Ok(f) ==> (old(self).current() == Some(Tok::Ident(f.0.value@)) && f.0.span == old(self).current_span()
                && tok_at(old(self).toks(), old(self).at() + 1) == Some(Tok::Colon)),
        decreases old(self).remaining(), 4nat,
    {
        let name = self.expect_ident()?;
        self.expect(TokenKind::Colon)?;
        let ty = self.parse_type_expr()?;
        Ok((name, ty))
    }
}

} // verus!
