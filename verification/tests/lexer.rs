use neap::syntax::lexer::{Lexer, LexerError};
use neap::syntax::span::Span;
use neap::syntax::token::TokenKind;

/// The value of a float token, read from the digits it holds.
fn float_value(kind: &TokenKind) -> f64 {
    match kind {
        TokenKind::Float(text) => text.parse::<f64>().unwrap(),
        other => panic!("expected a float token, got {:?}", other),
    }
}
/// Helper to tokenize and collect just the token kinds.
fn token_kinds(source: &str) -> Result<Vec<TokenKind>, LexerError> {
    let tokens = Lexer::tokenize(source)?;
    Ok(tokens.into_iter().map(|t| t.kind).collect())
}

// ========== Basic Tokens ==========

#[test]
fn empty_input() {
    let tokens = token_kinds("").unwrap();
    assert_eq!(tokens, vec![TokenKind::Eof]);
}

#[test]
fn whitespace_only() {
    let tokens = token_kinds("   \n\t  ").unwrap();
    assert_eq!(tokens, vec![TokenKind::Eof]);
}

// ========== Keywords ==========

#[test]
fn keywords() {
    let tokens = token_kinds("let in fn fun rec and match with case of").unwrap();
    assert_eq!(
        tokens,
        vec![
            TokenKind::Let,
            TokenKind::In,
            TokenKind::Fn,
            TokenKind::Fun,
            TokenKind::Rec,
            TokenKind::And,
            TokenKind::Match,
            TokenKind::With,
            TokenKind::Case,
            TokenKind::Of,
            TokenKind::Eof,
        ]
    );
}

#[test]
fn more_keywords() {
    let tokens = token_kinds("datatype type if then else do end true false").unwrap();
    assert_eq!(
        tokens,
        vec![
            TokenKind::Datatype,
            TokenKind::Type,
            TokenKind::If,
            TokenKind::Then,
            TokenKind::Else,
            TokenKind::Do,
            TokenKind::End,
            TokenKind::True,
            TokenKind::False,
            TokenKind::Eof,
        ]
    );
}

#[test]
fn keyword_operators() {
    let tokens = token_kinds("andalso orelse not").unwrap();
    assert_eq!(
        tokens,
        vec![
            TokenKind::AndAlso,
            TokenKind::OrElse,
            TokenKind::Bang,
            TokenKind::Eof,
        ]
    );
}

#[test]
fn type_class_keywords() {
    let tokens = token_kinds("trait impl for").unwrap();
    assert_eq!(
        tokens,
        vec![
            TokenKind::Trait,
            TokenKind::Impl,
            TokenKind::For,
            TokenKind::Eof,
        ]
    );
}

// ========== Identifiers ==========

#[test]
fn identifiers() {
    let tokens = token_kinds("foo bar_baz x123 _private").unwrap();
    assert_eq!(
        tokens,
        vec![
            TokenKind::Ident("foo".to_string()),
            TokenKind::Ident("bar_baz".to_string()),
            TokenKind::Ident("x123".to_string()),
            TokenKind::Ident("_private".to_string()),
            TokenKind::Eof,
        ]
    );
}

#[test]
fn upper_identifiers() {
    let tokens = token_kinds("Some None True' MyType").unwrap();
    assert_eq!(
        tokens,
        vec![
            TokenKind::UpperIdent("Some".to_string()),
            TokenKind::UpperIdent("None".to_string()),
            TokenKind::UpperIdent("True'".to_string()),
            TokenKind::UpperIdent("MyType".to_string()),
            TokenKind::Eof,
        ]
    );
}

#[test]
fn type_variables() {
    let tokens = token_kinds("'a 'key 'T").unwrap();
    assert_eq!(
        tokens,
        vec![
            TokenKind::TyVar("a".to_string()),
            TokenKind::TyVar("key".to_string()),
            TokenKind::TyVar("T".to_string()),
            TokenKind::Eof,
        ]
    );
}

// ========== Numbers ==========

#[test]
fn integers() {
    let tokens = token_kinds("0 42 1_000_000").unwrap();
    assert_eq!(
        tokens,
        vec![
            TokenKind::Int(0),
            TokenKind::Int(42),
            TokenKind::Int(1_000_000),
            TokenKind::Eof,
        ]
    );
}

#[test]
fn hex_numbers() {
    let tokens = token_kinds("0xFF 0x1A2B 0xdead_beef").unwrap();
    assert_eq!(
        tokens,
        vec![
            TokenKind::Int(0xFF),
            TokenKind::Int(0x1A2B),
            TokenKind::Int(0xDEAD_BEEF),
            TokenKind::Eof,
        ]
    );
}

#[test]
fn binary_numbers() {
    let tokens = token_kinds("0b1010 0B1111_0000").unwrap();
    assert_eq!(
        tokens,
        vec![
            TokenKind::Int(0b1010),
            TokenKind::Int(0b1111_0000),
            TokenKind::Eof,
        ]
    );
}

#[test]
fn octal_numbers() {
    let tokens = token_kinds("0o755 0O644").unwrap();
    assert_eq!(
        tokens,
        vec![
            TokenKind::Int(0o755),
            TokenKind::Int(0o644),
            TokenKind::Eof,
        ]
    );
}

#[test]
fn floats() {
    let tokens = token_kinds("3.14 0.5 1.0").unwrap();
    assert_eq!(tokens.len(), 4);
    assert_eq!(float_value(&tokens[0]), 3.14);
    assert_eq!(float_value(&tokens[1]), 0.5);
    assert_eq!(float_value(&tokens[2]), 1.0);
    assert_eq!(tokens[3], TokenKind::Eof);
}

#[test]
fn float_with_exponent() {
    let tokens = token_kinds("1e10 2.5e-3 1E+5").unwrap();
    assert_eq!(tokens.len(), 4);
    assert_eq!(float_value(&tokens[0]), 1e10);
    assert_eq!(float_value(&tokens[1]), 2.5e-3);
    assert_eq!(float_value(&tokens[2]), 1e5);
    assert_eq!(tokens[3], TokenKind::Eof);
}

#[test]
fn strings() {
    let tokens = token_kinds(r#""hello" "world""#).unwrap();
    assert_eq!(
        tokens,
        vec![
            TokenKind::String("hello".to_string()),
            TokenKind::String("world".to_string()),
            TokenKind::Eof,
        ]
    );
}

#[test]
fn string_escapes() {
    let tokens = token_kinds(r#""hello\nworld" "tab\there" "quote\"here""#).unwrap();
    assert_eq!(
        tokens,
        vec![
            TokenKind::String("hello\nworld".to_string()),
            TokenKind::String("tab\there".to_string()),
            TokenKind::String("quote\"here".to_string()),
            TokenKind::Eof,
        ]
    );
}

#[test]
fn empty_string() {
    let tokens = token_kinds(r#""""#).unwrap();
    assert_eq!(
        tokens,
        vec![TokenKind::String("".to_string()), TokenKind::Eof,]
    );
}

// ========== Characters ==========

#[test]
fn char_literals() {
    let tokens = token_kinds(r#"#"a" #"Z" #"0""#).unwrap();
    assert_eq!(
        tokens,
        vec![
            TokenKind::Char('a'),
            TokenKind::Char('Z'),
            TokenKind::Char('0'),
            TokenKind::Eof,
        ]
    );
}

#[test]
fn char_escapes() {
    let tokens = token_kinds(r#"#"\n" #"\t" #"\\""#).unwrap();
    assert_eq!(
        tokens,
        vec![
            TokenKind::Char('\n'),
            TokenKind::Char('\t'),
            TokenKind::Char('\\'),
            TokenKind::Eof,
        ]
    );
}

// ========== Operators ==========

#[test]
fn arithmetic_operators() {
    let tokens = token_kinds("+ - * / %").unwrap();
    assert_eq!(
        tokens,
        vec![
            TokenKind::Plus,
            TokenKind::Minus,
            TokenKind::Star,
            TokenKind::Slash,
            TokenKind::Percent,
            TokenKind::Eof,
        ]
    );
}

#[test]
fn comparison_operators() {
    let tokens = token_kinds("== != < > <= >=").unwrap();
    assert_eq!(
        tokens,
        vec![
            TokenKind::EqEq,
            TokenKind::Neq,
            TokenKind::Lt,
            TokenKind::Gt,
            TokenKind::Le,
            TokenKind::Ge,
            TokenKind::Eof,
        ]
    );
}

#[test]
fn assignment_vs_equality() {
    let tokens = token_kinds("= ==").unwrap();
    assert_eq!(
        tokens,
        vec![TokenKind::Eq, TokenKind::EqEq, TokenKind::Eof,]
    );
}

#[test]
fn logical_operators() {
    let tokens = token_kinds("&& || !").unwrap();
    assert_eq!(
        tokens,
        vec![
            TokenKind::AndAlso,
            TokenKind::OrElse,
            TokenKind::Bang,
            TokenKind::Eof,
        ]
    );
}

#[test]
fn list_operators() {
    let tokens = token_kinds(":: @").unwrap();
    assert_eq!(
        tokens,
        vec![TokenKind::ColonColon, TokenKind::At, TokenKind::Eof,]
    );
}

#[test]
fn concat_operator() {
    let tokens = token_kinds("++ \"a\" ++ \"b\"").unwrap();
    assert_eq!(
        tokens,
        vec![
            TokenKind::PlusPlus,
            TokenKind::String("a".to_string()),
            TokenKind::PlusPlus,
            TokenKind::String("b".to_string()),
            TokenKind::Eof,
        ]
    );
}

#[test]
fn shell_operators() {
    let tokens = token_kinds("|> > >> $").unwrap();
    assert_eq!(
        tokens,
        vec![
            TokenKind::Pipe,
            TokenKind::Gt,
            TokenKind::GtGt,
            TokenKind::Dollar,
            TokenKind::Eof,
        ]
    );
}

#[test]
fn arrows() {
    let tokens = token_kinds("-> => <-").unwrap();
    assert_eq!(
        tokens,
        vec![
            TokenKind::Arrow,
            TokenKind::FatArrow,
            TokenKind::LeftArrow,
            TokenKind::Eof,
        ]
    );
}

// ========== Delimiters ==========

#[test]
fn delimiters() {
    let tokens = token_kinds("( ) [ ] { } , ; : | _ . ...").unwrap();
    assert_eq!(
        tokens,
        vec![
            TokenKind::LParen,
            TokenKind::RParen,
            TokenKind::LBracket,
            TokenKind::RBracket,
            TokenKind::LBrace,
            TokenKind::RBrace,
            TokenKind::Comma,
            TokenKind::Semi,
            TokenKind::Colon,
            TokenKind::Bar,
            TokenKind::Underscore,
            TokenKind::Dot,
            TokenKind::Ellipsis,
            TokenKind::Eof,
        ]
    );
}

// ========== Comments ==========

#[test]
fn single_comment() {
    let tokens = token_kinds("let (* comment *) x").unwrap();
    assert_eq!(
        tokens,
        vec![
            TokenKind::Let,
            TokenKind::Ident("x".to_string()),
            TokenKind::Eof,
        ]
    );
}

#[test]
fn nested_comments() {
    let tokens = token_kinds("let (* outer (* inner *) outer *) x").unwrap();
    assert_eq!(
        tokens,
        vec![
            TokenKind::Let,
            TokenKind::Ident("x".to_string()),
            TokenKind::Eof,
        ]
    );
}

// ========== Complex Examples ==========

#[test]
fn let_binding() {
    let tokens = token_kinds("let x = 42 in x + 1").unwrap();
    assert_eq!(
        tokens,
        vec![
            TokenKind::Let,
            TokenKind::Ident("x".to_string()),
            TokenKind::Eq,
            TokenKind::Int(42),
            TokenKind::In,
            TokenKind::Ident("x".to_string()),
            TokenKind::Plus,
            TokenKind::Int(1),
            TokenKind::Eof,
        ]
    );
}

#[test]
fn function_definition() {
    let tokens = token_kinds("fn x => x * 2").unwrap();
    assert_eq!(
        tokens,
        vec![
            TokenKind::Fn,
            TokenKind::Ident("x".to_string()),
            TokenKind::FatArrow,
            TokenKind::Ident("x".to_string()),
            TokenKind::Star,
            TokenKind::Int(2),
            TokenKind::Eof,
        ]
    );
}

#[test]
fn pattern_match() {
    let tokens = token_kinds("match x with | Some y -> y | None -> 0").unwrap();
    assert_eq!(
        tokens,
        vec![
            TokenKind::Match,
            TokenKind::Ident("x".to_string()),
            TokenKind::With,
            TokenKind::Bar,
            TokenKind::UpperIdent("Some".to_string()),
            TokenKind::Ident("y".to_string()),
            TokenKind::Arrow,
            TokenKind::Ident("y".to_string()),
            TokenKind::Bar,
            TokenKind::UpperIdent("None".to_string()),
            TokenKind::Arrow,
            TokenKind::Int(0),
            TokenKind::Eof,
        ]
    );
}

#[test]
fn shell_pipeline() {
    let tokens = token_kinds(r#"cat "file.txt" |> grep "pattern""#).unwrap();
    assert_eq!(
        tokens,
        vec![
            TokenKind::Ident("cat".to_string()),
            TokenKind::String("file.txt".to_string()),
            TokenKind::Pipe,
            TokenKind::Ident("grep".to_string()),
            TokenKind::String("pattern".to_string()),
            TokenKind::Eof,
        ]
    );
}

#[test]
fn type_annotation() {
    let tokens = token_kinds("let x: int -> int = fn y => y").unwrap();
    assert_eq!(
        tokens,
        vec![
            TokenKind::Let,
            TokenKind::Ident("x".to_string()),
            TokenKind::Colon,
            TokenKind::Ident("int".to_string()),
            TokenKind::Arrow,
            TokenKind::Ident("int".to_string()),
            TokenKind::Eq,
            TokenKind::Fn,
            TokenKind::Ident("y".to_string()),
            TokenKind::FatArrow,
            TokenKind::Ident("y".to_string()),
            TokenKind::Eof,
        ]
    );
}

#[test]
fn datatype_definition() {
    let tokens = token_kinds("datatype 'a option = None | Some of 'a").unwrap();
    assert_eq!(
        tokens,
        vec![
            TokenKind::Datatype,
            TokenKind::TyVar("a".to_string()),
            TokenKind::Ident("option".to_string()),
            TokenKind::Eq,
            TokenKind::UpperIdent("None".to_string()),
            TokenKind::Bar,
            TokenKind::UpperIdent("Some".to_string()),
            TokenKind::Of,
            TokenKind::TyVar("a".to_string()),
            TokenKind::Eof,
        ]
    );
}

// ========== Error Cases ==========

#[test]
fn unterminated_string() {
    let result = token_kinds(r#""hello"#);
    assert!(matches!(
        result,
        Err(LexerError::UnterminatedString { .. })
    ));
}

#[test]
fn unterminated_comment() {
    let result = token_kinds("(* comment");
    assert!(matches!(
        result,
        Err(LexerError::UnterminatedComment { .. })
    ));
}

#[test]
fn invalid_escape() {
    let result = token_kinds(r#""\q""#);
    assert!(matches!(result, Err(LexerError::InvalidEscape { .. })));
}

#[test]
fn empty_char_literal() {
    let result = token_kinds(r#"#"""#);
    assert!(matches!(result, Err(LexerError::EmptyCharLiteral { .. })));
}

#[test]
fn multi_char_literal() {
    let result = token_kinds(r#"#"ab""#);
    assert!(matches!(result, Err(LexerError::MultiCharLiteral { .. })));
}

#[test]
fn invalid_hex() {
    let result = token_kinds("0x");
    assert!(matches!(result, Err(LexerError::InvalidNumber { .. })));
}

#[test]
fn unexpected_char() {
    let result = token_kinds("let x = ~5");
    assert!(matches!(result, Err(LexerError::UnexpectedChar { .. })));
}

// ========== Span Tests ==========

#[test]
fn token_spans() {
    let tokens = Lexer::tokenize("let x = 42").unwrap();

    assert_eq!(tokens[0].span, Span::new(0, 3)); // "let"
    assert_eq!(tokens[1].span, Span::new(4, 5)); // "x"
    assert_eq!(tokens[2].span, Span::new(6, 7)); // "="
    assert_eq!(tokens[3].span, Span::new(8, 10)); // "42"
}

#[test]
fn multiline_spans() {
    let source = "let\n  x\n  =\n  42";
    let tokens = Lexer::tokenize(source).unwrap();

    assert_eq!(tokens[0].span, Span::new(0, 3)); // "let"
    assert_eq!(tokens[1].span, Span::new(6, 7)); // "x"
    assert_eq!(tokens[2].span, Span::new(10, 11)); // "="
    assert_eq!(tokens[3].span, Span::new(14, 16)); // "42"
}

// ----- further cases -----

#[test]
fn lexer_error_positions_and_messages() {
    let e = Lexer::tokenize("let x = ~5").unwrap_err();
    assert_eq!(e, LexerError::UnexpectedChar { ch: '~', pos: 8 });
    assert_eq!(e.to_string(), "unexpected character '~' at position 8");

    let e = Lexer::tokenize("x (* open").unwrap_err();
    assert_eq!(e, LexerError::UnterminatedComment { start: 2 });
    assert_eq!(e.to_string(), "unterminated comment starting at position 2");

    let e = Lexer::tokenize("  \"abc").unwrap_err();
    assert_eq!(e, LexerError::UnterminatedString { start: 2 });

    let e = Lexer::tokenize(r#""a\q""#).unwrap_err();
    assert_eq!(e, LexerError::InvalidEscape { ch: 'q', pos: 3 });
    assert_eq!(e.to_string(), "invalid escape sequence '\\q' at position 3");

    let e = Lexer::tokenize(r#"#""#).unwrap_err();
    assert_eq!(e, LexerError::UnterminatedChar { start: 0 });
}

#[test]
fn lexer_number_errors() {
    assert_eq!(
        Lexer::tokenize("0x").unwrap_err().to_string(),
        "invalid number literal at position 0: expected hex digits after 0x"
    );
    assert_eq!(
        Lexer::tokenize("0b_").unwrap_err().to_string(),
        "invalid number literal at position 0: expected binary digits after 0b"
    );
    assert_eq!(
        Lexer::tokenize("0x8000000000000000").unwrap_err().to_string(),
        "invalid number literal at position 0: invalid hex literal: 0x8000000000000000"
    );
    assert_eq!(
        Lexer::tokenize("9223372036854775808").unwrap_err().to_string(),
        "invalid number literal at position 0: invalid integer literal: 9223372036854775808"
    );
    assert_eq!(
        Lexer::tokenize("x 1e").unwrap_err().to_string(),
        "invalid number literal at position 2: invalid float literal: 1e"
    );
    assert_eq!(
        Lexer::tokenize("2.5e+").unwrap_err().to_string(),
        "invalid number literal at position 0: invalid float literal: 2.5e+"
    );
}

#[test]
fn lexer_largest_integers() {
    let tokens = token_kinds("9223372036854775807 0x7fff_ffff_ffff_ffff 0o17 0b1_1").unwrap();
    assert_eq!(
        tokens,
        vec![
            TokenKind::Int(i64::MAX),
            TokenKind::Int(i64::MAX),
            TokenKind::Int(15),
            TokenKind::Int(3),
            TokenKind::Eof,
        ]
    );
}

#[test]
fn lexer_float_digits_are_kept_as_text() {
    let tokens = token_kinds("1_0.2_5E-1_0 7. 3e2x").unwrap();
    assert_eq!(
        tokens,
        vec![
            TokenKind::Float("10.25e-1".to_string()),
            TokenKind::Ident("_0".to_string()),
            TokenKind::Int(7),
            TokenKind::Dot,
            TokenKind::Float("3e2".to_string()),
            TokenKind::Ident("x".to_string()),
            TokenKind::Eof,
        ]
    );
}

#[test]
fn lexer_commands_and_interpolation() {
    let tokens = token_kinds("`ls -l {dir} \\` x` y").unwrap();
    assert_eq!(
        tokens,
        vec![
            TokenKind::Backtick,
            TokenKind::CommandText("ls -l ".to_string()),
            TokenKind::LBrace,
            TokenKind::Ident("dir".to_string()),
            TokenKind::RBrace,
            TokenKind::CommandText(" ` x".to_string()),
            TokenKind::Backtick,
            TokenKind::Ident("y".to_string()),
            TokenKind::Eof,
        ]
    );
    // an unterminated command ends with the end of the input
    assert_eq!(
        token_kinds("`echo").unwrap(),
        vec![TokenKind::Backtick, TokenKind::CommandText("echo".to_string()), TokenKind::Eof]
    );
    // other escapes keep their backslash
    assert_eq!(
        token_kinds("`a\\nb`").unwrap(),
        vec![TokenKind::Backtick, TokenKind::CommandText("a\\nb".to_string()), TokenKind::Backtick, TokenKind::Eof]
    );
}

#[test]
fn lexer_spans_count_bytes() {
    // 'é' takes two bytes in UTF-8, the ideographic space three
    let tokens = Lexer::tokenize("\"é\"\u{3000}x").unwrap();
    assert_eq!(tokens[0].kind, TokenKind::String("é".to_string()));
    assert_eq!(tokens[0].span, Span::new(0, 4));
    assert_eq!(tokens[1].span, Span::new(7, 8));
    assert_eq!(tokens[2].kind, TokenKind::Eof);
    assert_eq!(tokens[2].span, Span::new(8, 8));
}

#[test]
fn lexer_underscore_words_and_type_vars() {
    let tokens = token_kinds("_ _x x_ 'a' 'b_1 Foo'").unwrap();
    assert_eq!(
        tokens,
        vec![
            TokenKind::Underscore,
            TokenKind::Ident("_x".to_string()),
            TokenKind::Ident("x_".to_string()),
            TokenKind::TyVar("a".to_string()),
            TokenKind::TyVar("".to_string()),
            TokenKind::TyVar("b_1".to_string()),
            TokenKind::UpperIdent("Foo'".to_string()),
            TokenKind::Eof,
        ]
    );
}

#[test]
fn lexer_next_token_steps() {
    let mut lexer = Lexer::new("a 1");
    assert_eq!(lexer.next_token().unwrap().kind, TokenKind::Ident("a".to_string()));
    assert_eq!(lexer.next_token().unwrap().kind, TokenKind::Int(1));
    assert_eq!(lexer.next_token().unwrap().kind, TokenKind::Eof);
    // the end of the input stays the end
    assert_eq!(lexer.next_token().unwrap().kind, TokenKind::Eof);
}
