use neap::syntax::token::TokenKind;
#[test]
fn keyword_detection() {
    assert!(TokenKind::Let.is_keyword());
    assert!(TokenKind::Match.is_keyword());
    assert!(TokenKind::True.is_keyword());
    assert!(!TokenKind::Plus.is_keyword());
    assert!(!TokenKind::Ident("foo".to_string()).is_keyword());
}

#[test]
fn literal_detection() {
    assert!(TokenKind::Int(42).is_literal());
    assert!(TokenKind::Float("3.14".to_string()).is_literal());
    assert!(TokenKind::String("hello".to_string()).is_literal());
    assert!(TokenKind::Char('a').is_literal());
    assert!(!TokenKind::Let.is_literal());
}

#[test]
fn operator_detection() {
    assert!(TokenKind::Plus.is_operator());
    assert!(TokenKind::Pipe.is_operator());
    assert!(TokenKind::AndAlso.is_operator());
    assert!(!TokenKind::Let.is_operator());
    assert!(!TokenKind::LParen.is_operator());
}

#[test]
fn keyword_from_str() {
    assert_eq!(TokenKind::keyword_from_str("let"), Some(TokenKind::Let));
    assert_eq!(TokenKind::keyword_from_str("match"), Some(TokenKind::Match));
    assert_eq!(TokenKind::keyword_from_str("true"), Some(TokenKind::True));
    assert_eq!(
        TokenKind::keyword_from_str("andalso"),
        Some(TokenKind::AndAlso)
    );
    assert_eq!(TokenKind::keyword_from_str("foo"), None);
    assert_eq!(TokenKind::keyword_from_str("Let"), None); // Case sensitive
}

#[test]
fn token_names() {
    assert_eq!(TokenKind::Let.name(), "let");
    assert_eq!(TokenKind::Pipe.name(), "|>");
    assert_eq!(TokenKind::Arrow.name(), "->");
    assert_eq!(TokenKind::Int(42).name(), "integer");
    assert_eq!(TokenKind::Ident("foo".to_string()).name(), "identifier");
}

#[test]
fn can_start_expr() {
    assert!(TokenKind::Let.can_start_expr());
    assert!(TokenKind::If.can_start_expr());
    assert!(TokenKind::Int(1).can_start_expr());
    assert!(TokenKind::Ident("x".to_string()).can_start_expr());
    assert!(TokenKind::LParen.can_start_expr());
    assert!(!TokenKind::RParen.can_start_expr());
    assert!(!TokenKind::Comma.can_start_expr());
}

// ----- further cases -----

#[test]
fn keyword_table_is_complete() {
    let words = [
        ("let", TokenKind::Let), ("in", TokenKind::In), ("fn", TokenKind::Fn), ("fun", TokenKind::Fun),
        ("rec", TokenKind::Rec), ("and", TokenKind::And), ("match", TokenKind::Match), ("with", TokenKind::With),
        ("case", TokenKind::Case), ("of", TokenKind::Of), ("datatype", TokenKind::Datatype), ("type", TokenKind::Type),
        ("if", TokenKind::If), ("then", TokenKind::Then), ("else", TokenKind::Else), ("do", TokenKind::Do),
        ("end", TokenKind::End), ("true", TokenKind::True), ("false", TokenKind::False),
        ("andalso", TokenKind::AndAlso), ("orelse", TokenKind::OrElse), ("not", TokenKind::Bang),
        ("trait", TokenKind::Trait), ("impl", TokenKind::Impl), ("for", TokenKind::For),
    ];
    for (w, k) in words.iter() {
        assert_eq!(TokenKind::keyword_from_str(w), Some(k.clone()));
    }
    assert_eq!(TokenKind::keyword_from_str(""), None);
    assert_eq!(TokenKind::keyword_from_str("lets"), None);
    assert_eq!(TokenKind::keyword_from_str("le"), None);
}

#[test]
fn more_token_names() {
    assert_eq!(TokenKind::Neq.name(), "<>");
    assert_eq!(TokenKind::EqEq.name(), "==");
    assert_eq!(TokenKind::CommandText("ls".to_string()).name(), "command text");
    assert_eq!(TokenKind::Float("1.5".to_string()).name(), "float");
    assert_eq!(TokenKind::TyVar("a".to_string()).name(), "type variable");
    assert_eq!(TokenKind::UpperIdent("Some".to_string()).name(), "constructor");
    assert_eq!(TokenKind::Eof.name(), "end of file");
    assert!(TokenKind::For.is_keyword());
    assert!(!TokenKind::Bang.is_keyword());
    assert!(TokenKind::Bang.is_operator());
    assert!(TokenKind::Bang.can_start_expr());
    assert!(!TokenKind::Eof.can_start_expr());
}
