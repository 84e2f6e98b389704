use neap::syntax::ast::{BinOp, CommandPart, Decl, Expr, Literal, Pattern, Program, TypeExpr, UnOp};
use neap::syntax::parser::{ParseError, Parser};
/// Helper to parse an expression from source
fn parse_expr(source: &str) -> Result<Expr, ParseError> {
    let mut parser = Parser::new(source)?;
    Ok(parser.parse_expr()?.value)
}

/// Helper to parse a pattern from source
fn parse_pattern(source: &str) -> Result<Pattern, ParseError> {
    let mut parser = Parser::new(source)?;
    Ok(parser.parse_pattern()?.value)
}

/// Helper to parse a type from source
fn parse_type(source: &str) -> Result<TypeExpr, ParseError> {
    let mut parser = Parser::new(source)?;
    Ok(parser.parse_type()?.value)
}

/// Helper to parse a program from source
fn parse_program(source: &str) -> Result<Program, ParseError> {
    let mut parser = Parser::new(source)?;
    parser.parse_program()
}

// ========== Literal Tests ==========

#[test]
fn parse_int_literal() {
    assert!(matches!(parse_expr("42"), Ok(Expr::Lit(Literal::Int(42)))));
}

#[test]
fn parse_float_literal() {
    let expr = parse_expr("3.14").unwrap();
    assert!(matches!(expr, Expr::Lit(Literal::Float(f)) if (f.parse::<f64>().unwrap() - 3.14).abs() < 0.001));
}

#[test]
fn parse_string_literal() {
    assert!(matches!(
        parse_expr(r#""hello""#),
        Ok(Expr::Lit(Literal::String(s))) if s == "hello"
    ));
}

#[test]
fn parse_char_literal() {
    assert!(matches!(
        parse_expr(r#"#"a""#),
        Ok(Expr::Lit(Literal::Char('a')))
    ));
}

#[test]
fn parse_bool_literals() {
    assert!(matches!(parse_expr("true"), Ok(Expr::Lit(Literal::Bool(true)))));
    assert!(matches!(parse_expr("false"), Ok(Expr::Lit(Literal::Bool(false)))));
}

// ========== Variable Tests ==========

#[test]
fn parse_variable() {
    assert!(matches!(
        parse_expr("foo"),
        Ok(Expr::Var(name)) if name == "foo"
    ));
}

#[test]
fn parse_constructor() {
    assert!(matches!(
        parse_expr("Some"),
        Ok(Expr::Con(name)) if name == "Some"
    ));
}

// ========== Operator Tests ==========

#[test]
fn parse_addition() {
    let expr = parse_expr("1 + 2").unwrap();
    assert!(matches!(
        expr,
        Expr::BinOp(BinOp::Add, _, _)
    ));
}

#[test]
fn parse_subtraction() {
    let expr = parse_expr("5 - 3").unwrap();
    assert!(matches!(
        expr,
        Expr::BinOp(BinOp::Sub, _, _)
    ));
}

#[test]
fn parse_multiplication() {
    let expr = parse_expr("2 * 3").unwrap();
    assert!(matches!(
        expr,
        Expr::BinOp(BinOp::Mul, _, _)
    ));
}

#[test]
fn parse_division() {
    let expr = parse_expr("10 / 2").unwrap();
    assert!(matches!(
        expr,
        Expr::BinOp(BinOp::Div, _, _)
    ));
}

#[test]
fn parse_precedence_mul_add() {
    // 1 + 2 * 3 should be 1 + (2 * 3)
    let expr = parse_expr("1 + 2 * 3").unwrap();
    if let Expr::BinOp(BinOp::Add, lhs, rhs) = expr {
        assert!(matches!(lhs.value, Expr::Lit(Literal::Int(1))));
        assert!(matches!(rhs.value, Expr::BinOp(BinOp::Mul, _, _)));
    } else {
        panic!("Expected Add at top level");
    }
}

#[test]
fn parse_left_associativity() {
    // 1 - 2 - 3 should be (1 - 2) - 3
    let expr = parse_expr("1 - 2 - 3").unwrap();
    if let Expr::BinOp(BinOp::Sub, lhs, rhs) = expr {
        assert!(matches!(lhs.value, Expr::BinOp(BinOp::Sub, _, _)));
        assert!(matches!(rhs.value, Expr::Lit(Literal::Int(3))));
    } else {
        panic!("Expected Sub at top level");
    }
}

#[test]
fn parse_cons_right_associativity() {
    // 1 :: 2 :: xs should be 1 :: (2 :: xs)
    let expr = parse_expr("1 :: 2 :: xs").unwrap();
    if let Expr::BinOp(BinOp::Cons, lhs, rhs) = expr {
        assert!(matches!(lhs.value, Expr::Lit(Literal::Int(1))));
        assert!(matches!(rhs.value, Expr::BinOp(BinOp::Cons, _, _)));
    } else {
        panic!("Expected Cons at top level");
    }
}

#[test]
fn parse_comparison() {
    let expr = parse_expr("x < y").unwrap();
    assert!(matches!(expr, Expr::BinOp(BinOp::Lt, _, _)));

    let expr = parse_expr("a = b").unwrap();
    assert!(matches!(expr, Expr::BinOp(BinOp::Eq, _, _)));
}

#[test]
fn parse_logical() {
    let expr = parse_expr("a && b").unwrap();
    assert!(matches!(expr, Expr::BinOp(BinOp::And, _, _)));

    let expr = parse_expr("a || b").unwrap();
    assert!(matches!(expr, Expr::BinOp(BinOp::Or, _, _)));
}

#[test]
fn parse_unary_minus() {
    let expr = parse_expr("-42").unwrap();
    assert!(matches!(expr, Expr::UnOp(UnOp::Neg, _)));
}

#[test]
fn parse_unary_not() {
    let expr = parse_expr("!flag").unwrap();
    assert!(matches!(expr, Expr::UnOp(UnOp::Not, _)));
}

#[test]
fn parse_parentheses() {
    // (1 + 2) * 3 should have Add inside
    let expr = parse_expr("(1 + 2) * 3").unwrap();
    if let Expr::BinOp(BinOp::Mul, lhs, _) = expr {
        assert!(matches!(lhs.value, Expr::BinOp(BinOp::Add, _, _)));
    } else {
        panic!("Expected Mul at top level");
    }
}

// ========== Tuple and List Tests ==========

#[test]
fn parse_unit() {
    let expr = parse_expr("()").unwrap();
    assert!(matches!(expr, Expr::Unit));
}

#[test]
fn parse_tuple() {
    let expr = parse_expr("(1, 2, 3)").unwrap();
    if let Expr::Tuple(elements) = expr {
        assert_eq!(elements.len(), 3);
    } else {
        panic!("Expected Tuple");
    }
}

#[test]
fn parse_empty_list() {
    let expr = parse_expr("[]").unwrap();
    if let Expr::List(elements) = expr {
        assert!(elements.is_empty());
    } else {
        panic!("Expected List");
    }
}

#[test]
fn parse_list() {
    let expr = parse_expr("[1, 2, 3]").unwrap();
    if let Expr::List(elements) = expr {
        assert_eq!(elements.len(), 3);
    } else {
        panic!("Expected List");
    }
}

// ========== Lambda Tests ==========

#[test]
fn parse_lambda() {
    let expr = parse_expr("fn x => x + 1").unwrap();
    if let Expr::Lambda(params, _) = expr {
        assert_eq!(params.len(), 1);
    } else {
        panic!("Expected Lambda");
    }
}

#[test]
fn parse_multi_param_lambda() {
    let expr = parse_expr("fn x y => x + y").unwrap();
    if let Expr::Lambda(params, _) = expr {
        assert_eq!(params.len(), 2);
    } else {
        panic!("Expected Lambda");
    }
}

// ========== Conditional Tests ==========

#[test]
fn parse_if_expr() {
    let expr = parse_expr("if true then 1 else 0").unwrap();
    assert!(matches!(expr, Expr::If(_, _, _)));
}

#[test]
fn parse_nested_if() {
    let expr = parse_expr("if a then if b then 1 else 2 else 3").unwrap();
    if let Expr::If(_, then_branch, _) = expr {
        assert!(matches!(then_branch.value, Expr::If(_, _, _)));
    } else {
        panic!("Expected If");
    }
}

// ========== Match Tests ==========

#[test]
fn parse_match_expr() {
    let expr = parse_expr("match x with | Some y -> y | None -> 0").unwrap();
    if let Expr::Match(_, arms) = expr {
        assert_eq!(arms.len(), 2);
    } else {
        panic!("Expected Match");
    }
}

#[test]
fn parse_case_expr() {
    let expr = parse_expr("case x of Some y -> y | None -> 0").unwrap();
    if let Expr::Match(_, arms) = expr {
        assert_eq!(arms.len(), 2);
    } else {
        panic!("Expected Match (from case)");
    }
}

// ========== Function Application Tests ==========

#[test]
fn parse_function_application() {
    let expr = parse_expr("f x").unwrap();
    assert!(matches!(expr, Expr::App(_, _)));
}

#[test]
fn parse_curried_application() {
    let expr = parse_expr("f x y").unwrap();
    // Should be (f x) y
    if let Expr::App(lhs, _) = expr {
        assert!(matches!(lhs.value, Expr::App(_, _)));
    } else {
        panic!("Expected App");
    }
}

#[test]
fn parse_constructor_application() {
    let expr = parse_expr("Some 42").unwrap();
    if let Expr::App(func, arg) = expr {
        assert!(matches!(func.value, Expr::Con(_)));
        assert!(matches!(arg.value, Expr::Lit(Literal::Int(42))));
    } else {
        panic!("Expected App");
    }
}

// ========== Pipe Tests ==========

#[test]
fn parse_pipe() {
    let expr = parse_expr("x |> f").unwrap();
    assert!(matches!(expr, Expr::Pipe(_, _)));
}

#[test]
fn parse_pipe_chain() {
    let expr = parse_expr("x |> f |> g").unwrap();
    // Should be (x |> f) |> g
    if let Expr::Pipe(lhs, _) = expr {
        assert!(matches!(lhs.value, Expr::Pipe(_, _)));
    } else {
        panic!("Expected Pipe");
    }
}

// ========== Record Tests ==========

#[test]
fn parse_empty_record() {
    let expr = parse_expr("{}").unwrap();
    if let Expr::Record(fields) = expr {
        assert!(fields.is_empty());
    } else {
        panic!("Expected Record");
    }
}

#[test]
fn parse_record() {
    let expr = parse_expr("{ x = 1, y = 2 }").unwrap();
    if let Expr::Record(fields) = expr {
        assert_eq!(fields.len(), 2);
    } else {
        panic!("Expected Record");
    }
}

#[test]
fn parse_field_access() {
    let expr = parse_expr("r.x").unwrap();
    assert!(matches!(expr, Expr::Field(_, _)));
}

// ========== Environment Variable Tests ==========

#[test]
fn parse_env_var() {
    let expr = parse_expr("$HOME").unwrap();
    assert!(matches!(expr, Expr::EnvVar(name) if name == "HOME"));
}

// ========== Pattern Tests ==========

#[test]
fn parse_wildcard_pattern() {
    let pattern = parse_pattern("_").unwrap();
    assert!(matches!(pattern, Pattern::Wildcard));
}

#[test]
fn parse_var_pattern() {
    let pattern = parse_pattern("x").unwrap();
    assert!(matches!(pattern, Pattern::Var(name) if name == "x"));
}

#[test]
fn parse_literal_pattern() {
    let pattern = parse_pattern("42").unwrap();
    assert!(matches!(pattern, Pattern::Lit(Literal::Int(42))));
}

#[test]
fn parse_constructor_pattern() {
    let pattern = parse_pattern("Some x").unwrap();
    if let Pattern::Con(name, Some(_)) = pattern {
        assert_eq!(name, "Some");
    } else {
        panic!("Expected Con pattern");
    }
}

#[test]
fn parse_tuple_pattern() {
    let pattern = parse_pattern("(x, y, z)").unwrap();
    if let Pattern::Tuple(elements) = pattern {
        assert_eq!(elements.len(), 3);
    } else {
        panic!("Expected Tuple pattern");
    }
}

#[test]
fn parse_list_pattern() {
    let pattern = parse_pattern("[x, y]").unwrap();
    if let Pattern::List(elements) = pattern {
        assert_eq!(elements.len(), 2);
    } else {
        panic!("Expected List pattern");
    }
}

#[test]
fn parse_cons_pattern() {
    let pattern = parse_pattern("x :: xs").unwrap();
    assert!(matches!(pattern, Pattern::Cons(_, _)));
}

#[test]
fn parse_or_pattern() {
    let pattern = parse_pattern("None | Some _").unwrap();
    assert!(matches!(pattern, Pattern::Or(_, _)));
}

// ========== Type Tests ==========

#[test]
fn parse_type_var() {
    let ty = parse_type("'a").unwrap();
    assert!(matches!(ty, TypeExpr::Var(name) if name == "a"));
}

#[test]
fn parse_type_con() {
    let ty = parse_type("int").unwrap();
    assert!(matches!(ty, TypeExpr::Con(name) if name == "int"));
}

#[test]
fn parse_function_type() {
    let ty = parse_type("int -> string").unwrap();
    assert!(matches!(ty, TypeExpr::Arrow(_, _)));
}

#[test]
fn parse_function_type_right_assoc() {
    // int -> int -> int should be int -> (int -> int)
    let ty = parse_type("int -> int -> int").unwrap();
    if let TypeExpr::Arrow(_, rhs) = ty {
        assert!(matches!(rhs.value, TypeExpr::Arrow(_, _)));
    } else {
        panic!("Expected Arrow");
    }
}

#[test]
fn parse_type_application() {
    let ty = parse_type("'a list").unwrap();
    assert!(matches!(ty, TypeExpr::App(_, _)));
}

#[test]
fn parse_tuple_type() {
    let ty = parse_type("int * string * bool").unwrap();
    if let TypeExpr::Tuple(elements) = ty {
        assert_eq!(elements.len(), 3);
    } else {
        panic!("Expected Tuple type");
    }
}

#[test]
fn parse_record_type() {
    let ty = parse_type("{ x: int, y: string }").unwrap();
    if let TypeExpr::Record(fields) = ty {
        assert_eq!(fields.len(), 2);
    } else {
        panic!("Expected Record type");
    }
}

// ========== Declaration Tests ==========

#[test]
fn parse_let_decl() {
    let program = parse_program("let x = 42").unwrap();
    assert_eq!(program.decls.len(), 1);
    assert!(matches!(program.decls[0].value, Decl::Val(_)));
}

#[test]
fn parse_fun_decl() {
    let program = parse_program("fun add x y = x + y").unwrap();
    assert_eq!(program.decls.len(), 1);
    if let Decl::Fun(fun) = &program.decls[0].value {
        assert_eq!(fun.name.value, "add");
        assert_eq!(fun.clauses.len(), 1);
        assert_eq!(fun.clauses[0].params.len(), 2);
    } else {
        panic!("Expected Fun");
    }
}

#[test]
fn parse_type_decl() {
    let program = parse_program("type point = { x: int, y: int }").unwrap();
    assert_eq!(program.decls.len(), 1);
    assert!(matches!(program.decls[0].value, Decl::Type(_)));
}

#[test]
fn parse_datatype_decl() {
    let program = parse_program("datatype 'a option = None | Some of 'a").unwrap();
    assert_eq!(program.decls.len(), 1);
    if let Decl::Datatype(dt) = &program.decls[0].value {
        assert_eq!(dt.name.value, "option");
        assert_eq!(dt.params.len(), 1);
        assert_eq!(dt.constructors.len(), 2);
    } else {
        panic!("Expected Datatype");
    }
}

#[test]
fn parse_trait_decl() {
    let source = r#"
        trait Show {
            fn show(self) -> string
        }
    "#;
    let program = parse_program(source).unwrap();
    assert_eq!(program.decls.len(), 1);
    if let Decl::Trait(tr) = &program.decls[0].value {
        assert_eq!(tr.name.value, "Show");
        assert_eq!(tr.methods.len(), 1);
        assert_eq!(tr.methods[0].name.value, "show");
        assert_eq!(tr.methods[0].params.len(), 1);
        assert_eq!(tr.methods[0].params[0].value, "self");
    } else {
        panic!("Expected Trait");
    }
}

#[test]
fn parse_trait_multiple_methods() {
    let source = r#"
        trait Eq {
            fn eq(self, other) -> bool
            fn neq(self, other) -> bool
        }
    "#;
    let program = parse_program(source).unwrap();
    assert_eq!(program.decls.len(), 1);
    if let Decl::Trait(tr) = &program.decls[0].value {
        assert_eq!(tr.name.value, "Eq");
        assert_eq!(tr.methods.len(), 2);
        assert_eq!(tr.methods[0].name.value, "eq");
        assert_eq!(tr.methods[1].name.value, "neq");
    } else {
        panic!("Expected Trait");
    }
}

#[test]
fn parse_impl_decl() {
    let source = r#"
        impl Show for int {
            fn show(self) = intToString self
        }
    "#;
    let program = parse_program(source).unwrap();
    assert_eq!(program.decls.len(), 1);
    if let Decl::Impl(im) = &program.decls[0].value {
        assert_eq!(im.trait_name.value, "Show");
        if let TypeExpr::Con(ty_name) = &im.for_type.value {
            assert_eq!(ty_name, "int");
        } else {
            panic!("Expected type constructor");
        }
        assert_eq!(im.methods.len(), 1);
        assert_eq!(im.methods[0].name.value, "show");
    } else {
        panic!("Expected Impl");
    }
}

#[test]
fn parse_impl_with_return_type() {
    let source = r#"
        impl Show for float {
            fn show(self) -> string = floatToString self
        }
    "#;
    let program = parse_program(source).unwrap();
    assert_eq!(program.decls.len(), 1);
    if let Decl::Impl(im) = &program.decls[0].value {
        assert_eq!(im.trait_name.value, "Show");
        assert!(im.methods[0].return_ty.is_some());
    } else {
        panic!("Expected Impl");
    }
}

#[test]
fn parse_trait_and_impl() {
    let source = r#"
        trait Show {
            fn show(self) -> string
        }
        impl Show for int {
            fn show(self) = intToString self
        }
        impl Show for bool {
            fn show(self) = if self then "true" else "false"
        }
    "#;
    let program = parse_program(source).unwrap();
    assert_eq!(program.decls.len(), 3);
    assert!(matches!(program.decls[0].value, Decl::Trait(_)));
    assert!(matches!(program.decls[1].value, Decl::Impl(_)));
    assert!(matches!(program.decls[2].value, Decl::Impl(_)));
}

#[test]
fn parse_multiple_decls() {
    let source = r#"
        let x = 1
        let y = 2
        fun add a b = a + b
    "#;
    let program = parse_program(source).unwrap();
    assert_eq!(program.decls.len(), 3);
}

// ========== Complex Expression Tests ==========

#[test]
fn parse_nested_match() {
    let source = r#"
        match x with
        | Some (Some y) -> y
        | Some None -> 0
        | None -> 0
    "#;
    let expr = parse_expr(source).unwrap();
    if let Expr::Match(_, arms) = expr {
        assert_eq!(arms.len(), 3);
    } else {
        panic!("Expected Match");
    }
}

#[test]
fn parse_shell_pipeline() {
    let expr = parse_expr(r#"input |> filter pred |> map f |> output"#).unwrap();
    // Should have 3 pipes
    let mut count = 0;
    let mut current = &expr;
    while let Expr::Pipe(lhs, _) = current {
        count += 1;
        current = &lhs.value;
    }
    assert_eq!(count, 3);
}

// ========== Command Expression Tests ==========

#[test]
fn parse_command_simple() {
    let expr = parse_expr("`ls -la`").unwrap();
    if let Expr::Command(parts) = expr {
        assert_eq!(parts.len(), 1);
        assert!(matches!(&parts[0], CommandPart::Literal(s) if s == "ls -la"));
    } else {
        panic!("Expected Command, got {:?}", expr);
    }
}

#[test]
fn parse_command_with_interpolation() {
    let expr = parse_expr("`echo {x}`").unwrap();
    if let Expr::Command(parts) = expr {
        assert_eq!(parts.len(), 2);
        assert!(matches!(&parts[0], CommandPart::Literal(s) if s == "echo "));
        assert!(matches!(&parts[1], CommandPart::Interpolation(e) if matches!(e.value, Expr::Var(ref n) if n == "x")));
    } else {
        panic!("Expected Command, got {:?}", expr);
    }
}

#[test]
fn parse_command_multiple_interpolations() {
    let expr = parse_expr("`{cmd} {arg1} {arg2}`").unwrap();
    if let Expr::Command(parts) = expr {
        assert_eq!(parts.len(), 5);
        assert!(matches!(&parts[0], CommandPart::Interpolation(_)));
        assert!(matches!(&parts[1], CommandPart::Literal(s) if s == " "));
        assert!(matches!(&parts[2], CommandPart::Interpolation(_)));
        assert!(matches!(&parts[3], CommandPart::Literal(s) if s == " "));
        assert!(matches!(&parts[4], CommandPart::Interpolation(_)));
    } else {
        panic!("Expected Command, got {:?}", expr);
    }
}

#[test]
fn parse_command_empty() {
    let expr = parse_expr("``").unwrap();
    if let Expr::Command(parts) = expr {
        assert!(parts.is_empty());
    } else {
        panic!("Expected Command, got {:?}", expr);
    }
}

#[test]
fn parse_command_pipeline() {
    // Commands piped together
    let expr = parse_expr("`ls` |> `grep foo`").unwrap();
    if let Expr::Pipe(lhs, rhs) = expr {
        assert!(matches!(lhs.value, Expr::Command(_)));
        assert!(matches!(rhs.value, Expr::Command(_)));
    } else {
        panic!("Expected Pipe, got {:?}", expr);
    }
}

// ----- further cases -----

#[test]
fn parse_errors_name_the_problem() {
    // an operator cannot start an expression
    let err = parse_expr(")").unwrap_err();
    assert!(matches!(err, ParseError::InvalidExpression { .. }));
    // input ends inside an if
    let err = parse_expr("if x then 1").unwrap_err();
    assert!(matches!(err, ParseError::UnexpectedToken { ref expected, .. } if expected == "else"));
    // a declaration must start with a keyword
    let err = parse_program("42").unwrap_err();
    assert_eq!(
        err.to_string(),
        "unexpected token: expected declaration (let, fun, type, datatype, trait, or impl), found integer at Span { start: 0, end: 2 }"
    );
}

#[test]
fn parse_error_messages() {
    let err = ParseError::UnexpectedEof { expected: "pattern".to_string() };
    assert_eq!(err.to_string(), "unexpected end of file: expected pattern");
    let err = ParseError::InvalidPattern { span: neap::syntax::span::Span::new(3, 5) };
    assert_eq!(err.to_string(), "invalid pattern at Span { start: 3, end: 5 }");
    let err = Parser::new("\"open").err().unwrap();
    assert!(matches!(err, ParseError::LexerError(_)));
    assert!(err.to_string().starts_with("lexer error: unterminated string literal"));
}

#[test]
fn parse_fun_clauses_must_share_a_name() {
    let program = parse_program("fun f 0 = 1 | f n = n").unwrap();
    if let Decl::Fun(fun) = &program.decls[0].value {
        assert_eq!(fun.clauses.len(), 2);
    } else {
        panic!("Expected Fun");
    }
    let err = parse_program("fun f 0 = 1 | g n = n").unwrap_err();
    assert!(matches!(err, ParseError::UnexpectedToken { ref expected, ref found, .. }
        if expected == "function name 'f'" && found == "g"));
}

#[test]
fn parse_do_block_binds() {
    let expr = parse_expr("do (a, b) <- pair; let c = a; print c end").unwrap();
    if let Expr::Do(stmts) = expr {
        assert_eq!(stmts.len(), 3);
        assert!(matches!(&stmts[0], neap::syntax::ast::DoStmt::Bind(p, _) if matches!(p.value, Pattern::Tuple(ref ps) if ps.len() == 2)));
        assert!(matches!(&stmts[1], neap::syntax::ast::DoStmt::Let(_, _)));
        assert!(matches!(&stmts[2], neap::syntax::ast::DoStmt::Expr(_)));
    } else {
        panic!("Expected Do");
    }
    let err = parse_expr("do f x <- y end").unwrap_err();
    assert!(matches!(err, ParseError::InvalidPattern { .. }));
}

#[test]
fn parse_annotation_and_spans() {
    let mut parser = Parser::new("(x : int)").unwrap();
    let e = parser.parse_expr().unwrap();
    assert!(matches!(e.value, Expr::Annot(_, _)));
    assert_eq!(e.span.start, 0);
    assert_eq!(e.span.end, 9);
    assert!(parser.is_at_end());
    let mut parser = Parser::new("()").unwrap();
    let e = parser.parse_expr().unwrap();
    assert_eq!((e.span.start, e.span.end), (0, 2));
}

#[test]
fn parse_record_pattern_punning() {
    let pattern = parse_pattern("{ x, y = 0 }").unwrap();
    if let Pattern::Record(fields) = pattern {
        assert_eq!(fields.len(), 2);
        assert!(matches!(&fields[0].1.value, Pattern::Var(n) if n == "x"));
        assert!(matches!(&fields[1].1.value, Pattern::Lit(Literal::Int(0))));
    } else {
        panic!("Expected Record pattern");
    }
}

#[test]
fn parse_multi_arg_type_application() {
    let ty = parse_type("(int, string) map").unwrap();
    if let TypeExpr::App(con, args) = ty {
        assert!(matches!(con.value, TypeExpr::Con(ref n) if n == "map"));
        assert_eq!(args.len(), 2);
    } else {
        panic!("Expected App type");
    }
    assert!(matches!(parse_type("(int)").unwrap(), TypeExpr::Paren(_)));
    assert!(matches!(parse_type("()").unwrap(), TypeExpr::Con(ref n) if n == "unit"));
}

#[test]
fn parse_application_binds_tighter_than_addition() {
    // f x + 1 should be (f x) + 1
    let expr = parse_expr("f x + 1").unwrap();
    if let Expr::BinOp(BinOp::Add, lhs, rhs) = expr {
        assert!(matches!(lhs.value, Expr::App(_, _)));
        assert!(matches!(rhs.value, Expr::Lit(Literal::Int(1))));
    } else {
        panic!("Expected Add at top level");
    }
}

#[test]
fn parse_negation_binds_tighter_than_multiplication() {
    // -x * 2 should be (-x) * 2
    let expr = parse_expr("-x * 2").unwrap();
    if let Expr::BinOp(BinOp::Mul, lhs, _) = expr {
        assert!(matches!(lhs.value, Expr::UnOp(UnOp::Neg, _)));
    } else {
        panic!("Expected Mul at top level");
    }
}
