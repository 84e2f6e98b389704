use neap::codegen::ZshCodegen;
use neap::codegen::check::generate_checked;
use neap::ir::base::{Primitive, VarId};
use neap::ir::tree::{IRCommandPart, IRDecl, IRExpr, IRLiteral, IRPattern, IRProgram};
use neap::types::repr::Type;

#[test]
fn codegen_literal_int() {
    let codegen = ZshCodegen::new();
    let lit = IRLiteral::Int(42);
    assert_eq!(codegen.emit_literal(&lit), "42");
}

#[test]
fn codegen_literal_bool() {
    let codegen = ZshCodegen::new();
    assert_eq!(codegen.emit_literal(&IRLiteral::Bool(true)), "true");
    assert_eq!(codegen.emit_literal(&IRLiteral::Bool(false)), "false");
}

#[test]
fn codegen_literal_string() {
    let codegen = ZshCodegen::new();
    let lit = IRLiteral::String("hello".to_string());
    assert_eq!(
        codegen.emit_literal(&lit),
        "$(jq -n --arg s 'hello' '$s')"
    );
}

#[test]
fn codegen_empty_program() {
    let program = IRProgram { decls: vec![] };
    let output = ZshCodegen::new().generate(&program);
    assert!(output.contains("#!/usr/bin/env zsh"));
    assert!(output.contains("__main()"));
}

#[test]
fn codegen_simple_val() {
    let program = IRProgram {
        decls: vec![IRDecl::Val {
            name: "x".to_string(),
            ty: Type::int_type(),
            value: IRExpr::Lit(IRLiteral::Int(42), Type::int_type()),
        }],
    };
    let output = ZshCodegen::new().generate(&program);
    assert!(output.contains("local x=42"));
}

#[test]
fn codegen_simple_fun() {
    let program = IRProgram {
        decls: vec![IRDecl::Fun {
            name: "double".to_string(),
            ty: Type::arrow(Type::int_type(), Type::int_type()),
            params: vec![(VarId::from_raw(0), Type::int_type())],
            body: IRExpr::Prim {
                op: Primitive::MulInt,
                args: vec![
                    IRExpr::Var(VarId::from_raw(0), Type::int_type()),
                    IRExpr::Lit(IRLiteral::Int(2), Type::int_type()),
                ],
                ty: Type::int_type(),
            },
        }],
    };
    let output = ZshCodegen::new().generate(&program);
    assert!(output.contains("__double()"));
    assert!(output.contains("local _0=$1"));
    assert!(output.contains("__neap_mul_int"));
}

// ----- further cases -----

#[test]
fn codegen_literals_escape_and_sign() {
    let codegen = ZshCodegen::default();
    assert_eq!(codegen.emit_literal(&IRLiteral::Int(-7)), "-7");
    assert_eq!(codegen.emit_literal(&IRLiteral::Int(i64::MIN)), "-9223372036854775808");
    assert_eq!(codegen.emit_literal(&IRLiteral::Char('a')), "\"a\"");
    assert_eq!(
        codegen.emit_literal(&IRLiteral::String("it's".to_string())),
        "$(jq -n --arg s 'it'\"'\"'s' '$s')"
    );
}

#[test]
fn codegen_script_frame_and_order() {
    let program = IRProgram {
        decls: vec![
            IRDecl::Val {
                name: "y".to_string(),
                ty: Type::int_type(),
                value: IRExpr::If {
                    cond: Box::new(IRExpr::Lit(IRLiteral::Bool(true), Type::bool())),
                    then_branch: Box::new(IRExpr::Lit(IRLiteral::Int(1), Type::int_type())),
                    else_branch: Box::new(IRExpr::Lit(IRLiteral::Int(2), Type::int_type())),
                    ty: Type::int_type(),
                },
            },
            IRDecl::Fun {
                name: "f".to_string(),
                ty: Type::arrow(Type::int_type(), Type::int_type()),
                params: vec![(VarId::from_raw(3), Type::int_type())],
                body: IRExpr::Var(VarId::from_raw(3), Type::int_type()),
            },
        ],
    };
    let output = ZshCodegen::new().generate(&program);
    assert!(output.starts_with("#!/usr/bin/env zsh\nset -uo pipefail\n\n"));
    assert!(output.ends_with("\n__main \"$@\"\n"));
    // functions come before __main, values inside it
    let f_at = output.find("__f() {").unwrap();
    let main_at = output.find("__main() {").unwrap();
    assert!(f_at < main_at);
    assert!(output.contains("    local __t0\n"));
    assert!(output.contains("    if [[ true == \"true\" ]]; then\n        __t0=1\n    else\n        __t0=2\n    fi\n"));
    assert!(output.contains("    local y=\"$__t0\"\n"));
}

#[test]
fn codegen_match_on_constructors() {
    let program = IRProgram {
        decls: vec![IRDecl::Val {
            name: "z".to_string(),
            ty: Type::int_type(),
            value: IRExpr::Match {
                scrutinee: Box::new(IRExpr::Global("opt".to_string(), Type::int_type())),
                arms: vec![
                    (
                        IRPattern::Con {
                            ctor: "Some".to_string(),
                            arg: Some(Box::new(IRPattern::Var(VarId::from_raw(1), Type::int_type()))),
                        },
                        IRExpr::Var(VarId::from_raw(1), Type::int_type()),
                    ),
                    (IRPattern::Con { ctor: "None".to_string(), arg: None }, IRExpr::Lit(IRLiteral::Int(0), Type::int_type())),
                ],
                ty: Type::int_type(),
            },
        }],
    };
    let output = ZshCodegen::new().generate(&program);
    assert!(output.contains("local __t1=\"$opt\""));
    assert!(output.contains("case $(__neap_tag \"$__t1\") in"));
    assert!(output.contains("local _1=$(__neap_get \"$__t1\" '._0')"));
    assert!(output.contains("__t0=\"$_1\""));
    assert!(output.contains("esac"));
}

#[test]
fn generate_checked_refuses_a_primitive_without_its_arguments() {
    let bad = IRProgram::new(vec![IRDecl::Val {
        name: "x".to_string(),
        ty: Type::int_type(),
        value: IRExpr::Prim { op: Primitive::AddInt, args: vec![IRExpr::Lit(IRLiteral::Int(1), Type::int_type())], ty: Type::int_type() },
    }]);
    assert!(generate_checked(&bad).is_none());
    let good = IRProgram::new(vec![IRDecl::Val {
        name: "x".to_string(),
        ty: Type::int_type(),
        value: IRExpr::Prim {
            op: Primitive::AddInt,
            args: vec![IRExpr::Lit(IRLiteral::Int(1), Type::int_type()), IRExpr::Lit(IRLiteral::Int(2), Type::int_type())],
            ty: Type::int_type(),
        },
    }]);
    let code = generate_checked(&good).unwrap();
    assert!(code.starts_with("#!/usr/bin/env zsh\n"));
    assert!(code.ends_with("__main \"$@\"\n"));
}

#[test]
fn codegen_value_program_main_body() {
    let program = IRProgram {
        decls: vec![IRDecl::Val {
            name: "x".to_string(),
            ty: Type::int_type(),
            value: IRExpr::Lit(IRLiteral::Int(42), Type::int_type()),
        }],
    };
    let output = ZshCodegen::new().generate(&program);
    assert!(output.contains("# Compiled Program\n"));
    assert!(output.contains("__main() {\n    local x=42\n}\n"));
}

#[test]
fn codegen_function_text_is_exact() {
    let program = IRProgram {
        decls: vec![IRDecl::Fun {
            name: "id".to_string(),
            ty: Type::arrow(Type::int_type(), Type::int_type()),
            params: vec![(VarId::from_raw(0), Type::int_type())],
            body: IRExpr::Var(VarId::from_raw(0), Type::int_type()),
        }],
    };
    let output = ZshCodegen::new().generate(&program);
    assert!(output.contains("__id() {\n    local _0=$1\n    echo \"$_0\"\n}\n\n__main() {\n}\n"));
}

#[test]
fn codegen_conditional_tests_for_true() {
    let program = IRProgram {
        decls: vec![IRDecl::Val {
            name: "x".to_string(),
            ty: Type::int_type(),
            value: IRExpr::If {
                cond: Box::new(IRExpr::Lit(IRLiteral::Bool(true), Type::bool())),
                then_branch: Box::new(IRExpr::Lit(IRLiteral::Int(1), Type::int_type())),
                else_branch: Box::new(IRExpr::Lit(IRLiteral::Int(2), Type::int_type())),
                ty: Type::int_type(),
            },
        }],
    };
    let output = ZshCodegen::new().generate(&program);
    assert!(output.contains(
        "    local __t0\n    if [[ true == \"true\" ]]; then\n        __t0=1\n    else\n        __t0=2\n    fi\n    local x=\"$__t0\"\n"
    ));
}

#[test]
fn codegen_command_value() {
    let program = IRProgram {
        decls: vec![IRDecl::Val {
            name: "r".to_string(),
            ty: Type::command_result(),
            value: IRExpr::Command {
                parts: vec![IRCommandPart::Literal("ls".to_string())],
                stdin: None,
                ty: Type::command_result(),
            },
        }],
    };
    let output = ZshCodegen::new().generate(&program);
    assert!(output.contains("    local r=$(__neap_run_cmd \"ls\")\n"));
}

#[test]
fn codegen_lambda_becomes_a_function() {
    let program = IRProgram {
        decls: vec![IRDecl::Val {
            name: "f".to_string(),
            ty: Type::arrow(Type::int_type(), Type::int_type()),
            value: IRExpr::Lambda {
                param: VarId::from_raw(3),
                param_ty: Type::int_type(),
                body: Box::new(IRExpr::Var(VarId::from_raw(3), Type::int_type())),
                result_ty: Type::int_type(),
            },
        }],
    };
    let output = ZshCodegen::new().generate(&program);
    assert!(output.contains(
        "    __lambda_0() {\n        local _3=$1\n        echo \"$_3\"\n    }\n    local f=\"__lambda_0\"\n"
    ));
}

#[test]
fn codegen_match_on_constructors_exact_text() {
    let program = IRProgram {
        decls: vec![IRDecl::Val {
            name: "z".to_string(),
            ty: Type::int_type(),
            value: IRExpr::Match {
                scrutinee: Box::new(IRExpr::Var(VarId::from_raw(0), Type::int_type())),
                arms: vec![
                    (IRPattern::Con { ctor: "None".to_string(), arg: None }, IRExpr::Lit(IRLiteral::Int(0), Type::int_type())),
                    (
                        IRPattern::Con {
                            ctor: "Some".to_string(),
                            arg: Some(Box::new(IRPattern::Var(VarId::from_raw(1), Type::int_type()))),
                        },
                        IRExpr::Var(VarId::from_raw(1), Type::int_type()),
                    ),
                ],
                ty: Type::int_type(),
            },
        }],
    };
    let output = ZshCodegen::new().generate(&program);
    let expected = "    local __t0\n    local __t1=\"$_0\"\n    case $(__neap_tag \"$__t1\") in\n        None)\n            __t0=0\n            ;;\n        Some)\n            local _1=$(__neap_get \"$__t1\" '._0')\n            __t0=\"$_1\"\n            ;;\n    esac\n    local z=\"$__t0\"\n";
    assert!(output.contains(expected));
}
