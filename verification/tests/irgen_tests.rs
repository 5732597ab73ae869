use mysz_core::ir::irgen::{cast_kind, fold_const, ConstVal, IRGen, LowerError};
use mysz_core::ir::tac::{CastType, Instruction};
use mysz_core::lexing::lexer::Lexer;
use mysz_core::parse::parser::Parser;
use mysz_core::parse::parsing::{BinaryOp, Expr, ExprKind, Identifier, Literal, Parameter, Program, Stmt, Type, UnaryOp};
use mysz_core::utils::location::Location;

fn program(src: &str) -> Program {
    let mut lx = Lexer::with_file(src.to_string(), "t.mysz");
    assert!(lx.lex().is_ok());
    let mut p = Parser::new(lx.tokens);
    p.parse();
    assert!(p.parser_errs.is_empty(), "{:?}", p.parser_errs);
    p.ast
}

fn lower(src: &str) -> Result<Vec<String>, LowerError> {
    let prog = program(src);
    let mut g = IRGen::new();
    g.gen_program(&prog)?;
    Ok(g.code.iter().map(|i| format!("{:?}", i)).collect())
}

#[test]
fn a_function_returns_the_sum_it_computes() {
    let code = lower("fn main(): int { return 1 + 2; };").unwrap();
    assert_eq!(
        code,
        vec![
            "FunctionLabel(\"main\")",
            "Binary { dst: \"main::t1\", op: Add, lhs: Const(1), rhs: Const(2) }",
            "Return { value: Temp(\"main::t1\") }",
        ]
    );
}

#[test]
fn parameters_are_named_inside_their_function() {
    let code = lower("fn add(a: int, b: int): int { return a + b; };").unwrap();
    assert_eq!(
        code,
        vec![
            "FunctionLabel(\"add\")",
            "Param { p: \"add::a\" }",
            "Param { p: \"add::b\" }",
            "Binary { dst: \"add::t1\", op: Add, lhs: Var(\"add::a\"), rhs: Var(\"add::b\") }",
            "Return { value: Temp(\"add::t1\") }",
        ]
    );
}

#[test]
fn a_while_loop_becomes_labels_and_jumps() {
    let code = lower("fn f() { var i: int = 3; while (i > 0) { i = i - 1; }; };").unwrap();
    assert_eq!(
        code,
        vec![
            "FunctionLabel(\"f\")",
            "Assign { dst: \"f::i\", src: Const(3) }",
            "Label(\"L1\")",
            "Binary { dst: \"f::t1\", op: Gt, lhs: Var(\"f::i\"), rhs: Const(0) }",
            "JumpIfFalse { cond: Temp(\"f::t1\"), target: \"L2\" }",
            "Binary { dst: \"f::t2\", op: Sub, lhs: Var(\"f::i\"), rhs: Const(1) }",
            "Assign { dst: \"f::i\", src: Temp(\"f::t2\") }",
            "Jump(\"L1\")",
            "Label(\"L2\")",
            "Return { value: Void }",
        ]
    );
}

#[test]
fn an_if_with_a_constant_condition_keeps_only_the_branch_taken() {
    let code = lower("fn f(): int { if (1 < 2) { return 7; } else { return 8; }; };").unwrap();
    assert_eq!(
        code,
        vec!["FunctionLabel(\"f\")", "Return { value: Const(7) }", "Return { value: Void }"]
    );
}

#[test]
fn an_if_with_an_unknown_condition_jumps() {
    let code = lower("fn f(x: int): int { if (x < 2) { return 7; } else { return 8; }; };").unwrap();
    assert_eq!(
        code,
        vec![
            "FunctionLabel(\"f\")",
            "Param { p: \"f::x\" }",
            "Binary { dst: \"f::t1\", op: Lt, lhs: Var(\"f::x\"), rhs: Const(2) }",
            "JumpIfFalse { cond: Temp(\"f::t1\"), target: \"L2\" }",
            "Return { value: Const(7) }",
            "Jump(\"L1\")",
            "Label(\"L2\")",
            "Return { value: Const(8) }",
            "Label(\"L1\")",
            "Return { value: Void }",
        ]
    );
}

#[test]
fn struct_fields_are_aligned_in_the_layout() {
    let code = lower("struct P { a: char, b: int }; fn f(): int { return sizeof(P); };").unwrap();
    assert_eq!(code, vec!["FunctionLabel(\"f\")", "Return { value: Const(16) }"]);
}

#[test]
fn externs_are_declared_and_called() {
    let code = lower("extern fn puts(s: str): int; fn f() { puts(\"hi\"); };").unwrap();
    assert_eq!(
        code,
        vec![
            "Extern { fnname: \"puts\" }",
            "FunctionLabel(\"f\")",
            "Arg { value: Str(\"hi\") }",
            "Call { dest: None, name: \"puts\", argc: 1 }",
            "Return { value: Void }",
        ]
    );
}

#[test]
fn top_level_code_outside_functions_is_refused() {
    let err = lower("var x: int = 1;").unwrap_err();
    assert_eq!(err.message, "Codegen Error: top-level statement outside of a function is not supported.");
}

#[test]
fn a_break_outside_a_loop_is_an_internal_error() {
    let mut g = IRGen::new();
    let err = g.gen_stmt(&Stmt::Break { location: Location::new(1, 1, "t.mysz") }).unwrap_err();
    assert_eq!(err.message, "Internal compiler error: break statement unvalidated by semantic analyzer");
}

#[test]
fn constants_fold_where_they_can() {
    assert_eq!(fold_const(BinaryOp::Add, ConstVal::Int(2), ConstVal::Int(3)), Some(ConstVal::Int(5)));
    assert_eq!(fold_const(BinaryOp::Mod, ConstVal::Int(-7), ConstVal::Int(3)), Some(ConstVal::Int(-1)));
    assert_eq!(fold_const(BinaryOp::Div, ConstVal::Int(1), ConstVal::Int(0)), None);
    assert_eq!(fold_const(BinaryOp::Mul, ConstVal::Int(i64::MAX), ConstVal::Int(2)), None);
    assert_eq!(
        fold_const(BinaryOp::Eq, ConstVal::Str("a".to_string()), ConstVal::Str("a".to_string())),
        Some(ConstVal::Bool(true))
    );
    assert_eq!(fold_const(BinaryOp::And, ConstVal::Bool(true), ConstVal::Bool(false)), Some(ConstVal::Bool(false)));
    assert_eq!(fold_const(BinaryOp::Lt, ConstVal::Char('a'), ConstVal::Char('b')), None);
    assert_eq!(fold_const(BinaryOp::Eq, ConstVal::Int(1), ConstVal::Bool(true)), None);
}

#[test]
fn casts_convert_by_the_sizes_and_kinds_of_their_types() {
    assert_eq!(cast_kind(&Type::Int8, &Type::Int), CastType::Extend);
    assert_eq!(cast_kind(&Type::Int, &Type::UInt8), CastType::Truncate);
    assert_eq!(cast_kind(&Type::Char, &Type::Int), CastType::BitCast);
    assert_eq!(cast_kind(&Type::Int, &Type::Int), CastType::BitCast);
    assert_eq!(cast_kind(&Type::Float, &Type::Double), CastType::FloatExtend);
    assert_eq!(cast_kind(&Type::Double, &Type::Float), CastType::FloatTruncate);
    assert_eq!(cast_kind(&Type::Int, &Type::Double), CastType::IntToFloat);
    assert_eq!(cast_kind(&Type::Double, &Type::UInt), CastType::FloatToInt);
    assert_eq!(cast_kind(&Type::Ptr(Box::new(Type::Int)), &Type::Str), CastType::BitCast);
    assert!(matches!(Instruction::Jump("L".to_string()), Instruction::Jump(_)));
}

#[test]
fn string_concatenation_calls_str_concat() {
    let code = lower("fn f(): str { return \"Hello, \" + \"world!\"; };").unwrap();
    assert_eq!(
        code,
        vec![
            "FunctionLabel(\"f\")",
            "Arg { value: Str(\"Hello, \") }",
            "Arg { value: Str(\"world!\") }",
            "Call { dest: Some(\"f::t1\"), name: \"str_concat\", argc: 2 }",
            "Return { value: Temp(\"f::t1\") }",
        ]
    );
}

#[test]
fn the_readme_example_compiles() {
    let prog = program("extern fn print_int(a: int); fn main() { var x = 60; print_int(x); };");
    let (code, names) = mysz_core::compiler::compile_ast_program(&prog, "main.mysz", None).unwrap();
    assert!(names.is_empty());
    let text: Vec<String> = code.iter().map(|i| format!("{:?}", i)).collect();
    assert_eq!(
        text,
        vec![
            "Extern { fnname: \"print_int\" }",
            "FunctionLabel(\"main\")",
            "Assign { dst: \"main::x\", src: Const(60) }",
            "Arg { value: Var(\"main::x\") }",
            "Call { dest: None, name: \"print_int\", argc: 1 }",
            "Return { value: Void }",
        ]
    );
}

#[test]
fn a_generic_function_is_kept_until_it_is_called() {
    assert_eq!(lower("fn id<T>(a: T): T { return a; };").unwrap(), Vec::<String>::new());
}

#[test]
fn a_function_without_a_final_return_gets_one() {
    let code = lower("fn f(x: int) { var y: int = x; };").unwrap();
    assert_eq!(code.first().unwrap(), "FunctionLabel(\"f\")");
    assert_eq!(code[1], "Param { p: \"f::x\" }");
    assert_eq!(code.last().unwrap(), "Return { value: Void }");
}

#[test]
fn a_declaration_without_a_value_starts_at_zero() {
    let code = lower("fn f() { var z: bool; var n: int; };").unwrap();
    assert_eq!(code[1], "Assign { dst: \"f::z\", src: Bool(false) }");
    assert_eq!(code[2], "Assign { dst: \"f::n\", src: Const(0) }");
}

fn at() -> Location {
    Location::new(1, 1, "t.mysz")
}

fn int_expr(n: i64) -> Expr {
    Expr { kind: ExprKind::Literal(Literal::Int(n)), span: at() }
}

fn ret(n: i64) -> Stmt {
    Stmt::Return { value: Some(int_expr(n)), span: at() }
}

fn lower_program(prog: &Program) -> Vec<String> {
    let mut g = IRGen::new();
    g.gen_program(prog).unwrap();
    g.code.iter().map(|i| format!("{:?}", i)).collect()
}

#[test]
fn an_if_with_else_if_branches_chains_its_conditions() {
    let mut prog = program("fn f(c: bool, d: bool): int { if (c) { return 1; } else { return 3; }; };");
    if let Stmt::Function { body, .. } = &mut prog.statements[0] {
        if let Stmt::If { else_if_branches, .. } = &mut body[0] {
            else_if_branches.push((Expr { kind: ExprKind::Identifier("d".to_string()), span: at() }, vec![ret(2)]));
        }
    }
    assert_eq!(
        lower_program(&prog),
        vec![
            "FunctionLabel(\"f\")",
            "Param { p: \"f::c\" }",
            "Param { p: \"f::d\" }",
            "JumpIfFalse { cond: Var(\"f::c\"), target: \"L2\" }",
            "Return { value: Const(1) }",
            "Jump(\"L1\")",
            "Label(\"L2\")",
            "JumpIfFalse { cond: Var(\"f::d\"), target: \"L3\" }",
            "Return { value: Const(2) }",
            "Jump(\"L1\")",
            "Label(\"L3\")",
            "Return { value: Const(3) }",
            "Label(\"L1\")",
            "Return { value: Void }",
        ]
    );
}

#[test]
fn a_break_leaves_the_innermost_loop() {
    let mut prog = program("fn f(a: bool, b: bool) { while (a) { while (b) { }; }; };");
    if let Stmt::Function { body, .. } = &mut prog.statements[0] {
        if let Stmt::While { body: outer, .. } = &mut body[0] {
            if let Stmt::While { body: inner, .. } = &mut outer[0] {
                inner.push(Stmt::Break { location: at() });
            }
        }
    }
    assert_eq!(
        lower_program(&prog),
        vec![
            "FunctionLabel(\"f\")",
            "Param { p: \"f::a\" }",
            "Param { p: \"f::b\" }",
            "Label(\"L1\")",
            "JumpIfFalse { cond: Var(\"f::a\"), target: \"L2\" }",
            "Label(\"L3\")",
            "JumpIfFalse { cond: Var(\"f::b\"), target: \"L4\" }",
            "Jump(\"L4\")",
            "Jump(\"L3\")",
            "Label(\"L4\")",
            "Jump(\"L1\")",
            "Label(\"L2\")",
            "Return { value: Void }",
        ]
    );
}

#[test]
fn a_loop_on_a_literal_condition_tests_it_in_place() {
    let mut g = IRGen::new();
    let stmt = Stmt::While { cond: Expr { kind: ExprKind::Literal(Literal::Bool(true)), span: at() }, body: vec![] };
    g.gen_stmt(&stmt).unwrap();
    let code: Vec<String> = g.code.iter().map(|i| format!("{:?}", i)).collect();
    assert_eq!(
        code,
        vec![
            "Label(\"L1\")",
            "JumpIfFalse { cond: Bool(true), target: \"L2\" }",
            "Jump(\"L1\")",
            "Label(\"L2\")",
        ]
    );
}

#[test]
fn an_enum_numbers_its_variants_and_emits_no_code() {
    let mut g = IRGen::new();
    let id = |v: &str| Identifier { value: v.to_string(), location: at() };
    g.gen_stmt(&Stmt::Constant { name: id("K"), vtype: None, expr: int_expr(5) }).unwrap();
    g.gen_stmt(&Stmt::Enum { name: id("Color"), options: vec![id("Red"), id("Green"), id("Blue")] }).unwrap();
    assert!(g.code.is_empty());
    let variants: Vec<(String, i64)> =
        g.enum_defs.get("Color").unwrap().iter().map(|(k, v)| (k.clone(), *v)).collect();
    assert_eq!(variants, vec![("Red".to_string(), 0), ("Green".to_string(), 1), ("Blue".to_string(), 2)]);
}

#[test]
fn subtraction_keeps_its_operands_in_order() {
    let code = lower("fn main(): int { return 5 - 2; };").unwrap();
    assert_eq!(code[1], "Binary { dst: \"main::t1\", op: Sub, lhs: Const(5), rhs: Const(2) }");
}

#[test]
fn integer_division_folds_unless_it_divides_by_zero() {
    let g = IRGen::new();
    let div = |a: i64, b: i64| Expr {
        kind: ExprKind::Binary { left: Box::new(int_expr(a)), op: BinaryOp::Div, right: Box::new(int_expr(b)) },
        span: at(),
    };
    assert_eq!(g.eval_const(&div(7, 0)), None);
    assert_eq!(g.eval_const(&div(7, 2)), Some(ConstVal::Int(3)));
}

#[test]
fn call_arguments_are_passed_in_order() {
    let code = lower("fn g(a: int, b: int): int { return a; }; fn main(): int { return g(1, 2); };").unwrap();
    let k = code.iter().position(|c| c == "Arg { value: Const(1) }").unwrap();
    assert_eq!(code[k + 1], "Arg { value: Const(2) }");
    assert_eq!(code[k + 2], "Call { dest: Some(\"main::t1\"), name: \"g\", argc: 2 }");
}

#[test]
fn negating_a_literal_is_one_unary_instruction() {
    let mut g = IRGen::new();
    let e = Expr { kind: ExprKind::Unary { op: UnaryOp::Negative, expr: Box::new(int_expr(5)) }, span: at() };
    let v = g.gen_expr(&e, None).unwrap();
    assert_eq!(format!("{:?}", v), "Temp(\"t1\")");
    let code: Vec<String> = g.code.iter().map(|i| format!("{:?}", i)).collect();
    assert_eq!(code, vec!["Unary { dst: \"t1\", op: Neg, value: Const(5) }"]);
}

fn ident(n: &str) -> Expr {
    Expr { kind: ExprKind::Identifier(n.to_string()), span: at() }
}

fn code_of(g: &IRGen) -> Vec<String> {
    g.code.iter().map(|i| format!("{:?}", i)).collect()
}

#[test]
fn a_top_level_if_chain_lowers_to_labels_and_jumps() {
    let mut g = IRGen::new();
    let s = Stmt::If {
        cond: ident("c"),
        then_branch: vec![ret(1)],
        else_if_branches: vec![(ident("d"), vec![ret(2)])],
        else_branch: Some(vec![ret(3)]),
    };
    g.gen_stmt(&s).unwrap();
    assert_eq!(
        code_of(&g),
        vec![
            "JumpIfFalse { cond: Var(\"c\"), target: \"L2\" }",
            "Return { value: Const(1) }",
            "Jump(\"L1\")",
            "Label(\"L2\")",
            "JumpIfFalse { cond: Var(\"d\"), target: \"L3\" }",
            "Return { value: Const(2) }",
            "Jump(\"L1\")",
            "Label(\"L3\")",
            "Return { value: Const(3) }",
            "Label(\"L1\")",
        ]
    );
}

#[test]
fn a_top_level_nested_loop_breaks_to_its_own_exit() {
    let mut g = IRGen::new();
    let inner = Stmt::While { cond: ident("b"), body: vec![Stmt::Break { location: at() }] };
    let s = Stmt::While { cond: ident("a"), body: vec![inner] };
    g.gen_stmt(&s).unwrap();
    assert_eq!(
        code_of(&g),
        vec![
            "Label(\"L1\")",
            "JumpIfFalse { cond: Var(\"a\"), target: \"L2\" }",
            "Label(\"L3\")",
            "JumpIfFalse { cond: Var(\"b\"), target: \"L4\" }",
            "Jump(\"L4\")",
            "Jump(\"L3\")",
            "Label(\"L4\")",
            "Jump(\"L1\")",
            "Label(\"L2\")",
        ]
    );
}

#[test]
fn concatenating_two_literals_calls_str_concat_into_t1() {
    let mut g = IRGen::new();
    let s = |x: &str| Box::new(Expr { kind: ExprKind::Literal(Literal::String(x.to_string())), span: at() });
    let e = Expr { kind: ExprKind::Binary { left: s("Hello, "), op: BinaryOp::Add, right: s("world!") }, span: at() };
    let v = g.gen_expr(&e, None).unwrap();
    assert_eq!(format!("{:?}", v), "Temp(\"t1\")");
    assert_eq!(
        code_of(&g),
        vec![
            "Arg { value: Str(\"Hello, \") }",
            "Arg { value: Str(\"world!\") }",
            "Call { dest: Some(\"t1\"), name: \"str_concat\", argc: 2 }",
        ]
    );
    assert_eq!(g.var_types.get("t1"), Some(&Type::Str));
}

#[test]
fn a_function_body_of_loops_is_lowered_between_its_label_and_return() {
    let mut g = IRGen::new();
    let inner = Stmt::While { cond: ident("b"), body: vec![Stmt::Break { location: at() }] };
    let f = Stmt::Function {
        name: Identifier { value: "f".to_string(), location: at() },
        public: false,
        rttype: None,
        generic_params: vec![],
        params: vec![],
        body: vec![Stmt::While { cond: ident("a"), body: vec![inner] }],
    };
    g.gen_stmt(&f).unwrap();
    assert_eq!(
        code_of(&g),
        vec![
            "FunctionLabel(\"f\")",
            "Label(\"L1\")",
            "JumpIfFalse { cond: Var(\"a\"), target: \"L2\" }",
            "Label(\"L3\")",
            "JumpIfFalse { cond: Var(\"b\"), target: \"L4\" }",
            "Jump(\"L4\")",
            "Jump(\"L3\")",
            "Label(\"L4\")",
            "Jump(\"L1\")",
            "Label(\"L2\")",
            "Return { value: Void }",
        ]
    );
    assert_eq!(g.var_types.get("f"), Some(&Type::Void));
}

#[test]
fn a_function_with_a_typed_parameter_lowers_its_body_over_the_parameter() {
    let mut g = IRGen::new();
    let param = Parameter {
        name: Identifier { value: "a".to_string(), location: at() },
        ptype: Some(Type::Int),
        is_variadic: false,
    };
    let ret_a = Stmt::Return { value: Some(ident("a")), span: at() };
    let f = Stmt::Function {
        name: Identifier { value: "f".to_string(), location: at() },
        public: false,
        rttype: Some(Type::Int),
        generic_params: vec![],
        params: vec![param],
        body: vec![Stmt::While { cond: ident("a"), body: vec![ret_a] }],
    };
    g.gen_stmt(&f).unwrap();
    assert_eq!(
        code_of(&g),
        vec![
            "FunctionLabel(\"f\")",
            "Param { p: \"f::a\" }",
            "Label(\"L1\")",
            "JumpIfFalse { cond: Var(\"f::a\"), target: \"L2\" }",
            "Return { value: Var(\"f::a\") }",
            "Jump(\"L1\")",
            "Label(\"L2\")",
            "Return { value: Void }",
        ]
    );
    assert_eq!(g.var_types.get("f"), Some(&Type::Int));
}

#[test]
fn a_reassignment_of_a_variable_assigns_that_variable_in_order() {
    let mut g = IRGen::new();
    let s = Stmt::Reassignment { ident: Identifier { value: "x".to_string(), location: at() }, expr: ident("y") };
    g.gen_stmt(&s).unwrap();
    assert_eq!(code_of(&g), vec!["Assign { dst: \"::x\", src: Var(\"y\") }"]);
}

#[test]
fn a_subtraction_keeps_its_operands_in_order() {
    let mut g = IRGen::new();
    let e = Expr {
        kind: ExprKind::Binary { left: Box::new(ident("a")), op: BinaryOp::Sub, right: Box::new(ident("b")) },
        span: at(),
    };
    let v = g.gen_expr(&e, None).unwrap();
    assert_eq!(format!("{:?}", v), "Temp(\"t1\")");
    assert_eq!(code_of(&g), vec!["Binary { dst: \"t1\", op: Sub, lhs: Var(\"a\"), rhs: Var(\"b\") }"]);
}

#[test]
fn a_pack_of_an_int_and_a_bool_is_laid_out_aligned() {
    let mut g = IRGen::new();
    let f = Stmt::Function {
        name: Identifier { value: "v".to_string(), location: at() },
        public: false,
        rttype: None,
        generic_params: vec![],
        params: vec![Parameter {
            name: Identifier { value: "xs".to_string(), location: at() },
            ptype: None,
            is_variadic: true,
        }],
        body: vec![],
    };
    g.gen_stmt(&f).unwrap();
    let lit = |l: Literal| Expr { kind: ExprKind::Literal(l), span: at() };
    let call = Expr {
        kind: ExprKind::Call {
            callee: Identifier { value: "v".to_string(), location: at() },
            generic_args: vec![],
            args: vec![lit(Literal::Int(1)), lit(Literal::Bool(true))],
        },
        span: at(),
    };
    g.gen_expr(&call, None).unwrap();
    let packs: Vec<_> = g.struct_defs.entries.iter().filter(|e| e.0.starts_with("__variadic__")).collect();
    assert_eq!(packs.len(), 1);
    let layout = &packs[0].1;
    let fields: Vec<(String, i64, String)> =
        layout.field_offsets.iter().map(|(k, v)| (k.clone(), v.0, format!("{:?}", v.1))).collect();
    assert_eq!(
        fields,
        vec![
            ("i0".to_string(), 0, "Int".to_string()),
            ("i1".to_string(), 8, "Bool".to_string()),
            ("il".to_string(), 16, "Int".to_string()),
        ]
    );
    assert_eq!(layout.alignment, 8);
    assert_eq!(layout.total_size, 24);
}

#[test]
fn the_arguments_of_a_call_are_passed_in_order() {
    let mut g = IRGen::new();
    let call = Expr {
        kind: ExprKind::Call {
            callee: Identifier { value: "f".to_string(), location: at() },
            generic_args: vec![],
            args: vec![ident("a"), ident("b"), Expr { kind: ExprKind::Literal(Literal::Int(3)), span: at() }],
        },
        span: at(),
    };
    g.gen_expr(&call, None).unwrap();
    let code = code_of(&g);
    assert_eq!(
        code[..3].to_vec(),
        vec!["Arg { value: Var(\"a\") }", "Arg { value: Var(\"b\") }", "Arg { value: Const(3) }"]
    );
    assert!(code[3].starts_with("Call { dest: Some(\"t1\"), name: \"f\", argc: 3"));
}

#[test]
fn a_program_of_functions_lowers_to_each_function_in_turn_with_labels_counted_on() {
    let code = lower("fn f(a: int) { while (1) { return 2; }; }; fn g(): int { while (1) { return 3; }; return 4; };").unwrap();
    assert_eq!(
        code,
        vec![
            "FunctionLabel(\"f\")",
            "Param { p: \"f::a\" }",
            "Label(\"L1\")",
            "JumpIfFalse { cond: Const(1), target: \"L2\" }",
            "Return { value: Const(2) }",
            "Jump(\"L1\")",
            "Label(\"L2\")",
            "Return { value: Void }",
            "FunctionLabel(\"g\")",
            "Label(\"L3\")",
            "JumpIfFalse { cond: Const(1), target: \"L4\" }",
            "Return { value: Const(3) }",
            "Jump(\"L3\")",
            "Label(\"L4\")",
            "Return { value: Const(4) }",
        ]
    );
}
