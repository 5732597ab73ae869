use mysz_core::lexing::lexer::Lexer;
use mysz_core::parse::parser::{tokens_are_ok, Parser};
use mysz_core::lexing::lexing::{Token, TokenType};
use mysz_core::utils::location::Location;
use mysz_core::parse::parsing::{
    BinaryOp, Expr, ExprKind, Literal, ParserErrorType, Stmt, Type, UnaryOp,
};

fn parse(src: &str) -> Parser {
    let mut lx = Lexer::with_file(src.to_string(), "t.mysz");
    assert!(lx.lex().is_ok());
    let mut p = Parser::new(lx.tokens);
    p.parse();
    assert_eq!(p.token_idx, p.tokens.len());
    p
}

fn int_of(e: &Expr) -> i64 {
    match &e.kind {
        ExprKind::Literal(Literal::Int(n)) => *n,
        other => panic!("not an integer literal: {:?}", other),
    }
}

fn name_of(e: &Expr) -> &str {
    match &e.kind {
        ExprKind::Identifier(n) => n.as_str(),
        other => panic!("not a name: {:?}", other),
    }
}

#[test]
fn multiplication_binds_tighter_than_addition() {
    let p = parse("var x: int = 1 + 2 * 3;");
    assert!(p.parser_errs.is_empty());
    assert_eq!(p.ast.statements.len(), 1);
    match &p.ast.statements[0] {
        Stmt::Assignment { ident, vtype, expr } => {
            assert_eq!(ident.value, "x");
            assert_eq!(vtype, &Some(Type::Int));
            let e = expr.as_ref().unwrap();
            match &e.kind {
                ExprKind::Binary { left, op, right } => {
                    assert_eq!(*op, BinaryOp::Add);
                    assert_eq!(int_of(left), 1);
                    match &right.kind {
                        ExprKind::Binary { left, op, right } => {
                            assert_eq!(*op, BinaryOp::Mul);
                            assert_eq!(int_of(left), 2);
                            assert_eq!(int_of(right), 3);
                        }
                        other => panic!("{:?}", other),
                    }
                }
                other => panic!("{:?}", other),
            }
        }
        other => panic!("{:?}", other),
    }
}

#[test]
fn operators_associate_to_the_left() {
    let p = parse("var v = a - b - c < d == e;");
    assert!(p.parser_errs.is_empty());
    match &p.ast.statements[0] {
        Stmt::Assignment { expr: Some(e), .. } => match &e.kind {
            ExprKind::Binary { left, op: BinaryOp::Eq, right } => {
                assert_eq!(name_of(right), "e");
                match &left.kind {
                    ExprKind::Binary { left, op: BinaryOp::Lt, .. } => match &left.kind {
                        ExprKind::Binary { left, op: BinaryOp::Sub, right } => {
                            assert_eq!(name_of(right), "c");
                            assert!(matches!(left.kind, ExprKind::Binary { op: BinaryOp::Sub, .. }));
                        }
                        other => panic!("{:?}", other),
                    },
                    other => panic!("{:?}", other),
                }
            }
            other => panic!("{:?}", other),
        },
        other => panic!("{:?}", other),
    }
}

#[test]
fn parses_a_public_function() {
    let p = parse("fn pub add(a: int, b: int): int { return a + b; };");
    assert!(p.parser_errs.is_empty());
    match &p.ast.statements[0] {
        Stmt::Function { name, public, rttype, generic_params, params, body } => {
            assert_eq!(name.value, "add");
            assert!(*public);
            assert_eq!(rttype, &Some(Type::Int));
            assert!(generic_params.is_empty());
            assert_eq!(params.len(), 2);
            assert_eq!(params[1].name.value, "b");
            assert_eq!(params[1].ptype, Some(Type::Int));
            assert_eq!(body.len(), 1);
            assert!(matches!(body[0], Stmt::Return { value: Some(_), .. }));
        }
        other => panic!("{:?}", other),
    }
}

#[test]
fn parses_generic_declarations_and_types() {
    let p = parse("struct Pair<A, B> { a: A, b: B }; var q: [int; 3]; var r: Pair<int, ptr<char>>;");
    assert!(p.parser_errs.is_empty());
    match &p.ast.statements[0] {
        Stmt::Struct { name, generic_params, fields } => {
            assert_eq!(name.value, "Pair");
            assert_eq!(generic_params, &vec!["A".to_string(), "B".to_string()]);
            assert_eq!(fields.len(), 2);
            assert_eq!(fields[0].ptype, Some(Type::Struct("A".to_string())));
        }
        other => panic!("{:?}", other),
    }
    match &p.ast.statements[1] {
        Stmt::Assignment { vtype, expr, .. } => {
            assert_eq!(vtype, &Some(Type::Array { element_type: Box::new(Type::Int), size: 3 }));
            assert!(expr.is_none());
        }
        other => panic!("{:?}", other),
    }
    match &p.ast.statements[2] {
        Stmt::Assignment { vtype, .. } => assert_eq!(
            vtype,
            &Some(Type::GenericInstance {
                name: "Pair".to_string(),
                args: vec![Type::Int, Type::Ptr(Box::new(Type::Char))]
            })
        ),
        other => panic!("{:?}", other),
    }
}

#[test]
fn parses_control_flow() {
    let p = parse(
        "if (x < 1) { y = 2; } else { y = 3; }; while (x) { x = x - 1; }; for (var i = 0; i < 3; i = i + 1) { };",
    );
    assert!(p.parser_errs.is_empty());
    match &p.ast.statements[0] {
        Stmt::If { then_branch, else_if_branches, else_branch, .. } => {
            assert_eq!(then_branch.len(), 1);
            assert!(else_if_branches.is_empty());
            assert_eq!(else_branch.as_ref().unwrap().len(), 1);
            assert!(matches!(then_branch[0], Stmt::Reassignment { .. }));
        }
        other => panic!("{:?}", other),
    }
    assert!(matches!(p.ast.statements[1], Stmt::While { .. }));
    match &p.ast.statements[2] {
        Stmt::For { init, step, body, .. } => {
            assert!(matches!(**init, Stmt::Assignment { .. }));
            assert!(matches!(**step, Stmt::Reassignment { .. }));
            assert!(body.is_empty());
        }
        other => panic!("{:?}", other),
    }
}

#[test]
fn parses_postfix_and_literal_forms() {
    let p = parse(
        "f(1, 2)[0].g; id::<int>(5); var s = Point { x: 1, y: 2 }; var a = [1, 2]; var n = sizeof(ptr<int>); ^p = 3; a[0] = 5; var c = -'z'; var t = \"s\";",
    );
    assert!(p.parser_errs.is_empty());
    let st = &p.ast.statements;
    match &st[0] {
        Stmt::Expr(e) => match &e.kind {
            ExprKind::Field { base, field } => {
                assert_eq!(field, "g");
                match &base.kind {
                    ExprKind::Index { base, index } => {
                        assert_eq!(int_of(index), 0);
                        match &base.kind {
                            ExprKind::Call { callee, args, generic_args } => {
                                assert_eq!(callee.value, "f");
                                assert_eq!(args.len(), 2);
                                assert!(generic_args.is_empty());
                            }
                            other => panic!("{:?}", other),
                        }
                    }
                    other => panic!("{:?}", other),
                }
            }
            other => panic!("{:?}", other),
        },
        other => panic!("{:?}", other),
    }
    match &st[1] {
        Stmt::Expr(e) => match &e.kind {
            ExprKind::Call { callee, generic_args, args } => {
                assert_eq!(callee.value, "id");
                assert_eq!(generic_args, &vec![Type::Int]);
                assert_eq!(int_of(&args[0]), 5);
            }
            other => panic!("{:?}", other),
        },
        other => panic!("{:?}", other),
    }
    match &st[2] {
        Stmt::Assignment { expr: Some(e), .. } => match &e.kind {
            ExprKind::StructLiteral { struct_name, fields, .. } => {
                assert_eq!(struct_name, "Point");
                assert_eq!(fields.len(), 2);
                assert_eq!(fields[1].0, "y");
            }
            other => panic!("{:?}", other),
        },
        other => panic!("{:?}", other),
    }
    match &st[3] {
        Stmt::Assignment { expr: Some(e), .. } => match &e.kind {
            ExprKind::Literal(Literal::Arr { elements }) => assert_eq!(elements.len(), 2),
            other => panic!("{:?}", other),
        },
        other => panic!("{:?}", other),
    }
    match &st[4] {
        Stmt::Assignment { expr: Some(e), .. } => {
            assert_eq!(e.kind, ExprKind::Sizeof { ty: Type::Ptr(Box::new(Type::Int)) })
        }
        other => panic!("{:?}", other),
    }
    match &st[5] {
        Stmt::DerefReassignment { target, expr } => {
            assert!(matches!(target.kind, ExprKind::Unary { op: UnaryOp::Deref, .. }));
            assert_eq!(int_of(expr), 3);
        }
        other => panic!("{:?}", other),
    }
    assert!(matches!(&st[6], Stmt::DerefReassignment { target, .. } if matches!(target.kind, ExprKind::Index { .. })));
    match &st[7] {
        Stmt::Assignment { expr: Some(e), .. } => match &e.kind {
            ExprKind::Unary { op: UnaryOp::Negative, expr } => {
                assert_eq!(expr.kind, ExprKind::Literal(Literal::Char('z')))
            }
            other => panic!("{:?}", other),
        },
        other => panic!("{:?}", other),
    }
    match &st[8] {
        Stmt::Assignment { expr: Some(e), .. } => {
            assert_eq!(e.kind, ExprKind::Literal(Literal::String("s".to_string())))
        }
        other => panic!("{:?}", other),
    }
}

#[test]
fn parses_use_and_extern() {
    let p = parse("use std::io; extern fn puts(s: str): int;");
    assert!(p.parser_errs.is_empty());
    match &p.ast.statements[0] {
        Stmt::Use { path } => assert_eq!(path, &vec!["std".to_string(), "io".to_string()]),
        other => panic!("{:?}", other),
    }
    match &p.ast.statements[1] {
        Stmt::Extern { name, rttype, params, .. } => {
            assert_eq!(name.value, "puts");
            assert_eq!(rttype, &Some(Type::Int));
            assert_eq!(params[0].ptype, Some(Type::Str));
        }
        other => panic!("{:?}", other),
    }
}

#[test]
fn a_missing_semicolon_is_reported_at_the_last_token() {
    let p = parse("var x = 1");
    assert_eq!(p.ast.statements.len(), 1);
    assert_eq!(p.parser_errs.len(), 1);
    let e = &p.parser_errs[0];
    assert_eq!(e.etype, ParserErrorType::MalformedStatementError);
    assert_eq!(e.message, "Statement did not finish with semicolon ';'");
    assert_eq!((e.location.line, e.location.col), (0, 8));
    assert_eq!(
        e.to_text(),
        "! Parser Error :li = 0, co = 8: MalformedStatementError: Statement did not finish with semicolon ';'"
    );
}

#[test]
fn an_unexpected_token_is_named_in_the_error() {
    let p = parse("var x = 1 )");
    assert_eq!(p.parser_errs.len(), 4);
    assert_eq!(p.parser_errs[0].etype, ParserErrorType::UnexpectedTokenTypeError);
    assert_eq!(p.parser_errs[0].message, "Expected SemiColon, found RParen '\")\"'");
    assert_eq!(p.parser_errs[1].etype, ParserErrorType::MalformedStatementError);
}

#[test]
fn a_bad_expression_start_is_reported() {
    let p = parse("var y = ;");
    assert!(p.parser_errs.is_empty());
    let p = parse("var y = ,;");
    assert_eq!(p.parser_errs[0].message, "Unexpected token in expression: Comma");
    let p = parse("a.b(1);");
    assert_eq!(p.parser_errs[0].message, "Expected function name before parenthesis");
    let p = parse("use a::;");
    assert_eq!(p.parser_errs[0].message, "Expected identifier in use path, found Some(SemiColon)");
}

#[test]
fn a_statement_starting_with_a_name_reads_only_a_postfix_expression() {
    let p = parse("a - b;");
    assert!(matches!(p.ast.statements[0], Stmt::Expr(ref e) if name_of(e) == "a"));
    assert_eq!(p.parser_errs[0].message, "Expected SemiColon, found Minus '\"-\"'");
}

#[test]
fn an_empty_token_list_parses_to_nothing() {
    let mut p = Parser::new(Vec::new());
    p.parse();
    assert!(p.ast.statements.is_empty());
    assert!(p.parser_errs.is_empty());
}

#[test]
fn small_statements_read_as_their_kinds() {
    let p = parse("use a; struct S { }; fn f() { }; while (1) { }; break;");
    assert!(p.parser_errs.is_empty(), "{:?}", p.parser_errs);
    match &p.ast.statements[0] {
        Stmt::Use { path } => assert_eq!(path, &vec!["a".to_string()]),
        other => panic!("not a use: {:?}", other),
    }
    match &p.ast.statements[1] {
        Stmt::Struct { name, fields, .. } => {
            assert_eq!(name.value, "S");
            assert!(fields.is_empty());
        }
        other => panic!("not a struct: {:?}", other),
    }
    match &p.ast.statements[2] {
        Stmt::Function { name, public, params, body, .. } => {
            assert_eq!(name.value, "f");
            assert!(!public);
            assert!(params.is_empty() && body.is_empty());
        }
        other => panic!("not a function: {:?}", other),
    }
    assert!(matches!(p.ast.statements[3], Stmt::While { .. }));
    match &p.ast.statements[4] {
        Stmt::Expr(e) => assert_eq!(name_of(e), "break"),
        other => panic!("not an expression: {:?}", other),
    }
}

#[test]
fn tokens_whose_literals_read_are_accepted() {
    let mut lx = Lexer::with_file("x == 10".to_string(), "t.mysz");
    assert!(lx.lex().is_ok());
    assert!(tokens_are_ok(&lx.tokens));
    let too_big = Token {
        ttype: TokenType::IntLiteral,
        location: Location::new(1, 1, "t.mysz"),
        value: "99999999999999999999".to_string(),
    };
    assert!(!tokens_are_ok(&vec![too_big]));
    let empty_char = Token { ttype: TokenType::CharLiteral, location: Location::new(1, 1, "t.mysz"), value: String::new() };
    assert!(!tokens_are_ok(&vec![empty_char]));
}

#[test]
fn declarations_of_empty_functions_parse_to_those_functions_in_order() {
    let mut lx = mysz_core::lexing::lexer::Lexer::with_file("fn a() { }; fn b() { };".to_string(), "t.mysz");
    assert!(lx.lex().is_ok());
    let mut p = mysz_core::parse::parser::Parser::new(lx.tokens);
    p.parse();
    assert!(p.parser_errs.is_empty());
    let names: Vec<String> = p
        .ast
        .statements
        .iter()
        .map(|s| match s {
            mysz_core::parse::parsing::Stmt::Function { name, params, body, rttype, generic_params, .. } => {
                assert!(params.is_empty() && body.is_empty() && rttype.is_none() && generic_params.is_empty());
                name.value.clone()
            }
            _ => panic!("not a function"),
        })
        .collect();
    assert_eq!(names, vec!["a".to_string(), "b".to_string()]);
}

fn shape(e: &Expr) -> String {
    match &e.kind {
        ExprKind::Literal(Literal::Int(v)) => v.to_string(),
        ExprKind::Identifier(n) => n.clone(),
        ExprKind::Binary { left, op, right } => format!("({:?} {} {})", op, shape(left), shape(right)),
        _ => "?".to_string(),
    }
}

fn statement_shape(src: &str) -> String {
    let p = parse(src);
    assert!(p.parser_errs.is_empty());
    assert_eq!(p.ast.statements.len(), 1);
    match &p.ast.statements[0] {
        Stmt::Expr(e) => shape(e),
        _ => panic!("not an expression statement"),
    }
}

#[test]
fn a_product_binds_tighter_than_a_sum_on_either_side() {
    assert_eq!(statement_shape("1 + 2 * 3;"), "(Add 1 (Mul 2 3))");
    assert_eq!(statement_shape("1 * 2 + 3;"), "(Add (Mul 1 2) 3)");
}

#[test]
fn operators_of_one_level_group_to_the_left() {
    assert_eq!(statement_shape("1 - 2 - 3;"), "(Sub (Sub 1 2) 3)");
    assert_eq!(statement_shape("8 / 4 % 3;"), "(Mod (Div 8 4) 3)");
}

#[test]
fn comparison_and_equality_are_looser_than_arithmetic() {
    assert_eq!(statement_shape("1 + a < b * 2 == c;"), "(Eq (Lt (Add 1 a) (Mul b 2)) c)");
}
