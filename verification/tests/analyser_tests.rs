use mysz_core::parse::parsing::BinaryOp;
use mysz_core::parse::parsing::UnaryOp;
use mysz_core::semantics::analyser::binary_result;
use mysz_core::semantics::analyser::unary_result;
use indexmap::IndexMap;
use mysz_core::parse::parsing::{Expr, ExprKind, Identifier, Literal, Parameter, Program, Stmt, Type};
use mysz_core::utils::typesafe::TypeCheckMode;
use mysz_core::semantics::analyser::{contains_generic_param, Analyser, AnalyserError};
use mysz_core::utils::location::Location;
use mysz_core::utils::strmap::StrMap;

fn loc(line: usize, col: usize) -> Location {
    Location::new(line, col, "a.mysz")
}

#[test]
fn inner_scopes_shadow_and_closing_restores() {
    let mut a = Analyser::new();
    assert!(a.declare_variable("x", Type::Int, loc(0, 0)).is_ok());
    a.enter_scope();
    assert_eq!(a.resolve_variable("x").map(|s| &s.ty), Some(&Type::Int));
    assert!(a.declare_variable("x", Type::Str, loc(1, 0)).is_ok());
    assert_eq!(a.resolve_variable("x").map(|s| &s.ty), Some(&Type::Str));
    a.leave_scope();
    assert_eq!(a.resolve_variable("x").map(|s| &s.ty), Some(&Type::Int));
    assert!(a.resolve_variable("y").is_none());
    assert_eq!(a.scopes.len(), 1);
}

#[test]
fn redeclaring_in_one_scope_is_an_error() {
    let mut a = Analyser::new();
    assert!(a.declare_variable("x", Type::Int, loc(0, 0)).is_ok());
    match a.declare_variable("x", Type::Bool, loc(2, 3)) {
        Err(AnalyserError::SemanticError { location, message }) => {
            assert_eq!(message, "Semantic Error: Variable 'x' already declared in this scope.");
            assert_eq!((location.line, location.col), (2, 3));
        }
        other => panic!("{:?}", other),
    }
    assert_eq!(a.resolve_variable("x").map(|s| &s.ty), Some(&Type::Int));
}

#[test]
fn declarations_made_twice_are_refused() {
    let mut a = Analyser::new();
    assert!(a.declare_enum("Color", vec!["Red".to_string()], loc(1, 1)).is_ok());
    match a.declare_enum("Color", vec![], loc(5, 5)) {
        Err(AnalyserError::OverDefinitionError { location, message }) => {
            assert_eq!(message, "Enum 'Color' is already defined at [li = 1, co = 1]");
            assert_eq!((location.line, location.col), (1, 1));
        }
        other => panic!("{:?}", other),
    }
    assert!(a.declare_struct("S", vec![], IndexMap::new(), loc(2, 0)).is_ok());
    match a.declare_struct("S", vec![], IndexMap::new(), loc(9, 9)) {
        Err(AnalyserError::OverDefinitionError { location, message }) => {
            assert_eq!(message, "Struct 'S' is already defined at [li = 2, co = 0]");
            assert_eq!((location.line, location.col), (9, 9));
        }
        other => panic!("{:?}", other),
    }
    let f = |a: &mut Analyser, dupe: bool, line: usize| {
        a.declare_function("f", vec![], true, vec![Type::Int], false, None, Type::Void, loc(line, 0), dupe)
    };
    assert!(f(&mut a, false, 3).is_ok());
    match f(&mut a, false, 4) {
        Err(AnalyserError::SemanticError { message, .. }) => {
            assert_eq!(message, "Semantic Error: Function 'f' is already defined at [li = 3, co = 0]")
        }
        other => panic!("{:?}", other),
    }
    assert!(f(&mut a, true, 7).is_ok());
    assert_eq!(a.resolve_function("f").unwrap().location.line, 7);
    assert!(a.resolve_function("g").is_none());
}

#[test]
fn unknown_type_names_are_reported() {
    let mut a = Analyser::new();
    assert!(a.declare_struct("S", vec![], IndexMap::new(), loc(0, 0)).is_ok());
    assert!(a.validate_type_exists(&Type::Ptr(Box::new(Type::Struct("S".to_string()))), &loc(1, 1)).is_ok());
    match a.validate_type_exists(&Type::Array { element_type: Box::new(Type::Struct("T".to_string())), size: 2 }, &loc(1, 1)) {
        Err(AnalyserError::SemanticError { message, .. }) => {
            assert_eq!(message, "Semantic Error: Type 'T' is used here but never defined.")
        }
        other => panic!("{:?}", other),
    }
    match a.validate_type_exists(&Type::GenericInstance { name: "G".to_string(), args: vec![] }, &loc(1, 1)) {
        Err(AnalyserError::SemanticError { message, .. }) => {
            assert_eq!(message, "Semantic Error: Generic Struct 'G' is used here but never defined.")
        }
        other => panic!("{:?}", other),
    }
    a.current_generic_params.push("T".to_string());
    assert!(a.validate_type_exists(&Type::Struct("T".to_string()), &loc(1, 1)).is_ok());
}

#[test]
fn generic_instances_become_mangled_structs() {
    let mut a = Analyser::new();
    let mut fields = IndexMap::new();
    fields.insert("value".to_string(), Type::GenericParam("T".to_string()));
    fields.insert("next".to_string(), Type::Ptr(Box::new(Type::Struct("T".to_string()))));
    assert!(a.declare_struct("Box", vec!["T".to_string()], fields, loc(0, 0)).is_ok());
    let ty = Type::Ptr(Box::new(Type::GenericInstance { name: "Box".to_string(), args: vec![Type::Int] }));
    let inst = a.instantiate_generic_types(&ty, &loc(3, 4)).unwrap();
    assert_eq!(inst, Type::Ptr(Box::new(Type::Struct("Box__int".to_string()))));
    let sig = a.structs.get("Box__int").unwrap();
    assert_eq!(sig.fields.get("value"), Some(&Type::Int));
    assert_eq!(sig.fields.get("next"), Some(&Type::Ptr(Box::new(Type::Int))));
    assert_eq!(sig.location.line, 3);
    let open = Type::GenericInstance { name: "Box".to_string(), args: vec![Type::GenericParam("U".to_string())] };
    assert_eq!(a.instantiate_generic_types(&open, &loc(0, 0)).unwrap(), open);
    match a.instantiate_generic_types(&Type::GenericInstance { name: "Box".to_string(), args: vec![Type::Int, Type::Int] }, &loc(0, 0)) {
        Err(AnalyserError::TypeError { message, .. }) => {
            assert_eq!(message, "Type Error: Struct 'Box' expects 1 type parameters, found 2")
        }
        other => panic!("{:?}", other),
    }
    match a.instantiate_generic_types(&Type::GenericInstance { name: "Nope".to_string(), args: vec![] }, &loc(0, 0)) {
        Err(AnalyserError::SemanticError { message, .. }) => {
            assert_eq!(message, "Semantic Error: Generic struct 'Nope' not found.")
        }
        other => panic!("{:?}", other),
    }
}

#[test]
fn substitution_replaces_bound_names() {
    let a = Analyser::new();
    let mut m: StrMap<Type> = StrMap::new();
    m.insert("T".to_string(), Type::Bool);
    let ty = Type::GenericInstance {
        name: "P".to_string(),
        args: vec![Type::GenericParam("T".to_string()), Type::Struct("T".to_string()), Type::GenericParam("U".to_string())],
    };
    assert_eq!(
        a.substitute_type(&ty, &m),
        Type::GenericInstance {
            name: "P".to_string(),
            args: vec![Type::Bool, Type::Bool, Type::GenericParam("U".to_string())]
        }
    );
}

#[test]
fn finds_generic_parameters_anywhere() {
    assert!(contains_generic_param(&Type::Array {
        element_type: Box::new(Type::GenericInstance { name: "B".to_string(), args: vec![Type::Int, Type::GenericParam("T".to_string())] }),
        size: 1
    }));
    assert!(!contains_generic_param(&Type::GenericInstance { name: "B".to_string(), args: vec![Type::Int] }));
    assert!(!contains_generic_param(&Type::Struct("T".to_string())));
}

#[test]
fn errors_are_made_as_asked() {
    let e = AnalyserError::type_error(loc(1, 2), "m".to_string());
    assert!(matches!(e, AnalyserError::TypeError { ref message, .. } if message == "m"));
    assert!(matches!(AnalyserError::semantic_error(loc(0, 0), String::new()), AnalyserError::SemanticError { .. }));
    assert!(matches!(AnalyserError::overdef_error(loc(0, 0), String::new()), AnalyserError::OverDefinitionError { .. }));
    let a = Analyser::new();
    assert!(a.check_truthiness(&Type::Bool));
    assert!(!a.check_truthiness(&Type::Void));
}

fn analyse_src(src: &str) -> Result<Analyser, AnalyserError> {
    let mut lx = mysz_core::lexing::lexer::Lexer::with_file(src.to_string(), "a.mysz");
    assert!(lx.lex().is_ok());
    let mut p = mysz_core::parse::parser::Parser::new(lx.tokens);
    p.parse();
    assert!(p.parser_errs.is_empty(), "{:?}", p.parser_errs);
    let mut a = Analyser::new();
    a.analyse(&p.ast)?;
    Ok(a)
}

fn message_of(r: Result<Analyser, AnalyserError>) -> String {
    match r {
        Err(AnalyserError::TypeError { message, .. })
        | Err(AnalyserError::SemanticError { message, .. })
        | Err(AnalyserError::OverDefinitionError { message, .. }) => message,
        Ok(_) => panic!("the program was accepted"),
    }
}

#[test]
fn a_well_typed_program_is_accepted() {
    let a = analyse_src(
        "fn pub add(a: int, b: int): int { return a + b; }; var x: int = add(1, 2); while (x > 0) { x = x - 1; };",
    )
    .unwrap();
    assert_eq!(a.scopes.len(), 1);
    assert!(a.resolve_function("add").is_some());
    assert_eq!(a.resolve_variable("x").map(|s| &s.ty), Some(&Type::Int));
}

#[test]
fn names_must_be_defined_before_use() {
    assert_eq!(message_of(analyse_src("var y: int = z;")), "Symbol 'z' is used before definition.");
}

#[test]
fn mismatched_integer_additions_are_refused() {
    assert_eq!(
        message_of(analyse_src("var a: int = 1; var b: char = 'c'; var c = a + b;")),
        "Cannot add mismatched integer types 'int' and 'char'"
    );
}

#[test]
fn arithmetic_needs_integers() {
    assert_eq!(
        message_of(analyse_src("var a: bool = true; var c = a - a;")),
        "Operator 'Sub' expects integers, but found 'bool' and 'bool'"
    );
}

#[test]
fn break_outside_a_loop_is_refused() {
    let mut a = Analyser::new();
    match a.check_stmt(&Stmt::Break { location: loc(4, 2) }, TypeCheckMode::Strict) {
        Err(AnalyserError::SemanticError { location, message }) => {
            assert_eq!(message, "Semantic Error: Break statement must be in a while loop statement");
            assert_eq!((location.line, location.col), (4, 2));
        }
        other => panic!("{:?}", other),
    }
    a.loop_depth = 1;
    assert!(a.check_stmt(&Stmt::Break { location: loc(4, 2) }, TypeCheckMode::Strict).is_ok());
}

#[test]
fn return_outside_a_function_is_refused() {
    assert_eq!(message_of(analyse_src("return 1;")), "Semantic Error: 'return' used outside of a function");
}

#[test]
fn a_function_with_a_return_type_must_return() {
    assert_eq!(
        message_of(analyse_src("fn f(): int { var x: int = 1; };")),
        "Type Error: Function 'f' must return a value of type 'int'"
    );
}

#[test]
fn calls_check_their_arguments() {
    assert_eq!(
        message_of(analyse_src("fn f(a: int): int { return a; }; var x = f(true);")),
        "Argument 1 to 'f' expects 'int', found 'bool'"
    );
    assert_eq!(
        message_of(analyse_src("fn f(a: int): int { return a; }; var x = f(1, 2);")),
        "Function 'f' expects 1 argument(s), found 2"
    );
    assert_eq!(message_of(analyse_src("var x = g(1);")), "Call to undefined function 'g'");
}

#[test]
fn variables_declared_in_a_block_end_with_it() {
    assert_eq!(
        message_of(analyse_src("var c: bool = true; if (c) { var t: int = 1; }; var u: int = t;")),
        "Symbol 't' is used before definition."
    );
}

#[test]
fn struct_literals_are_checked_field_by_field() {
    assert!(analyse_src("struct P { x: int, y: int }; var p = P { x: 1, y: 2 }; var q: int = p.x;").is_ok());
    assert_eq!(
        message_of(analyse_src("struct P { x: int, y: int }; var p = P { x: 1, z: 2 };")),
        "Field 'z' does not exist in struct 'P'."
    );
}

#[test]
fn array_literals_must_be_homogeneous() {
    assert!(analyse_src("var a = [1, 2, 3];").is_ok());
    assert_eq!(
        message_of(analyse_src("var a = [1, true];")),
        "Heterogeneous array literals are not allowed. Expected elements of type 'int', found 'bool'."
    );
}

#[test]
fn binary_operations_give_their_type_or_error() {
    let at = loc(3, 4);
    assert_eq!(binary_result(BinaryOp::Add, Type::Int, Type::Int, &at).unwrap(), Type::Int);
    assert_eq!(binary_result(BinaryOp::Add, Type::Any, Type::Str, &at).unwrap(), Type::Any);
    assert_eq!(binary_result(BinaryOp::Add, Type::Str, Type::Str, &at).unwrap(), Type::Str);
    assert!(binary_result(BinaryOp::Add, Type::Bool, Type::Char, &at).is_err());
    assert_eq!(binary_result(BinaryOp::Lt, Type::Int, Type::Int, &at).unwrap(), Type::Bool);
    match binary_result(BinaryOp::Add, Type::Str, Type::Int, &at) {
        Err(AnalyserError::TypeError { location, message }) => {
            assert_eq!(message, "Cannot add type 'str' and 'int'");
            assert_eq!((location.line, location.col), (3, 4));
        }
        other => panic!("{:?}", other),
    }
    match binary_result(BinaryOp::Mul, Type::Int, Type::Char, &at) {
        Err(AnalyserError::TypeError { message, .. }) => {
            assert_eq!(message, "Mixed-type integer arithmetic ('int' and 'char') is not allowed")
        }
        other => panic!("{:?}", other),
    }
    match binary_result(BinaryOp::Eq, Type::Int, Type::Bool, &at) {
        Err(AnalyserError::TypeError { message, .. }) => {
            assert_eq!(message, "Cannot compare incompatible types 'int' and 'bool'")
        }
        other => panic!("{:?}", other),
    }
}

#[test]
fn unary_operations_give_their_type_or_error() {
    let at = loc(1, 1);
    assert_eq!(unary_result(UnaryOp::Negative, Type::Int, &at).unwrap(), Type::Int);
    assert_eq!(unary_result(UnaryOp::AddressOf, Type::Char, &at).unwrap(), Type::Ptr(Box::new(Type::Char)));
    assert_eq!(unary_result(UnaryOp::Deref, Type::Ptr(Box::new(Type::Bool)), &at).unwrap(), Type::Bool);
    match unary_result(UnaryOp::Not, Type::Int, &at) {
        Err(AnalyserError::TypeError { message, .. }) => {
            assert_eq!(message, "Unary boolean operator expects 'bool', found 'int'")
        }
        other => panic!("{:?}", other),
    }
    match unary_result(UnaryOp::Deref, Type::Int, &at) {
        Err(AnalyserError::TypeError { message, .. }) => assert_eq!(message, "Cannot dereference non-pointer type 'int'"),
        other => panic!("{:?}", other),
    }
}

#[test]
fn generic_calls_take_as_many_type_arguments_as_declared() {
    assert_eq!(
        message_of(analyse_src("fn id<T>(a: T): T { return a; }; var x = id::<int, bool>(1);")),
        "Function 'id' expects 1 type parameters, found 2"
    );
}

#[test]
fn reassigning_an_undeclared_name_is_refused() {
    assert_eq!(message_of(analyse_src("y = 3;")), "Cannot reassign to undefined variable 'y'");
}

#[test]
fn an_empty_program_is_accepted() {
    assert!(analyse_src("").is_ok());
}


#[test]
fn strings_concatenate_with_plus() {
    let a = analyse_src("var s = \"Hello, \" + \"world!\";").unwrap();
    assert_eq!(a.resolve_variable("s").map(|s| &s.ty), Some(&Type::Str));
}

#[test]
fn a_declaration_from_a_literal_takes_its_type() {
    let mut a = Analyser::new();
    let stmt = Stmt::Assignment {
        ident: Identifier { value: "x".to_string(), location: loc(1, 1) },
        vtype: None,
        expr: Some(Expr { kind: ExprKind::Literal(Literal::Int(4)), span: loc(1, 5) }),
    };
    assert!(a.check_stmt(&stmt, TypeCheckMode::Strict).is_ok());
    assert_eq!(a.resolve_variable("x").map(|s| &s.ty), Some(&Type::Int));
}

#[test]
fn adding_two_declared_integers_gives_an_integer() {
    let mut a = Analyser::new();
    assert!(a.declare_variable("x", Type::Int, loc(0, 0)).is_ok());
    assert!(a.declare_variable("y", Type::Int, loc(0, 0)).is_ok());
    let var = |n: &str| Box::new(Expr { kind: ExprKind::Identifier(n.to_string()), span: loc(1, 1) });
    let e = Expr { kind: ExprKind::Binary { left: var("x"), op: BinaryOp::Add, right: var("y") }, span: loc(1, 1) };
    assert_eq!(a.check_expr(&e, None).unwrap(), Type::Int);
}

#[test]
fn a_program_declaring_one_variable_analyses() {
    let mut a = Analyser::new();
    let prog = Program {
        statements: vec![Stmt::Assignment {
            ident: Identifier { value: "flag".to_string(), location: loc(1, 1) },
            vtype: None,
            expr: Some(Expr { kind: ExprKind::Literal(Literal::Bool(true)), span: loc(1, 8) }),
        }],
    };
    assert!(a.analyse(&prog).is_ok());
    assert_eq!(a.resolve_variable("flag").map(|s| &s.ty), Some(&Type::Bool));
}

#[test]
fn an_if_on_a_character_is_not_truthy() {
    let mut a = Analyser::new();
    let lit = |l: Literal| Expr { kind: ExprKind::Literal(l), span: loc(2, 4) };
    let ok = Stmt::If { cond: lit(Literal::Bool(true)), then_branch: vec![], else_if_branches: vec![], else_branch: None };
    assert!(a.check_stmt(&ok, TypeCheckMode::Strict).is_ok());
    let bad = Stmt::If { cond: lit(Literal::Char('a')), then_branch: vec![], else_if_branches: vec![], else_branch: None };
    match a.check_stmt(&bad, TypeCheckMode::Strict) {
        Err(AnalyserError::TypeError { location, message }) => {
            assert_eq!(message, "'if' condition is not truthy, found 'char'");
            assert_eq!((location.line, location.col), (2, 4));
        }
        other => panic!("{:?}", other),
    }
}

#[test]
fn a_struct_records_its_fields_in_order() {
    let mut a = Analyser::new();
    let field = |n: &str, t: Type| Parameter {
        name: Identifier { value: n.to_string(), location: loc(1, 1) },
        ptype: Some(t),
        is_variadic: false,
    };
    let stmt = Stmt::Struct {
        name: Identifier { value: "P".to_string(), location: loc(1, 1) },
        generic_params: vec![],
        fields: vec![field("y", Type::Bool), field("x", Type::Int)],
    };
    assert!(a.check_stmt(&stmt, TypeCheckMode::Strict).is_ok());
    let sig = a.structs.get("P").unwrap();
    let names: Vec<&String> = sig.fields.keys().collect();
    assert_eq!(names, vec!["y", "x"]);
    assert_eq!(sig.fields.get("x"), Some(&Type::Int));
}

#[test]
fn a_call_of_a_declared_function_has_its_return_type() {
    let mut a = Analyser::new();
    assert!(a
        .declare_function("f", vec![], true, vec![], false, None, Type::Int, loc(1, 1), false)
        .is_ok());
    let call = Expr {
        kind: ExprKind::Call {
            callee: Identifier { value: "f".to_string(), location: loc(2, 1) },
            generic_args: vec![],
            args: vec![],
        },
        span: loc(2, 1),
    };
    assert_eq!(a.check_expr(&call, None).unwrap(), Type::Int);
}

#[test]
fn a_loop_on_true_declaring_a_variable_is_accepted() {
    let mut a = Analyser::new();
    let decl = Stmt::Assignment {
        ident: Identifier { value: "n".to_string(), location: loc(3, 1) },
        vtype: None,
        expr: Some(Expr { kind: ExprKind::Literal(Literal::Int(1)), span: loc(3, 5) }),
    };
    let w = Stmt::While { cond: Expr { kind: ExprKind::Literal(Literal::Bool(true)), span: loc(2, 1) }, body: vec![decl] };
    assert!(a.check_stmt(&w, TypeCheckMode::Strict).is_ok());
}
