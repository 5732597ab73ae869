use mysz_core::compiler::{entry_check, merge_units, module_visit, order_files_by_uses, unit_name_check};
use mysz_core::compiler::{classify_use, UseTarget};
use mysz_core::compiler::{missing_export_error, qualified_imports};
use mysz_core::ir::tac::{Instruction, Value};
use mysz_core::utils::ats::ParsedAT;
use mysz_core::athelp::ATBuilder;
use mysz_core::compiler::{
    collect_exported_symbols, collect_own_top_level_names, collect_use_statements,
    format_analyser_error, format_error_with_location, format_module_error, format_parser_errors,
    format_simple_error, is_generic_type, topo_sort_ats, json_error_from_analyser_error,
    json_error_from_parser_error, json_error_from_string, public_symbols, AtAliasRewriter,
};
use mysz_core::lexing::lexer::Lexer;
use mysz_core::parse::parser::Parser;
use mysz_core::parse::parsing::{Identifier, Parameter, ParserError, ParserErrorType, Program, Type};
use mysz_core::semantics::analyser::AnalyserError;
use mysz_core::utils::ats::{ATFile, SymbolType};
use mysz_core::utils::ctx::CompilerCtx;
use mysz_core::utils::location::{error_correct_line, Location};
use mysz_core::utils::strmap::StrMap;

fn program(src: &str) -> Program {
    let mut lx = Lexer::with_file(src.to_string(), "p.mysz");
    assert!(lx.lex().is_ok());
    let mut p = Parser::new(lx.tokens);
    p.parse();
    assert!(p.parser_errs.is_empty());
    p.ast
}

#[test]
fn located_errors_show_the_line_and_a_caret() {
    let src = "var a = 1;\r\nvar b = c;\n";
    assert_eq!(
        format_error_with_location("x.mysz", 2, 9, "unknown 'c'", Some(src)),
        "  --> x.mysz:2:9\n      var b = c;\n              ^\n      unknown 'c'"
    );
    assert_eq!(
        format_error_with_location("x.mysz", 1, 0, "m", Some(src)),
        "  --> x.mysz:1:0\n      var a = 1;\n      ^\n      m"
    );
    assert_eq!(
        format_error_with_location("x.mysz", 7, 2, "m", None),
        "  --> x.mysz:7:2\n      \n       ^\n      m"
    );
}

#[test]
fn simple_and_module_errors() {
    assert_eq!(format_simple_error("a/b.mysz", "Failed"), "  --> a/b.mysz\n      Failed");
    assert_eq!(format_module_error("std::io", "missing"), "  --> module 'std::io'\n      missing");
}

#[test]
fn parser_errors_are_joined_by_newlines() {
    let e = |line: usize, msg: &str| ParserError {
        etype: ParserErrorType::UnexpectedTokenTypeError,
        message: msg.to_string(),
        location: Location::new(line, 1, "f"),
    };
    let text = format_parser_errors(&[e(1, "one"), e(2, "two")], "ab\ncd");
    assert_eq!(text, "  --> f:1:1\n      ab\n      ^\n      one\n  --> f:2:1\n      cd\n      ^\n      two");
    assert_eq!(format_parser_errors(&[], "ab"), "");
}

#[test]
fn analyser_errors_use_the_source_of_their_file() {
    let mut sources: StrMap<String> = StrMap::new();
    sources.insert("m.mysz".to_string(), "fn x\nfn y".to_string());
    let err = AnalyserError::SemanticError { location: Location::new(2, 4, "m.mysz"), message: "bad".to_string() };
    assert_eq!(
        format_analyser_error(&err, &sources, Some("root")),
        "  --> m.mysz:2:4\n      fn y\n         ^\n      bad"
    );
    let other = AnalyserError::TypeError { location: Location::new(1, 1, "other"), message: "t".to_string() };
    assert_eq!(format_analyser_error(&other, &sources, Some("root")), "  --> other:1:1\n      root\n      ^\n      t");
}

#[test]
fn json_records_copy_the_error() {
    let pe = ParserError {
        etype: ParserErrorType::MalformedStatementError,
        message: "m".to_string(),
        location: Location::new(3, 4, "f.mysz"),
    };
    let j = json_error_from_parser_error(&pe);
    assert_eq!((j.file.as_str(), j.line, j.column, j.message.as_str(), j.severity.as_str()), ("f.mysz", 3, 4, "m", "error"));
    let j = json_error_from_string("g", "n");
    assert_eq!((j.file.as_str(), j.line, j.column, j.message.as_str()), ("g", 0, 0, "n"));
    let ae = AnalyserError::OverDefinitionError { location: Location::new(5, 6, "h"), message: "o".to_string() };
    let j = json_error_from_analyser_error(&ae);
    assert_eq!((j.file.as_str(), j.line, j.column, j.message.as_str()), ("h", 5, 6, "o"));
}

#[test]
fn exported_and_public_symbols() {
    let p = program("fn pub a() { }; fn b() { }; struct S { x: int }; use m::q; use r;");
    let exp = collect_exported_symbols(&p);
    assert_eq!(exp, vec![("a".to_string(), SymbolType::Function), ("S".to_string(), SymbolType::Struct)]);
    assert_eq!(public_symbols(&p), vec!["a".to_string(), "S".to_string()]);
    let uses = collect_use_statements(&p);
    assert_eq!(uses.len(), 2);
    assert_eq!(uses[0], ("q".to_string(), vec!["m".to_string(), "q".to_string()]));
    assert_eq!(uses[1].0, "r");
}

#[test]
fn own_names_leave_out_the_entry_main() {
    let p = program("fn main() { }; fn helper() { }; struct S { }; fn helper() { };");
    let mut names = collect_own_top_level_names(&p.statements, true);
    names.sort();
    assert_eq!(names, vec!["S".to_string(), "helper".to_string()]);
    let mut all = collect_own_top_level_names(&p.statements, false);
    all.sort();
    assert_eq!(all, vec!["S".to_string(), "helper".to_string(), "main".to_string()]);
}

#[test]
fn the_rewriter_qualifies_names() {
    let mut imports: StrMap<String> = StrMap::new();
    imports.insert("print".to_string(), "io$print".to_string());
    let rw = AtAliasRewriter { prefix: "app$".to_string(), own_names: vec!["S".to_string()], imports };
    assert_eq!(rw.qualify("print"), Some("io$print".to_string()));
    assert_eq!(rw.qualify("S"), Some("app$S".to_string()));
    assert_eq!(rw.qualify("T"), None);
    let id = rw.decl(Identifier { value: "S".to_string(), location: Location::new(1, 1, "") });
    assert_eq!(id.value, "app$S");
    assert_eq!(rw.decl(Identifier { value: "z".to_string(), location: Location::new(1, 1, "") }).value, "z");
    let t = Type::Ptr(Box::new(Type::GenericInstance { name: "S".to_string(), args: vec![Type::Struct("print".to_string()), Type::Int] }));
    assert_eq!(
        rw.ty(t),
        Type::Ptr(Box::new(Type::GenericInstance {
            name: "app$S".to_string(),
            args: vec![Type::Struct("io$print".to_string()), Type::Int]
        }))
    );
    let ps = rw.params(vec![
        Parameter { name: Identifier { value: "p".to_string(), location: Location::new(0, 0, "") }, ptype: Some(Type::Enum("S".to_string())), is_variadic: false },
        Parameter { name: Identifier { value: "q".to_string(), location: Location::new(0, 0, "") }, ptype: None, is_variadic: true },
    ]);
    assert_eq!(ps[0].ptype, Some(Type::Enum("app$S".to_string())));
    assert_eq!(ps[1].ptype, None);
    assert!(ps[1].is_variadic);
}

#[test]
fn generic_types_are_recognised() {
    assert!(is_generic_type(&Type::Any));
    assert!(is_generic_type(&Type::GenericParam("T".to_string())));
    assert!(!is_generic_type(&Type::Ptr(Box::new(Type::GenericParam("T".to_string())))));
}

fn file(path: &str, segs: &[&str]) -> ATFile {
    ATFile { path: path.to_string(), module_segments: segs.iter().map(|s| s.to_string()).collect() }
}

#[test]
fn the_builder_checks_what_it_was_given() {
    let b = ATBuilder::new().root_dir("r".to_string()).entry_file("r/m.mysz".to_string());
    assert_eq!(b.build("cwd".to_string()).unwrap_err(), "AT name is required");
    let b = ATBuilder::new()
        .name("x".to_string())
        .entry_file("m.mysz".to_string())
        .add_file("m.mysz".to_string(), vec!["m".to_string()]);
    let info = b.build("/work".to_string()).unwrap();
    assert_eq!(info.root_dir, "/work");
    assert_eq!(info.entry_file, "m.mysz");
    let b = ATBuilder::new().name("x".to_string()).root_dir("r".to_string());
    assert_eq!(b.build("cwd".to_string()).unwrap_err(), "Entry file is required (and not detected)");
    let b = ATBuilder::new().name("x".to_string()).root_dir("r".to_string()).entry_file("r/m.mysz".to_string());
    assert_eq!(b.build("cwd".to_string()).unwrap_err(), "Entry file \"r/m.mysz\" is not in the file list");
    let info = ATBuilder::new()
        .name("x".to_string())
        .version("1.0".to_string())
        .root_dir("r".to_string())
        .entry_file("r/m.mysz".to_string())
        .add_file("r/m.mysz".to_string(), vec!["m".to_string()])
        .add_dependency("std".to_string(), None)
        .build("cwd".to_string())
        .unwrap();
    assert_eq!(info.name, "x");
    assert_eq!(info.version, Some("1.0".to_string()));
    assert_eq!(info.dependencies[0].name, "std");
    assert_eq!(info.files.len(), 1);
    assert!(info.exported.is_empty());
}

#[test]
fn discovery_prefers_the_top_level_main() {
    assert_eq!(ATBuilder::new().discovery_root().unwrap_err(), "Root directory must be set before discovery");
    let files = vec![file("r/a/main.mysz", &["a", "main"]), file("r/b.mysz", &["b"]), file("r/main.mysz", &["main"])];
    let info = ATBuilder::new()
        .name("x".to_string())
        .root_dir("r".to_string())
        .with_discovered(files)
        .unwrap()
        .build("cwd".to_string())
        .unwrap();
    assert_eq!(info.entry_file, "r/main.mysz");
    let files = vec![file("r/a/z.mysz", &["a", "z"]), file("r/b.mysz", &["b"])];
    let b = ATBuilder::new().with_discovered(files).unwrap();
    assert_eq!(b.name("n".to_string()).root_dir("r".to_string()).build("cwd".to_string()).unwrap().entry_file, "r/b.mysz");
    let err = ATBuilder::new().with_discovered(vec![file("r/a/z.mysz", &["a", "z"])]).unwrap_err();
    assert_eq!(err, "No .mysz files found in root directory");
    let kept = ATBuilder::new().entry_file("given".to_string()).with_discovered(vec![]).unwrap();
    assert_eq!(kept.name("n".to_string()).root_dir("r".to_string()).build("cwd".to_string()).unwrap_err(), "Entry file \"given\" is not in the file list");
}

#[test]
fn json_output_and_debugging_exclude_each_other() {
    assert!(CompilerCtx::new("a".to_string(), vec![], true, true).is_none());
    let c = CompilerCtx::new("a".to_string(), vec!["s".to_string()], true, false).unwrap();
    assert!(c.output_json && !c.debug);
    assert_eq!(c.search_paths, vec!["s".to_string()]);
}

#[test]
fn error_lines_skip_blank_lines() {
    let src = "a\n\n  \t\nb\n";
    assert_eq!(error_correct_line(Some(src), 1), 4);
    assert_eq!(error_correct_line(Some(src), 0), 1);
    assert_eq!(error_correct_line(Some(src), 4), 5);
    assert_eq!(error_correct_line(None, 2), 3);
    let l = Location::new_with_file(1, 7, "f.mysz", Some(src));
    assert_eq!((l.line, l.col, l.file.as_str()), (4, 7, "f.mysz"));
}

fn unit(name: &str, deps: &[&str]) -> mysz_core::utils::ats::ATInfo {
    let mut b = ATBuilder::new()
        .name(name.to_string())
        .root_dir("r".to_string())
        .entry_file("r/main.mysz".to_string())
        .add_file("r/main.mysz".to_string(), vec!["main".to_string()]);
    for d in deps {
        b = b.add_dependency(d.to_string(), None);
    }
    b.build("cwd".to_string()).unwrap()
}

#[test]
fn units_come_after_their_dependencies() {
    let ats = vec![unit("app", &["lib"]), unit("lib", &["core"]), unit("core", &[])];
    assert_eq!(topo_sort_ats(&ats).unwrap(), vec![2, 1, 0]);
    let ats = vec![unit("x", &[]), unit("y", &["x"]), unit("z", &["x", "y"])];
    assert_eq!(topo_sort_ats(&ats).unwrap(), vec![0, 1, 2]);
    assert_eq!(topo_sort_ats(&[]).unwrap(), Vec::<usize>::new());
}

#[test]
fn cycles_and_unknown_units_are_errors() {
    let ats = vec![unit("a", &["b"]), unit("b", &["a"])];
    assert_eq!(topo_sort_ats(&ats).unwrap_err(), "Cyclic AT dependency involving 'a'");
    let ats = vec![unit("a", &["zzz"])];
    assert_eq!(topo_sort_ats(&ats).unwrap_err(), "AT 'a' depends on unknown AT 'zzz'");
    let ats = vec![unit("a", &["a"])];
    assert_eq!(topo_sort_ats(&ats).unwrap_err(), "Cyclic AT dependency involving 'a'");
}

#[test]
fn aliases_prefix_own_names_and_drop_resolved_uses() {
    let prog = program("use Lib::helper; fn pub run(): int { return helper(1); }; fn main(): int { return run(); };");
    let imports = vec![("helper".to_string(), "Lib$helper".to_string())];
    let out = mysz_core::compiler::apply_at_aliases(prog.statements, "App", true, &imports);
    assert_eq!(out.len(), 2);
    match &out[0] {
        mysz_core::parse::parsing::Stmt::Function { name, body, .. } => {
            assert_eq!(name.value, "App$run");
            match &body[0] {
                mysz_core::parse::parsing::Stmt::Return { value: Some(e), .. } => match &e.kind {
                    mysz_core::parse::parsing::ExprKind::Call { callee, .. } => assert_eq!(callee.value, "Lib$helper"),
                    other => panic!("{:?}", other),
                },
                other => panic!("{:?}", other),
            }
        }
        other => panic!("{:?}", other),
    }
    match &out[1] {
        mysz_core::parse::parsing::Stmt::Function { name, .. } => assert_eq!(name.value, "main"),
        other => panic!("{:?}", other),
    }
}

#[test]
fn uses_are_classified_by_their_first_segment() {
    let deps = vec!["Lib".to_string()];
    let p = |v: &[&str]| v.iter().map(|s| s.to_string()).collect::<Vec<String>>();
    match classify_use(&p(&["@", "util", "math"]), "App", &deps) {
        Ok(UseTarget::OwnModule { segments }) => assert_eq!(segments, p(&["util", "math"])),
        other => panic!("{:?}", other),
    }
    match classify_use(&p(&["Lib", "f"]), "App", &deps) {
        Ok(UseTarget::Dependency { at_name, suffix }) => {
            assert_eq!(at_name, "Lib");
            assert_eq!(suffix, p(&["f"]));
        }
        other => panic!("{:?}", other),
    }
    assert_eq!(
        classify_use(&p(&["@"]), "App", &deps).unwrap_err(),
        "AT-qualified `use` must reference an item, e.g. `use @::name;`"
    );
    assert_eq!(
        classify_use(&p(&["Other", "f"]), "App", &deps).unwrap_err(),
        "AT 'Other' is not a declared dependency of 'App' (used in `use Other::..;`)"
    );
    assert!(matches!(classify_use(&p(&["std", "io"]), "App", &deps), Ok(UseTarget::Module)));
}

#[test]
fn imports_are_qualified_and_checked() {
    let syms = vec!["f".to_string(), "g".to_string()];
    assert_eq!(
        qualified_imports("Lib", &syms),
        vec![("f".to_string(), "Lib$f".to_string()), ("g".to_string(), "Lib$g".to_string())]
    );
    assert_eq!(missing_export_error("f", "Lib", &syms), None);
    assert_eq!(
        missing_export_error("h", "Lib", &syms).unwrap(),
        "Symbol 'h' not exported by AT 'Lib' (available: f, g)"
    );
    assert_eq!(mysz_core::compiler::import_origin("Lib$f"), "Lib");
    assert_eq!(mysz_core::compiler::import_origin("plain"), "plain");
}

#[test]
fn resolving_imports_checks_the_exports() {
    let lib = ParsedAT { name: "Lib".to_string(), program: program("fn pub f(): int { return 1; };"), imports: StrMap::new() };
    let app = ParsedAT { name: "App".to_string(), program: program("use Lib::f;"), imports: StrMap::new() };
    let ats = vec![unit("Lib", &[]), unit("App", &["Lib"])];
    let resolved = mysz_core::compiler::resolve_imports(vec![lib, app], &ats).unwrap();
    let info = resolved[1].imports.get("f").unwrap();
    assert_eq!(info.qualified_name, "Lib$f");
    assert_eq!(info.from_at, "Lib");
    let lib = ParsedAT { name: "Lib".to_string(), program: program("fn g(): int { return 1; };"), imports: StrMap::new() };
    let app = ParsedAT { name: "App".to_string(), program: program("use Lib::f;"), imports: StrMap::new() };
    assert_eq!(
        mysz_core::compiler::resolve_imports(vec![lib, app], &ats).err().unwrap(),
        "Symbol 'f' not exported by AT 'Lib'"
    );
}

#[test]
fn unit_uses_are_filtered_out() {
    let mut stmts = program("use Lib::b; use std::io; fn f() { };").statements;
    stmts.insert(0, mysz_core::parse::parsing::Stmt::Use { path: vec!["@".to_string(), "a".to_string()] });
    let out = mysz_core::compiler::filter_unit_uses(stmts, &vec!["Lib".to_string()]);
    assert_eq!(out.len(), 2);
    assert!(matches!(&out[0], mysz_core::parse::parsing::Stmt::Use { path } if path[0] == "std"));
}

#[test]
fn repeated_functions_are_kept_once() {
    let code = vec![
        Instruction::FunctionLabel("f".to_string()),
        Instruction::Return { value: Value::Const(1) },
        Instruction::FunctionLabel("g".to_string()),
        Instruction::Return { value: Value::Const(2) },
        Instruction::FunctionLabel("f".to_string()),
        Instruction::Return { value: Value::Const(3) },
        Instruction::FunctionLabel("h".to_string()),
    ];
    let out: Vec<String> = mysz_core::compiler::dedupe_functions(code).iter().map(|i| format!("{:?}", i)).collect();
    assert_eq!(
        out,
        vec![
            "FunctionLabel(\"f\")",
            "Return { value: Const(1) }",
            "FunctionLabel(\"g\")",
            "Return { value: Const(2) }",
            "FunctionLabel(\"h\")",
        ]
    );
}

#[test]
fn a_program_compiles_to_code_and_its_public_names() {
    let prog = program("fn pub add(a: int, b: int): int { return a + b; }; fn main(): int { return add(1, 2); };");
    let (code, names) = mysz_core::compiler::compile_ast_program(&prog, "p.mysz", None).unwrap();
    assert_eq!(names, vec!["add".to_string()]);
    assert_eq!(format!("{:?}", code[0]), "FunctionLabel(\"add\")");
    assert_eq!(
        format!("{:?}", code.last().unwrap()),
        "Return { value: Temp(\"main::t2\") }"
    );
    let bad = program("fn main(): int { return zz; };");
    match mysz_core::compiler::compile_ast_program(&bad, "p.mysz", None) {
        Err(mysz_core::compiler::CompileFailure::Analysis(AnalyserError::SemanticError { message, .. })) => {
            assert_eq!(message, "Symbol 'zz' is used before definition.")
        }
        other => panic!("{:?}", other.map(|_| ())),
    }
}

#[test]
fn files_are_ordered_after_the_files_they_use() {
    assert_eq!(order_files_by_uses(&vec![vec![1], vec![], vec![0, 1]]), vec![1, 0, 2]);
    assert_eq!(order_files_by_uses(&vec![vec![1], vec![0]]), vec![0, 1]);
    assert_eq!(order_files_by_uses(&vec![vec![7]]), vec![0]);
    assert_eq!(order_files_by_uses(&vec![]), Vec::<usize>::new());
}

#[test]
fn a_file_belongs_to_the_first_unit_that_holds_it() {
    let ats = vec![unit("a", &[]), unit("b", &[])];
    let e = mysz_core::compiler::entry_for_file(&ats, "r/main.mysz").unwrap();
    assert_eq!((e.info, e.is_current), (0, true));
    assert_eq!(
        mysz_core::compiler::entry_for_file(&ats, "nowhere.mysz").err().unwrap(),
        "File 'nowhere.mysz' does not belong to any known AT"
    );
}

#[test]
fn an_entry_past_the_units_is_refused() {
    assert!(entry_check(0, 1).is_ok());
    assert_eq!(entry_check(3, 2).unwrap_err(), "ATEntry.info (3) out of bounds for 2 AT(s)");
}

#[test]
fn merging_no_units_gives_an_empty_program() {
    let merged = merge_units(Vec::new(), &Vec::new(), 0).unwrap();
    assert!(merged.statements.is_empty());
}

#[test]
fn a_module_being_flattened_is_a_cycle_and_a_done_one_is_skipped() {
    let visiting = vec!["a.mysz".to_string()];
    let processed = vec!["b.mysz".to_string()];
    assert_eq!(module_visit(&visiting, &processed, "a.mysz").unwrap_err(), "Cyclic dependency detected! Module imports itself.");
    assert_eq!(module_visit(&visiting, &processed, "b.mysz"), Ok(false));
    assert_eq!(module_visit(&visiting, &processed, "c.mysz"), Ok(true));
}

#[test]
fn flattening_needs_a_unit_name() {
    assert_eq!(unit_name_check("").unwrap_err(), "current_at_name cannot be empty in AT mode");
    assert!(unit_name_check("app").is_ok());
}

#[test]
fn an_empty_function_compiles_to_its_label_and_a_return() {
    let prog = program("fn f() { };");
    let (code, _names) = mysz_core::compiler::compile_ast_program(&prog, "p.mysz", None).unwrap();
    let shown: Vec<String> = code.iter().map(|i| format!("{:?}", i)).collect();
    assert_eq!(shown, vec!["FunctionLabel(\"f\")", "Return { value: Void }"]);
}

#[test]
fn three_empty_functions_compile_to_their_labels_and_returns_in_order() {
    let prog = program("fn a() { }; fn b() { }; fn c() { };");
    let (code, _) = mysz_core::compiler::compile_ast_program(&prog, "p.mysz", None).unwrap();
    let out: Vec<String> = code.iter().map(|i| format!("{:?}", i)).collect();
    assert_eq!(
        out,
        vec![
            "FunctionLabel(\"a\")",
            "Return { value: Void }",
            "FunctionLabel(\"b\")",
            "Return { value: Void }",
            "FunctionLabel(\"c\")",
            "Return { value: Void }",
        ]
    );
}

#[test]
fn a_repeated_function_of_a_program_is_lowered_once() {
    let prog = program("fn f() { while (1) { return 2; }; }; fn f() { return 5; };");
    let analyser = mysz_core::semantics::analyser::Analyser::new();
    let code = mysz_core::compiler::lower_program(&prog, &analyser, "p.mysz", None).unwrap();
    let out: Vec<String> = code.iter().map(|i| format!("{:?}", i)).collect();
    assert_eq!(
        out,
        vec![
            "FunctionLabel(\"f\")",
            "Label(\"L1\")",
            "JumpIfFalse { cond: Const(1), target: \"L2\" }",
            "Return { value: Const(2) }",
            "Jump(\"L1\")",
            "Label(\"L2\")",
            "Return { value: Void }",
        ]
    );
}
