use mysz_core::backend::clback::{abi_type, string_literal_symbols, strip_mangling, AbiType, BackendType};
use mysz_core::backend::codegen::nasm::{split_functions, NasmBackend, StackFrame};
use mysz_core::backend::codegen::{Backend, Target, ABI, Arch, OS};
use mysz_core::ir::irgen::StructLayout;
use mysz_core::ir::tac::{Instruction, IrOp, Value};
use mysz_core::parse::parsing::Type;
use mysz_core::utils::strmap::StrMap;

fn s(x: &str) -> String {
    x.to_string()
}

fn adder() -> Vec<Instruction> {
    vec![
        Instruction::FunctionLabel(s("main")),
        Instruction::Assign { dst: s("t1"), src: Value::Const(2) },
        Instruction::Binary { dst: s("t2"), op: IrOp::Add, lhs: Value::Temp(s("t1")), rhs: Value::Const(3) },
        Instruction::Return { value: Value::Temp(s("t2")) },
    ]
}

#[test]
fn writes_a_function_with_its_frame() {
    let mut b = NasmBackend::new(Target::linux_x86_64_generic());
    let out = b.emit_program(&adder());
    let expected = "section .text\nglobal main\nmain:\npush rbp\nmov rbp, rsp\nsub rsp, 16\n\
mov qword [rbp - 8], 2\nmov rax, [rbp - 8]\nmov rbx, 3\nadd rax, rbx\nmov [rbp - 16], rax\n\
mov rax, [rbp - 16]\nmov rsp, rbp\npop rbp\nret\n";
    assert_eq!(out, expected);
    assert_eq!(b.out, expected);
}

#[test]
fn passes_arguments_and_receives_parameters() {
    let program = vec![
        Instruction::Extern { fnname: s("f") },
        Instruction::FunctionLabel(s("g")),
        Instruction::Param { p: s("a") },
        Instruction::Arg { value: Value::Var(s("a")) },
        Instruction::Arg { value: Value::Bool(true) },
        Instruction::Call { dest: Some(s("t1")), name: s("f"), argc: 2 },
        Instruction::JumpIfFalse { cond: Value::Temp(s("t1")), target: s("L1") },
        Instruction::Unary { dst: s("t2"), op: IrOp::Neg, value: Value::Const(-4) },
        Instruction::Label(s("L1")),
        Instruction::Jump(s("L2")),
        Instruction::Return { value: Value::Void },
    ];
    let mut b = NasmBackend::new(Target::linux_x86_64_generic());
    let out = b.emit_program(&program);
    let expected = "section .text\nextern f\nglobal g\ng:\npush rbp\nmov rbp, rsp\nsub rsp, 32\n\
mov [rbp - 8], rdi\nmov rdi, [rbp - 8]\nmov rsi, 1\ncall f\nmov qword [rbp - 16], rax\n\
cmp qword [rbp - 16], 0\nje L1\nmov rax, -4\nneg rax\nmov [rbp - 24], rax\nL1:\njmp L2\n\
mov rax, 0\nmov rsp, rbp\npop rbp\nret\n";
    assert_eq!(out, expected);
}

#[test]
fn the_seventh_argument_goes_on_the_stack() {
    let mut program = vec![Instruction::FunctionLabel(s("h"))];
    for i in 0..7 {
        program.push(Instruction::Arg { value: Value::Const(i) });
    }
    program.push(Instruction::Call { dest: None, name: s("k"), argc: 7 });
    program.push(Instruction::Arg { value: Value::Const(9) });
    let mut b = NasmBackend::new(Target::linux_x86_64_generic());
    let out = b.emit_program(&program);
    assert!(out.contains("mov r9, 5\npush 6\ncall k\nmov rdi, 9\n"));
    assert!(out.contains("h:\npush rbp\nmov rbp, rsp\nmov rdi, 0\n"));
}

#[test]
fn comparisons_set_a_flag() {
    let program = vec![
        Instruction::FunctionLabel(s("c")),
        Instruction::Binary { dst: s("t1"), op: IrOp::LtE, lhs: Value::Const(1), rhs: Value::Const(2) },
        Instruction::Binary { dst: s("t2"), op: IrOp::Div, lhs: Value::Const(8), rhs: Value::Const(2) },
    ];
    let mut b = NasmBackend::new(Target::linux_x86_64_generic());
    let out = b.emit_program(&program);
    assert!(out.contains("cmp rax, rbx\nsetle al\nmovzx rax, al\nmov [rbp - 8], rax\n"));
    assert!(out.contains("cqo\nidiv rbx\nmov [rbp - 16], rax\n"));
}

#[test]
fn splits_before_each_function_label() {
    let program = vec![
        Instruction::Extern { fnname: s("x") },
        Instruction::FunctionLabel(s("a")),
        Instruction::Return { value: Value::Const(0) },
        Instruction::FunctionLabel(s("b")),
        Instruction::FunctionLabel(s("c")),
    ];
    let funcs = split_functions(&program);
    let lens: Vec<usize> = funcs.iter().map(|f| f.len()).collect();
    assert_eq!(lens, vec![1, 2, 1, 1]);
    assert!(matches!(funcs[2][0], Instruction::FunctionLabel(ref n) if n == "b"));
    assert!(split_functions(&[]).is_empty());
}

#[test]
fn frames_give_each_name_one_slot() {
    let mut f = StackFrame::new();
    f.allocate("a");
    f.allocate("b");
    f.allocate("a");
    f.finalize();
    assert_eq!(f.addr("a"), "[rbp - 8]");
    assert_eq!(f.addr("b"), "[rbp - 16]");
    let mut g = StackFrame::new();
    g.allocate("only");
    g.finalize();
    assert_eq!(g.addr("only"), "[rbp - 8]");
}

#[test]
fn the_generic_target_uses_system_v_registers() {
    let t = Target::linux_x86_64_generic();
    assert_eq!(t, Target { arch: Arch::X86_64, os: OS::Linux, abi: ABI::SysV });
    assert_eq!(t.arg_reg(0), Some("rdi"));
    assert_eq!(t.arg_reg(3), Some("rcx"));
    assert_eq!(t.arg_reg(5), Some("r9"));
    assert_eq!(t.arg_reg(6), None);
}

#[test]
fn source_types_map_to_machine_types() {
    assert_eq!(BackendType::from_frontend(&Type::Int), BackendType::Int64);
    assert_eq!(BackendType::from_frontend(&Type::UInt8), BackendType::UInt8);
    assert_eq!(BackendType::from_frontend(&Type::Str), BackendType::Ptr);
    assert_eq!(BackendType::from_frontend(&Type::Void), BackendType::Int64);
    assert_eq!(BackendType::from_frontend(&Type::Bool).byte_size(), 1);
    assert_eq!(BackendType::Int32.byte_size(), 4);
    assert_eq!(BackendType::Ptr.byte_size(), 8);
}

#[test]
fn mangled_names_are_stripped() {
    assert_eq!(strip_mangling("id__int"), "id");
    assert_eq!(strip_mangling("Box<int>"), "Box");
    assert_eq!(strip_mangling("plain"), "plain");
    assert_eq!(strip_mangling("a_b__c<d>"), "a_b");
}

#[test]
fn returns_are_classified() {
    let mut defs: StrMap<StructLayout> = StrMap::new();
    defs.insert("P".to_string(), StructLayout { total_size: 12, alignment: 4, field_offsets: indexmap::IndexMap::new() });
    assert_eq!(abi_type(&Type::Void, &defs), Some(AbiType::Void));
    assert_eq!(abi_type(&Type::Int, &defs), Some(AbiType::Primitive(BackendType::Int64)));
    assert_eq!(
        abi_type(&Type::Struct("P".to_string()), &defs),
        Some(AbiType::Aggregate { chunk_count: 2, total_size: 12 })
    );
    assert_eq!(
        abi_type(&Type::Struct("m::P".to_string()), &defs),
        Some(AbiType::Aggregate { chunk_count: 2, total_size: 12 })
    );
    assert_eq!(abi_type(&Type::Struct("Q".to_string()), &defs), Some(AbiType::Primitive(BackendType::Ptr)));
}

#[test]
fn string_literals_get_one_symbol_each() {
    let insts = vec![
        Instruction::Arg { value: Value::Str("a".to_string()) },
        Instruction::Arg { value: Value::Const(1) },
        Instruction::Arg { value: Value::Str("b".to_string()) },
        Instruction::Arg { value: Value::Str("a".to_string()) },
    ];
    assert_eq!(
        string_literal_symbols(&insts),
        vec![("a".to_string(), "_str_lit_0".to_string()), ("b".to_string(), "_str_lit_1".to_string())]
    );
}
