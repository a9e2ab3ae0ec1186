use minic::backend::{EInstr, EModule, EOp, EPred, EValue};
use minic::grammar::ProgramParser;
use minic::runner::Runner;

// The shape scenarios drive the code generator directly; the semantic
// gate in front of it is exercised separately.
fn compile(input: &str) -> Result<EModule, minic::error::CompileError> {
    let program = ProgramParser::new().parse(input).expect("program should parse");
    let mut codegen = minic::codegen::Codegen::new(EModule::new("main".to_string()));
    let mut visitor = minic::codegen::CodegenVisitor::new();
    let mut traversal = minic::codegen::CodegenTraversal;
    traversal.traverse(&mut visitor, &program, &mut codegen)?;
    Ok(codegen.module)
}

fn compile_checked(input: &str) -> Result<EModule, minic::error::CompileError> {
    let program = ProgramParser::new().parse(input).expect("program should parse");
    Runner.compile(&program)
}

fn func<'a>(m: &'a EModule, name: &str) -> &'a minic::backend::EFunction {
    m.functions.iter().find(|f| f.name == name).expect("function should be in the module")
}

fn all_instrs(f: &minic::backend::EFunction) -> Vec<EInstr> {
    let mut out = Vec::new();
    for b in &f.blocks {
        for i in &b.instrs {
            out.push(i.clone());
        }
    }
    out
}

#[test]
fn test_return() {
    let m = compile("fn main() { return 1; }").unwrap();
    assert_eq!(m.name, "main");
    assert_eq!(m.target, "x86_64-unknown-linux-gnu");
    assert_eq!(m.functions.len(), 1);
    let f = func(&m, "main");
    assert_eq!(f.blocks.len(), 1);
    assert_eq!(
        f.blocks[0].instrs,
        vec![EInstr::Ret { val: EValue::ConstInt(1) }]
    );
}

#[test]
fn test_assignment() {
    let m = compile("fn main() { let a : int = 1; let b : int = 2; }").unwrap();
    let f = func(&m, "main");
    let instrs = all_instrs(f);
    let allocas = instrs.iter().filter(|i| matches!(i, EInstr::Alloca { .. })).count();
    let stores = instrs.iter().filter(|i| matches!(i, EInstr::Store { .. })).count();
    assert_eq!(allocas, 2);
    assert_eq!(stores, 2);
    assert_eq!(instrs.last(), Some(&EInstr::RetVoid));
}

#[test]
fn test_reassignment() {
    let m = compile("fn main() { let a : int = 1; a = 2; }").unwrap();
    let f = func(&m, "main");
    let instrs = all_instrs(f);
    let allocas: Vec<&EInstr> =
        instrs.iter().filter(|i| matches!(i, EInstr::Alloca { .. })).collect();
    assert_eq!(allocas.len(), 1);
    let slot = match allocas[0] {
        EInstr::Alloca { dst, .. } => *dst,
        _ => unreachable!(),
    };
    let store_targets: Vec<EValue> = instrs
        .iter()
        .filter_map(|i| match i {
            EInstr::Store { ptr, .. } => Some(*ptr),
            _ => None,
        })
        .collect();
    // two stores, both to the same slot
    assert_eq!(store_targets, vec![EValue::Reg(slot), EValue::Reg(slot)]);
}

#[test]
fn test_addition() {
    let m = compile("fn main() { return 1 + 2; }").unwrap();
    let f = func(&m, "main");
    let instrs = all_instrs(f);
    let add_dst = instrs
        .iter()
        .find_map(|i| match i {
            EInstr::BinOp { dst, op: EOp::Add, a, b } => {
                assert_eq!(*a, EValue::ConstInt(1));
                assert_eq!(*b, EValue::ConstInt(2));
                Some(*dst)
            }
            _ => None,
        })
        .expect("an add of two constants");
    assert!(instrs.contains(&EInstr::Ret { val: EValue::Reg(add_dst) }));
}

#[test]
fn test_conditional() {
    let m = compile("fn main() -> int { if 2 == 2 { return 1; } return 0; }").unwrap();
    let f = func(&m, "main");
    // entry, then, resume
    assert_eq!(f.blocks.len(), 3);
    let entry = &f.blocks[0].instrs;
    let cmp_dst = entry
        .iter()
        .find_map(|i| match i {
            EInstr::ICmp { dst, pred: EPred::Eq, a, b } => {
                assert_eq!(*a, EValue::ConstInt(2));
                assert_eq!(*b, EValue::ConstInt(2));
                Some(*dst)
            }
            _ => None,
        })
        .expect("an equality comparison");
    match entry.last().unwrap() {
        EInstr::CondBr { cond, then_dest, else_dest } => {
            assert_eq!(*cond, EValue::Reg(cmp_dst));
            assert_eq!(f.blocks[*then_dest].label, "then");
            assert_eq!(f.blocks[*else_dest].label, "resume");
        }
        other => panic!("expected a conditional branch, found {:?}", other),
    }
    let then_block = f.blocks.iter().find(|b| b.label == "then").unwrap();
    assert_eq!(then_block.instrs, vec![EInstr::Ret { val: EValue::ConstInt(1) }]);
    let resume = f.blocks.iter().find(|b| b.label == "resume").unwrap();
    assert_eq!(resume.instrs, vec![EInstr::Ret { val: EValue::ConstInt(0) }]);
}

#[test]
fn test_call_when_names_in_order() {
    let m =
        compile("fn f(b: int) -> int { return b; } fn main() -> int { let a : int = 1; return f(a); }")
            .unwrap();
    assert_eq!(m.functions.len(), 2);
    // `f` is declared before `main`'s body is emitted.
    assert_eq!(m.functions[0].name, "f");
    assert_eq!(m.functions[1].name, "main");
    let main_instrs = all_instrs(func(&m, "main"));
    let call = main_instrs
        .iter()
        .find_map(|i| match i {
            EInstr::Call { callee, args, .. } => Some((callee.clone(), args.len())),
            _ => None,
        })
        .expect("a call in main");
    assert_eq!(call, ("f".to_string(), 1));
}

#[test]
fn test_call_when_names_not_in_order() {
    let m =
        compile("fn main() -> int { let a : int = 1; return f(a); } fn f(a:int) -> int { return a; }")
            .unwrap();
    assert_eq!(m.functions.len(), 2);
    let main_instrs = all_instrs(func(&m, "main"));
    let call = main_instrs
        .iter()
        .find_map(|i| match i {
            EInstr::Call { callee, args, .. } => Some((callee.clone(), args.len())),
            _ => None,
        })
        .expect("a call in main");
    assert_eq!(call, ("f".to_string(), 1));
}

#[test]
fn test_empty_void_body_gets_single_void_return() {
    let m = compile("fn main() { }").unwrap();
    let f = func(&m, "main");
    assert_eq!(f.blocks.len(), 1);
    assert_eq!(f.blocks[0].instrs, vec![EInstr::RetVoid]);
}

#[test]
fn test_conditional_without_else_whose_then_returns() {
    let m = compile("fn main() { if 2 == 2 { return; } }").unwrap();
    let f = func(&m, "main");
    // entry, then, resume; the resume block is still well formed: it
    // carries the synthesized void return.
    assert_eq!(f.blocks.len(), 3);
    let then_block = f.blocks.iter().find(|b| b.label == "then").unwrap();
    assert_eq!(then_block.instrs, vec![EInstr::RetVoid]);
    let resume = f.blocks.iter().find(|b| b.label == "resume").unwrap();
    assert_eq!(resume.instrs, vec![EInstr::RetVoid]);
}

#[test]
fn test_struct_field_roundtrip() {
    // The record is registered, allocated once, written through an
    // element pointer and read back through another.
    let program = ProgramParser::new()
        .parse("struct t { a: int, b: int } fn main() { let o = new t; o.a = 10; let k : int = o.a; return k; }")
        .unwrap();
    let mut codegen = minic::codegen::Codegen::new(EModule::new("main".to_string()));
    let mut visitor = minic::codegen::CodegenVisitor::new();
    let mut traversal = minic::codegen::CodegenTraversal;
    let r = traversal.traverse(&mut visitor, &program, &mut codegen);
    assert!(r.is_ok());
    let m = codegen.module;
    assert_eq!(m.structs.len(), 1);
    assert_eq!(m.structs[0].name, "t");
    assert_eq!(m.structs[0].fields.len(), 2);
    let instrs = all_instrs(func(&m, "main"));
    let allocas = instrs.iter().filter(|i| matches!(i, EInstr::Alloca { .. })).count();
    assert_eq!(allocas, 2);  // the struct slot and the slot for k
    let geps: Vec<usize> = instrs
        .iter()
        .filter_map(|i| match i {
            EInstr::GetElementPtr { field, .. } => Some(*field),
            _ => None,
        })
        .collect();
    // both accesses address field 0 of `t`
    assert_eq!(geps, vec![0, 0]);
    let stores = instrs.iter().filter(|i| matches!(i, EInstr::Store { .. })).count();
    assert_eq!(stores, 2);  // 10 into o.a, then the loaded value into k
    assert!(instrs.iter().any(|i| matches!(i, EInstr::Load { .. })));
    assert!(instrs.iter().any(|i| matches!(i, EInstr::Ret { .. })));
}

#[test]
fn test_nested_struct_field_access() {
    let m = compile_checked(
        "struct u { x: int } struct t { a: u } fn main() { let o = new t; o.a.x = 5; }",
    )
    .unwrap();
    let instrs = all_instrs(func(&m, "main"));
    let geps = instrs.iter().filter(|i| matches!(i, EInstr::GetElementPtr { .. })).count();
    assert_eq!(geps, 2);
}

#[test]
fn test_rerunning_semantic_passes_after_compile() {
    let input = "fn f(b: int) -> int { return b; } fn main() -> int { return f(1); }";
    let program = ProgramParser::new().parse(input).unwrap();
    let mut runner = Runner;
    assert!(runner.compile(&program).is_ok());
    // A successfully compiled program passes the semantic suite again.
    assert!(runner.run_semantic_passes(&program).is_ok());
    assert!(runner.run_semantic_passes(&program).is_ok());
}

#[test]
fn test_duplicate_function_rejected() {
    let err = compile_checked("fn x() { } fn x() { }").unwrap_err();
    assert!(matches!(
        err.kind,
        minic::error::ErrorKind::FunctionDefinedTwice(_)
    ));
    assert_eq!(err.message(), "Function x is already defined");
}

#[test]
fn test_missing_function_rejected() {
    let err = compile_checked("fn main() -> int { return g(1); }").unwrap_err();
    assert!(matches!(err.kind, minic::error::ErrorKind::FunctionNotDefined(_)));
    assert_eq!(err.message(), "Function g is not defined");
}

#[test]
fn test_return_type_mismatch_rejected() {
    let err = compile_checked("fn main() { return 1; } fn other() -> int { return 2; } fn third() { return 3; } fn ok() {}").unwrap_err();
    assert!(matches!(err.kind, minic::error::ErrorKind::TypeMismatch(_, _)));
    let err2 = compile_checked("fn main() -> int { return; }").unwrap_err();
    assert!(matches!(err2.kind, minic::error::ErrorKind::TypeMismatch(_, _)));
}

#[test]
fn test_missing_field_rejected() {
    let err = compile_checked("struct t { a: int } fn main() { let o = new t; o.zz = 1; }").unwrap_err();
    assert!(matches!(err.kind, minic::error::ErrorKind::FieldNotFound(_, _)));
    assert_eq!(err.message(), "Field zz was not found in struct t");
}

#[test]
fn test_call_arity_mismatch_rejected() {
    let err = compile_checked(
        "fn f(a: int) -> int { return a; } fn main() -> int { return f(1, 2); }",
    )
    .unwrap_err();
    assert!(matches!(err.kind, minic::error::ErrorKind::CodegenFailure));
}

#[test]
fn test_parameter_reads_use_the_parameter_accessor() {
    let m = compile("fn f(b: int) -> int { return b; }").unwrap();
    let instrs = all_instrs(func(&m, "f"));
    assert_eq!(instrs, vec![EInstr::Ret { val: EValue::Param(0) }]);
}

#[test]
fn test_every_arithmetic_opcode_lowers_to_its_instruction() {
    let m = compile(
        "fn main() { let a : int = 8 - 2; let b : int = 3 * 3; let c : int = 9 / 3; let d : int = 1; let e : int = 2; if d >= e { return; } }",
    )
    .unwrap();
    let instrs = all_instrs(func(&m, "main"));
    assert!(instrs.iter().any(|i| matches!(i, EInstr::BinOp { op: EOp::Sub, .. })));
    assert!(instrs.iter().any(|i| matches!(i, EInstr::BinOp { op: EOp::Mul, .. })));
    assert!(instrs.iter().any(|i| matches!(i, EInstr::BinOp { op: EOp::Div, .. })));
    assert!(instrs.iter().any(|i| matches!(i, EInstr::ICmp { pred: EPred::Sge, .. })));
}

#[test]
fn test_void_call_as_statement_value_is_refused() {
    // A call to a void function leaves no value, so a definition cannot
    // consume it.
    let err = compile("fn n() { } fn main() { let a : int = n(); }").unwrap_err();
    assert!(matches!(err.kind, minic::error::ErrorKind::CodegenFailure));
}

#[test]
fn test_assignment_to_parameter_is_rejected_when_parsing() {
    // A parameter is not a defined local: the binding discipline rejects
    // the assignment while the function is built.
    let err = minic::grammar::FuncdefParser::new()
        .parse("fn f(a: int) { a = 1; }")
        .unwrap_err();
    assert!(matches!(err.kind, minic::error::ErrorKind::SymbolNotDefined(_)));
}
