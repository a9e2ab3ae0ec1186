use minic::ast::{Expr, Func, Identifier, Program, Statement, Term};
use minic::error::ErrorKind;
use minic::grammar::ProgramParser;
use minic::lir::{BasicBlockId, LoweredExpression, LoweredStatement, LoweredTerm, Variable};
use minic::lowering::LoweringPass;
use minic::pass::Pass;
use minic::traversal::NormalTraversal;
use minic::error::CompileError;
use minic::visitors::{AnyVisitor, CheckIfFunctionCallExistsVisitor,
    CheckIfFunctionHasReturnTyVisitor, PrintVisitor};

fn create_identifier() -> Identifier {
    Identifier::new("test".to_string(), 0, 100, None)
}

#[test]
fn lower_assignment() {
    let mut pass = LoweringPass::default();
    let instruction = Statement::Assign(
        create_identifier(),
        Expr::Term(Box::new(Term::Num(1))),
    );
    let program = Program {
        structs: Vec::new(),
        functions: vec![Func {
            id: create_identifier(),
            pars: vec![create_identifier()],
            statements: vec![instruction],
            ret_ty: None,
        }],
    };

    // When
    let result = pass.lower(&program).unwrap();

    // Then
    assert_eq!(result.get_entries().len(), 1);
    assert_eq!(result.get_entries().get(0).unwrap().id.get_name(), "test");
    assert_eq!(result.get_entries().get(0).unwrap().pars.len(), 1);
    assert_eq!(
        result.get_entries().get(0).unwrap().entry,
        BasicBlockId::default()
    );
    assert_eq!(
        result
            .get_entries()
            .get(0)
            .unwrap()
            .blocks
            .get(0)
            .unwrap()
            .get_statements(),
        &vec![LoweredStatement::Assignment(
            Variable::new(create_identifier(), false),
            LoweredExpression::Term(LoweredTerm::Constant(1))
        )]
    );
}

#[test]
fn test_function_calls_when_defined() {
    let input = "fn x(a: int,b: int,c: int) { return k(a, b); } fn k(a: int, b: int) { return 1; }";
    let program = ProgramParser::new().parse(input).unwrap();
    let mut pass = Pass::new(
        AnyVisitor::CallExists(CheckIfFunctionCallExistsVisitor::default()),
        NormalTraversal,
    );
    assert!(pass.run(&program).is_ok());
}

#[test]
fn test_function_defined_twice() {
    let input =
        "fn x(a: int,b: int, c: int) { return k; } fn x(a: int,b: int,c: int) { return k; }";
    let program = ProgramParser::new().parse(input).unwrap();
    let mut pass = Pass::new(
        AnyVisitor::CallExists(CheckIfFunctionCallExistsVisitor::default()),
        NormalTraversal,
    );
    let result = pass.run(&program);
    assert!(result.is_err(), "Expected to throw exception");
    assert!(matches!(
        result.unwrap_err().kind,
        ErrorKind::FunctionDefinedTwice(_)
    ));
}

#[test]
fn test_function_when_void_but_ret() {
    let input = "fn x(a: int,b: int,c: int) { return a; }";
    let program = ProgramParser::new().parse(input).unwrap();
    let mut pass = Pass::new(
        AnyVisitor::ReturnTy(CheckIfFunctionHasReturnTyVisitor::default()),
        NormalTraversal,
    );
    let result = pass.run(&program);
    assert!(result.is_err(), "Expected to throw exception");
}

#[test]
fn test_function_when_not_void_but_ret_void() {
    let input = "fn x(a: int,b: int, c: int) -> int { return; }";
    let program = ProgramParser::new().parse(input).unwrap();
    let mut pass = Pass::new(
        AnyVisitor::ReturnTy(CheckIfFunctionHasReturnTyVisitor::default()),
        NormalTraversal,
    );
    let result = pass.run(&program);
    assert!(result.is_err(), "Expected to throw exception");
}

#[test]
fn test_return_check_sees_nested_returns() {
    let input = "fn x() { if 1 == 1 { return 2; } }";
    let program = ProgramParser::new().parse(input).unwrap();
    let mut pass = Pass::new(
        AnyVisitor::ReturnTy(CheckIfFunctionHasReturnTyVisitor::default()),
        NormalTraversal,
    );
    assert!(pass.run(&program).is_err());
}

#[test]
fn test_forward_call_accepted_by_passes() {
    let input = "fn main() -> int { return f(1); } fn f(a: int) -> int { return a; }";
    let program = ProgramParser::new().parse(input).unwrap();
    let mut pass = Pass::new(
        AnyVisitor::CallExists(CheckIfFunctionCallExistsVisitor::default()),
        NormalTraversal,
    );
    assert!(pass.run(&program).is_ok());
}

#[test]
fn test_nested_call_argument_checked() {
    let input = "fn main() { return f(g(1)); } fn f(a: int) -> int { return a; }";
    let program = ProgramParser::new().parse(input).unwrap();
    let mut pass = Pass::new(
        AnyVisitor::CallExists(CheckIfFunctionCallExistsVisitor::default()),
        NormalTraversal,
    );
    let result = pass.run(&program);
    assert!(result.is_err());
    assert!(matches!(
        result.unwrap_err().kind,
        ErrorKind::FunctionNotDefined(_)
    ));
}

#[test]
fn test_print_visitor_collects_lines() {
    let input = "fn main() { return 1; }";
    let program = ProgramParser::new().parse(input).unwrap();
    let mut pass = Pass::new(AnyVisitor::Print(PrintVisitor::default()), NormalTraversal);
    assert!(pass.run(&program).is_ok());
    match pass.get_visitor() {
        AnyVisitor::Print(v) => {
            assert!(v.lines.contains(&"Visiting program".to_string()));
            assert!(v.lines.contains(&"Visiting func".to_string()));
            assert!(v.lines.contains(&"Visiting statement".to_string()));
        }
        _ => panic!("expected the print visitor back"),
    }
    assert_eq!(pass.get_name(), "PrintVisitor");
}

#[test]
fn lowering_assigns_dense_block_ids_and_no_dangling_targets() {
    let input = "fn main() { if 1 == 1 { let a : int = 1; } else { let b : int = 2; } return; }";
    let program = ProgramParser::new().parse(input).unwrap();
    let mut pass = LoweringPass::default();
    let lowered = pass.lower(&program).unwrap();
    assert_eq!(lowered.get_name(), "Program");
    let f = &lowered.get_entries()[0];
    // entry, then, else, continuation: dense ids in creation order
    let ids: Vec<usize> = f.blocks.iter().map(|b| b.get_id().get_value()).collect();
    assert_eq!(ids, vec![0, 1, 2, 3]);
    for b in &f.blocks {
        for succ in b.get_next() {
            assert!(f.blocks.iter().any(|x| x.get_id() == succ));
        }
        for st in b.get_statements() {
            if let LoweredStatement::ConditionalJump(_, target) = st {
                assert!(f.blocks.iter().any(|x| x.get_id() == target));
            }
        }
    }
}

#[test]
fn lowering_twice_renumbers_blocks_by_the_offset() {
    let input = "fn main() { if 1 == 1 { let a : int = 1; } return; }";
    let program = ProgramParser::new().parse(input).unwrap();
    let mut pass = LoweringPass::default();
    let first = pass.lower(&program).unwrap();
    // The counter is per-program monotonic: a second run of the same
    // pass yields the same graph with every block id shifted.
    let second = pass.lower(&program).unwrap();
    let f1 = &first.get_entries()[0];
    let f2 = &second.get_entries()[0];
    let offset = f2.entry.get_value() - f1.entry.get_value();
    assert!(offset > 0);
    assert_eq!(f1.blocks.len(), f2.blocks.len());
    for (b1, b2) in f1.blocks.iter().zip(f2.blocks.iter()) {
        assert_eq!(b1.get_id().get_value() + offset, b2.get_id().get_value());
        assert_eq!(b1.get_statements().len(), b2.get_statements().len());
        let n1: Vec<usize> = b1.get_next().iter().map(|x| x.get_value() + offset).collect();
        let n2: Vec<usize> = b2.get_next().iter().map(|x| x.get_value()).collect();
        assert_eq!(n1, n2);
    }
    // A fresh pass reproduces the first graph exactly.
    let mut fresh = LoweringPass::default();
    let again = fresh.lower(&program).unwrap();
    let f3 = &again.get_entries()[0];
    assert_eq!(f1.entry, f3.entry);
    assert_eq!(f1.blocks, f3.blocks);
}

#[test]
fn lowering_rejects_record_values() {
    let input = "struct t { a: int } fn main() { let o = new t; }";
    let program = ProgramParser::new().parse(input).unwrap();
    let mut pass = LoweringPass::default();
    let result = pass.lower(&program);
    assert!(result.is_err());
    assert!(matches!(result.unwrap_err().kind, ErrorKind::LoweringFailure));
}

#[test]
fn error_messages_render_each_kind() {
    assert_eq!(
        CompileError::new(ErrorKind::SymbolAlreadyDefined("a".to_string())).message(),
        "Symbol a is already defined"
    );
    assert_eq!(
        CompileError::new(ErrorKind::SymbolNotDefined("a".to_string())).message(),
        "Symbol a is not defined"
    );
    assert_eq!(
        CompileError::new(ErrorKind::FunctionNotDefined("f".to_string())).message(),
        "Function f is not defined"
    );
    assert_eq!(
        CompileError::new(ErrorKind::FunctionDefinedTwice("f".to_string())).message(),
        "Function f is already defined"
    );
    assert_eq!(
        CompileError::new(ErrorKind::FieldNotFound("t".to_string(), "x".to_string())).message(),
        "Field x was not found in struct t"
    );
    assert_eq!(
        CompileError::new(ErrorKind::TypeMismatch("int".to_string(), "void".to_string()))
            .message(),
        "Expected return type int but found void"
    );
    assert_eq!(CompileError::new(ErrorKind::LoweringFailure).message(), "Lowering failed");
    assert_eq!(CompileError::new(ErrorKind::CodegenFailure).message(), "Codegen failed");
    assert_eq!(CompileError::new(ErrorKind::SyntaxError(3)).message(), "Syntax error");
}

#[test]
fn error_context_chain_is_kept_in_order() {
    let e = minic::error::CompileError::new(ErrorKind::CodegenFailure)
        .with_context("evaluating the condition")
        .with_context("emitting main");
    assert_eq!(e.context, vec!["evaluating the condition".to_string(), "emitting main".to_string()]);
}

#[test]
fn get_function_names_rejects_duplicates() {
    let program = ProgramParser::new().parse("fn a() {} fn b() {}").unwrap();
    let table = program.get_function_names().unwrap();
    assert!(table.lookup_symbol(&"a".to_string()));
    assert!(table.lookup_symbol(&"b".to_string()));
    assert!(!table.lookup_symbol(&"c".to_string()));
    let dup = ProgramParser::new().parse("fn a() {} fn a() {}").unwrap();
    assert!(dup.get_function_names().is_err());
}

#[test]
fn struct_field_index_is_declaration_order() {
    let program =
        ProgramParser::new().parse("struct t { a: int, b: int, c: int }").unwrap();
    let s = &program.structs[0];
    assert_eq!(s.get_id_by_field_name(&"a".to_string()).unwrap(), 0);
    assert_eq!(s.get_id_by_field_name(&"b".to_string()).unwrap(), 1);
    assert_eq!(s.get_id_by_field_name(&"c".to_string()).unwrap(), 2);
    let missing = s.get_id_by_field_name(&"z".to_string());
    assert!(matches!(missing.unwrap_err().kind, ErrorKind::FieldNotFound(_, _)));
}

#[test]
fn statement_parser_accepts_conditionals() {
    let st = minic::grammar::StatementParser::new()
        .parse("if a == 1 { let b : int = 2; } else { c = 3; }")
        .unwrap();
    match st {
        Statement::Conditional(_, then_body, else_body) => {
            assert_eq!(then_body.len(), 1);
            assert_eq!(else_body.unwrap().len(), 1);
        }
        _ => panic!("expected a conditional"),
    }
}

#[test]
fn number_literals_longer_than_eighteen_digits_are_refused() {
    assert!(minic::grammar::TermParser::new().parse("123456789012345678").is_ok());
    assert!(minic::grammar::TermParser::new().parse("1234567890123456789").is_err());
}
