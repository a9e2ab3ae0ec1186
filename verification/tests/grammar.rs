use minic::grammar::{ExprParser, FuncdefParser, IdParser, ProgramParser, StatementParser,
    TermParser};

#[test]
fn parse_id() {
    assert!(IdParser::new().parse("1").is_err());
    assert!(IdParser::new().parse("a").is_ok());
    assert!(IdParser::new().parse("a1").is_ok());
    assert!(IdParser::new().parse("A").is_ok());
    assert!(IdParser::new().parse("A1").is_ok());
}

#[test]
fn parse_term() {
    assert!(TermParser::new().parse("1").is_ok());
    assert!(TermParser::new().parse("11").is_ok());
    assert!(TermParser::new().parse("(11)").is_ok());
    assert!(TermParser::new().parse("a").is_ok());
    assert!(TermParser::new().parse("a1").is_ok());
    assert!(TermParser::new().parse("A").is_ok());
    assert!(TermParser::new().parse("A1").is_ok());
}

#[test]
fn parse_expr() {
    assert!(ExprParser::new().parse("a == a").is_ok());
    assert!(ExprParser::new().parse("(a)").is_ok());
    assert!(ExprParser::new().parse("a").is_ok());
    assert!(ExprParser::new().parse("(1)").is_ok());
}

#[test]
fn parse_statement() {
    assert!(StatementParser::new().parse("let x : int = x").is_ok());
}

#[test]
fn test_assign_errors() {
    assert_eq!(
        FuncdefParser::new()
            .parse("fn x(a : int, b: int, c: int) { let k : int = 1; let k : int = 2; }")
            .unwrap_err()
            .message(),
        "Symbol k is already defined"
    );
    assert_eq!(
        FuncdefParser::new()
            .parse("fn x(a : int,b: int,c: int ) { let k : int = 1; h = 2; }")
            .unwrap_err()
            .message(),
        "Symbol h is not defined"
    );
}

#[test]
fn parse_func() {
    assert!(FuncdefParser::new()
        .parse("fn x(a : int ,b : int ,c : int) { return k; }")
        .is_ok());
}

#[test]
fn parse_prog() {
    assert!(ProgramParser::new()
        .parse("fn myfunction () {} fn myfunction2() {}")
        .is_ok());
}

#[test]
fn parse_call() {
    assert!(FuncdefParser::new().parse("fn myfunction () {}").is_ok());
    assert!(FuncdefParser::new().parse("fn myfunction() {}").is_ok());
    assert!(FuncdefParser::new().parse("fn myfunction(a : int) { }").is_ok());
    assert!(FuncdefParser::new()
        .parse("fn myfunction(a : int ,b : int ,c : int) {}")
        .is_ok());
}

#[test]
fn parse_struct() {
    assert!(ProgramParser::new().parse("struct test { }").is_ok());
}

#[test]
fn parse_struct_with_func() {
    assert!(ProgramParser::new()
        .parse("struct test123 { } fn x(a: int,b: int,c: int) { } fn test(a: int,b: int,c: int) { }")
        .is_ok());
}

#[test]
fn parse_struct_with_fields() {
    assert!(ProgramParser::new().parse("struct test123 { test: int, }").is_ok());
    assert!(ProgramParser::new()
        .parse("struct CustomStruct { } struct test123 { test: int, test123: i32, test456: CustomStruct }")
        .is_ok());
    assert!(ProgramParser::new().parse("struct test123 { test: int }").is_ok());
}

#[test]
fn parse_syntax_error_reports_position() {
    let err = ProgramParser::new().parse("fn $").unwrap_err();
    assert_eq!(err.message(), "Syntax error");
}

#[test]
fn parse_field_access_chain() {
    let t = TermParser::new().parse("a.b.c").unwrap();
    match t {
        minic::ast::Term::Id(id) => {
            assert_eq!(id.get_name(), "a");
            assert!(id.is_field_access());
            let b = id.get_field().as_ref().unwrap();
            assert_eq!(b.get_name(), "b");
            let c = b.get_field().as_ref().unwrap();
            assert_eq!(c.get_name(), "c");
            assert!(c.get_field().is_none());
        }
        _ => panic!("expected an identifier term"),
    }
}

#[test]
fn nested_duplicate_local_rejected() {
    // The binding discipline reaches into conditional bodies: the scope
    // is flat, so a branch-local redefinition is a redefinition.
    let err = FuncdefParser::new()
        .parse("fn x() { let k : int = 1; if 1 == 1 { let k : int = 2; } }")
        .unwrap_err();
    assert_eq!(err.message(), "Symbol k is already defined");
    let err2 = FuncdefParser::new()
        .parse("fn x() { if 1 == 1 { let k : int = 1; } else { let k : int = 2; } }")
        .unwrap_err();
    assert_eq!(err2.message(), "Symbol k is already defined");
}

#[test]
fn branch_defined_local_usable_after_conditional() {
    // A name defined inside a branch stays bound afterwards, as the
    // code generator's flat per-function symbol table sees it.
    assert!(FuncdefParser::new()
        .parse("fn x() { if 1 == 1 { let k : int = 1; } k = 2; }")
        .is_ok());
}
