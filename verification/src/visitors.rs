use vstd::prelude::*;
use crate::ast::{Expr, Func, Program, Statement, Struct, Term, DataType, func_name_set};
use crate::error::{CompileError, ErrorKind};
use crate::symbol_table::SymbolTable;

verus! {

/// The context a traversal hands to each callback: the function whose
/// body is being visited, when inside one.
#[derive(Clone, Copy)]
pub struct Ctx<'a> {
    pub function: Option<&'a Func>,
}

impl<'a> Ctx<'a> {
    pub fn empty() -> (r: Self)
        ensures
            r.function is None,
    {
        Self { function: None }
    }
}

/// The callbacks a semantic pass implements, keyed by AST node variant.
/// A callback signals failure with a typed error; the traversal halts at
/// the first error.
pub trait Visitor {
    fn get_name(&self) -> String;

    fn visit_program<'a>(&mut self, ctx: Ctx<'a>, program: &Program) -> Result<(), CompileError>;

    fn visit_func<'a>(&mut self, ctx: Ctx<'a>, func: &Func) -> Result<(), CompileError>;

    fn visit_statement<'a>(&mut self, ctx: Ctx<'a>, stmt: &Statement) -> Result<(), CompileError>;

    fn visit_expr<'a>(&mut self, ctx: Ctx<'a>, expr: &Expr) -> Result<(), CompileError>;

    fn visit_term<'a>(&mut self, ctx: Ctx<'a>, term: &Term) -> Result<(), CompileError>;

    fn visit_struct<'a>(&mut self, ctx: Ctx<'a>, stru: &Struct) -> Result<(), CompileError>;
}

/// Whether every call in the expression (at any depth) names a function
/// in `names`.
pub open spec fn expr_calls_resolve(e: Expr, names: Set<Seq<char>>) -> bool
    decreases e,
{
    match e {
        Expr::Call(id, args) => names.contains(id.id@) && (forall|i: int|
            0 <= i < args@.len() ==> expr_calls_resolve(#[trigger] args@[i], names)),
        _ => true,
    }
}

/// Whether every call in every expression of the sequence resolves.
pub open spec fn exprs_calls_resolve(s: Seq<Expr>, names: Set<Seq<char>>) -> bool {
    forall|i: int| 0 <= i < s.len() ==> expr_calls_resolve(#[trigger] s[i], names)
}

/// Whether every call in the proper subexpressions of `e` resolves; the
/// callee of `e` itself, when `e` is a call, is not covered.
pub open spec fn sub_calls_resolve(e: Expr, names: Set<Seq<char>>) -> bool {
    match e {
        Expr::Call(_, args) => exprs_calls_resolve(args@, names),
        _ => true,
    }
}

/// Whether every call in the statement, at any depth, resolves.
pub open spec fn stmt_calls_resolve(s: Statement, names: Set<Seq<char>>) -> bool
    decreases s,
{
    match s {
        Statement::RetVoid => true,
        Statement::Ret(e) => expr_calls_resolve(e, names),
        Statement::Definition(_, e) => expr_calls_resolve(e, names),
        Statement::Assign(_, e) => expr_calls_resolve(e, names),
        Statement::Conditional(c, t, els) => expr_calls_resolve(c, names) && (forall|i: int|
            0 <= i < t@.len() ==> stmt_calls_resolve(#[trigger] t@[i], names)) && (match els {
            Some(v) => forall|i: int|
                0 <= i < v@.len() ==> stmt_calls_resolve(#[trigger] v@[i], names),
            None => true,
        }),
    }
}

pub open spec fn stmts_calls_resolve(ss: Seq<Statement>, names: Set<Seq<char>>) -> bool {
    forall|i: int| 0 <= i < ss.len() ==> stmt_calls_resolve(#[trigger] ss[i], names)
}

/// Whether every call anywhere in the program names one of the program's
/// functions, in whatever order they are declared.
pub open spec fn program_calls_resolve(p: Program) -> bool {
    forall|i: int|
        0 <= i < p.functions@.len() ==> stmts_calls_resolve(
            (#[trigger] p.functions@[i]).statements@,
            func_name_set(p.functions@),
        )
}

/// Whether a statement agrees with the void-ness of the enclosing
/// function's declared return type, at any depth.
pub open spec fn stmt_returns_ok(s: Statement, is_void: bool) -> bool
    decreases s,
{
    match s {
        Statement::RetVoid => is_void,
        Statement::Ret(_) => !is_void,
        Statement::Conditional(_, t, els) => (forall|i: int|
            0 <= i < t@.len() ==> stmt_returns_ok(#[trigger] t@[i], is_void)) && (match els {
            Some(v) => forall|i: int|
                0 <= i < v@.len() ==> stmt_returns_ok(#[trigger] v@[i], is_void),
            None => true,
        }),
        _ => true,
    }
}

pub open spec fn stmts_returns_ok(ss: Seq<Statement>, is_void: bool) -> bool {
    forall|i: int| 0 <= i < ss.len() ==> stmt_returns_ok(#[trigger] ss[i], is_void)
}

pub open spec fn func_returns_ok(f: Func) -> bool {
    stmts_returns_ok(f.statements@, f.ret_ty is None)
}

/// Whether every return statement in the program agrees with its
/// function's declared return type.
pub open spec fn program_returns_ok(p: Program) -> bool {
    forall|i: int| 0 <= i < p.functions@.len() ==> func_returns_ok(#[trigger] p.functions@[i])
}

/// Checks that a called function exists and that a function is defined
/// only once.
#[derive(Debug)]
pub struct CheckIfFunctionCallExistsVisitor {
    pub symbol_table: SymbolTable,
}

impl Default for CheckIfFunctionCallExistsVisitor {
    fn default() -> (r: Self)
        ensures
            r.symbol_table@ == Set::<Seq<char>>::empty(),
    {
        Self { symbol_table: SymbolTable::new() }
    }
}

impl Visitor for CheckIfFunctionCallExistsVisitor {
    fn get_name(&self) -> String {
        String::from_str("CheckIfFunctionCallExistsVisitor")
    }

    fn visit_program<'a>(&mut self, _ctx: Ctx<'a>, _program: &Program) -> (r: Result<
        (),
        CompileError,
    >)
        ensures
            *final(self) == *old(self),
            r is Ok,
    {
        Ok(())
    }

    /// Record the function's name; a second occurrence is rejected.
    fn visit_func<'a>(&mut self, _ctx: Ctx<'a>, func: &Func) -> (r: Result<(), CompileError>)
        ensures
            match r {
                Ok(()) => !old(self).symbol_table@.contains(func.id.id@)
                    && final(self).symbol_table@ == old(self).symbol_table@.insert(func.id.id@),
                Err(e) => old(self).symbol_table@.contains(func.id.id@) && *final(self) == *old(
                    self,
                ) && (e.kind matches ErrorKind::FunctionDefinedTwice(n) && n@ == func.id.id@),
            },
    {
        if self.symbol_table.lookup_symbol(func.id.get_name()) {
            Err(
                CompileError::new(
                    ErrorKind::FunctionDefinedTwice(func.id.get_name().clone()),
                ),
            )
        } else {
            match self.symbol_table.insert(func.id.get_name()) {
                Ok(()) => Ok(()),
                Err(e) => Err(e),
            }
        }
    }

    fn visit_statement<'a>(&mut self, _ctx: Ctx<'a>, _stmt: &Statement) -> (r: Result<
        (),
        CompileError,
    >)
        ensures
            *final(self) == *old(self),
            r is Ok,
    {
        Ok(())
    }

    /// When the expression is a call, its callee must be a recorded
    /// function name.  Nested calls are the traversal's responsibility.
    fn visit_expr<'a>(&mut self, _ctx: Ctx<'a>, expr: &Expr) -> (r: Result<(), CompileError>)
        ensures
            *final(self) == *old(self),
            r is Ok <==> (expr matches Expr::Call(id, _) ==> old(self).symbol_table@.contains(
                id.id@,
            )),
            r matches Err(e) ==> (expr matches Expr::Call(id, _) && (e.kind matches
                ErrorKind::FunctionNotDefined(n) && n@ == id.id@)),
    {
        match expr {
            Expr::Call(id, _exprs) => {
                if !self.symbol_table.lookup_symbol(id.get_name()) {
                    return Err(
                        CompileError::new(
                            ErrorKind::FunctionNotDefined(id.get_name().clone()),
                        ),
                    );
                }
                Ok(())
            },
            _ => Ok(()),
        }
    }

    fn visit_term<'a>(&mut self, _ctx: Ctx<'a>, _term: &Term) -> (r: Result<(), CompileError>)
        ensures
            *final(self) == *old(self),
            r is Ok,
    {
        Ok(())
    }

    fn visit_struct<'a>(&mut self, _ctx: Ctx<'a>, _stru: &Struct) -> (r: Result<
        (),
        CompileError,
    >)
        ensures
            *final(self) == *old(self),
            r is Ok,
    {
        Ok(())
    }
}

/// The name of a declared type, for diagnostics; `None` renders as void.
pub open spec fn spec_ty_text(t: Option<DataType>) -> Seq<char> {
    match t {
        None => "void"@,
        Some(DataType::Int) => "int"@,
        Some(DataType::Struct(id)) => id.id@,
    }
}

fn ty_text(t: &Option<DataType>) -> (r: String)
    ensures
        r@ == spec_ty_text(*t),
{
    match t {
        None => String::from_str("void"),
        Some(DataType::Int) => String::from_str("int"),
        Some(DataType::Struct(id)) => id.get_name().clone(),
    }
}

/// Checks each return statement against the enclosing function's
/// declared return type: a void function must not return a value and a
/// non-void function must not return without one.
#[derive(Debug)]
pub struct CheckIfFunctionHasReturnTyVisitor;

impl Default for CheckIfFunctionHasReturnTyVisitor {
    fn default() -> (r: Self) {
        Self
    }
}

impl Visitor for CheckIfFunctionHasReturnTyVisitor {
    fn get_name(&self) -> String {
        String::from_str("CheckIfFunctionHasReturnTyVisitor")
    }

    fn visit_program<'a>(&mut self, _ctx: Ctx<'a>, _program: &Program) -> (r: Result<
        (),
        CompileError,
    >)
        ensures
            r is Ok,
    {
        Ok(())
    }

    fn visit_func<'a>(&mut self, _ctx: Ctx<'a>, _func: &Func) -> (r: Result<(), CompileError>)
        ensures
            r is Ok,
    {
        Ok(())
    }

    /// The shallow check at one return statement; the traversal reaches
    /// the statements nested in conditionals.
    fn visit_statement<'a>(&mut self, ctx: Ctx<'a>, stmt: &Statement) -> (r: Result<
        (),
        CompileError,
    >)
        ensures
            r is Ok <==> (ctx.function matches Some(f) ==> match *stmt {
                Statement::RetVoid => f.ret_ty is None,
                Statement::Ret(_) => f.ret_ty is Some,
                _ => true,
            }),
            r matches Err(e) ==> e.kind matches ErrorKind::TypeMismatch(_, _),
    {
        if let Some(function) = ctx.function {
            match stmt {
                Statement::RetVoid => {
                    if function.ret_ty.is_some() {
                        return Err(
                            CompileError::new(
                                ErrorKind::TypeMismatch(
                                    ty_text(&function.ret_ty),
                                    String::from_str("void"),
                                ),
                            ),
                        );
                    }
                },
                Statement::Ret(_expr) => {
                    if function.ret_ty.is_none() {
                        return Err(
                            CompileError::new(
                                ErrorKind::TypeMismatch(
                                    String::from_str("void"),
                                    String::from_str("value"),
                                ),
                            ),
                        );
                    }
                },
                _ => {},
            }
        }
        Ok(())
    }

    fn visit_expr<'a>(&mut self, _ctx: Ctx<'a>, _expr: &Expr) -> (r: Result<(), CompileError>)
        ensures
            r is Ok,
    {
        Ok(())
    }

    fn visit_term<'a>(&mut self, _ctx: Ctx<'a>, _term: &Term) -> (r: Result<(), CompileError>)
        ensures
            r is Ok,
    {
        Ok(())
    }

    fn visit_struct<'a>(&mut self, _ctx: Ctx<'a>, _stru: &Struct) -> (r: Result<
        (),
        CompileError,
    >)
        ensures
            r is Ok,
    {
        Ok(())
    }
}

/// Records one line per visited node; the caller prints the lines.
#[derive(Debug)]
pub struct PrintVisitor {
    pub lines: Vec<String>,
}

impl Default for PrintVisitor {
    fn default() -> (r: Self)
        ensures
            r.lines@.len() == 0,
    {
        Self { lines: Vec::new() }
    }
}

impl PrintVisitor {
    fn log(&mut self, line: &str) -> (r: Result<(), CompileError>)
        ensures
            r is Ok,
            final(self).lines@.len() == old(self).lines@.len() + 1,
            final(self).lines@.last()@ == line@,
    {
        self.lines.push(line.to_owned());
        Ok(())
    }
}

impl Visitor for PrintVisitor {
    fn get_name(&self) -> String {
        String::from_str("PrintVisitor")
    }

    fn visit_program<'a>(&mut self, _ctx: Ctx<'a>, _program: &Program) -> (r: Result<
        (),
        CompileError,
    >)
        ensures
            r is Ok,
    {
        self.log("Visiting program")
    }

    fn visit_func<'a>(&mut self, _ctx: Ctx<'a>, _func: &Func) -> (r: Result<(), CompileError>)
        ensures
            r is Ok,
    {
        self.log("Visiting func")
    }

    fn visit_statement<'a>(&mut self, _ctx: Ctx<'a>, _stmt: &Statement) -> (r: Result<
        (),
        CompileError,
    >)
        ensures
            r is Ok,
    {
        self.log("Visiting statement")
    }

    fn visit_expr<'a>(&mut self, _ctx: Ctx<'a>, _expr: &Expr) -> (r: Result<(), CompileError>)
        ensures
            r is Ok,
    {
        self.log("Visiting expr")
    }

    fn visit_term<'a>(&mut self, _ctx: Ctx<'a>, _term: &Term) -> (r: Result<(), CompileError>)
        ensures
            r is Ok,
    {
        self.log("Visiting term")
    }

    fn visit_struct<'a>(&mut self, _ctx: Ctx<'a>, _stru: &Struct) -> (r: Result<
        (),
        CompileError,
    >)
        ensures
            r is Ok,
    {
        self.log("Visiting struct")
    }
}

/// One of the semantic visitors, ready to be paired with a traversal.
#[derive(Debug)]
pub enum AnyVisitor {
    CallExists(CheckIfFunctionCallExistsVisitor),
    ReturnTy(CheckIfFunctionHasReturnTyVisitor),
    Print(PrintVisitor),
}

impl AnyVisitor {
    /// A visitor that has not run yet.
    pub open spec fn fresh(&self) -> bool {
        match *self {
            AnyVisitor::CallExists(v) => v.symbol_table@ == Set::<Seq<char>>::empty(),
            _ => true,
        }
    }

    /// What it means for the whole program to satisfy this visitor when
    /// a preorder traversal drives it over the program.
    pub open spec fn accepts(&self, p: Program) -> bool {
        match *self {
            AnyVisitor::CallExists(_) => crate::ast::funcs_unique(p.functions@)
                && program_calls_resolve(p),
            AnyVisitor::ReturnTy(_) => program_returns_ok(p),
            AnyVisitor::Print(_) => true,
        }
    }

    pub fn get_name(&self) -> String {
        match self {
            AnyVisitor::CallExists(v) => v.get_name(),
            AnyVisitor::ReturnTy(v) => v.get_name(),
            AnyVisitor::Print(v) => v.get_name(),
        }
    }
}

} // verus!
