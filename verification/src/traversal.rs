use vstd::prelude::*;
use crate::ast::{Expr, Func, Program, Statement, func_name_set, funcs_unique};
use crate::error::CompileError;
use crate::visitors::{AnyVisitor, Ctx, Visitor, expr_calls_resolve, exprs_calls_resolve,
    program_calls_resolve, program_returns_ok, stmt_calls_resolve, stmt_returns_ok,
    stmts_calls_resolve, stmts_returns_ok, sub_calls_resolve};

verus! {

/// A visit order over the program, driving a visitor.
pub trait Traversal {
    fn traverse(&mut self, visitor: &mut AnyVisitor, program: &Program) -> Result<
        (),
        CompileError,
    >;
}

/// The preorder traversal the semantic passes use: program, then structs
/// in declaration order, then every function (so that forward calls
/// resolve), then each function's statements with their expression trees.
pub struct NormalTraversal;

/// Visit the proper subexpressions of an expression: the terms of a
/// single or binary expression, and every argument of a call, inorder.
#[verifier::loop_isolation(false)]
pub fn recur_expr<'a>(ctx: Ctx<'a>, expr: &Expr, visitor: &mut AnyVisitor) -> (r: Result<
    (),
    CompileError,
>)
    ensures
        match *old(visitor) {
            AnyVisitor::CallExists(v) => *final(visitor) == *old(visitor) && (r is Ok
                <==> sub_calls_resolve(*expr, v.symbol_table@)),
            AnyVisitor::ReturnTy(_) => *final(visitor) == *old(visitor) && r is Ok,
            AnyVisitor::Print(_) => (*final(visitor) matches AnyVisitor::Print(_)) && r is Ok,
        },
    decreases *expr,
{
    match expr {
        Expr::Num(_) => Ok(()),
        Expr::Id(_) => Ok(()),
        Expr::Struct(_) => Ok(()),
        Expr::Term(term) => {
            match visitor {
                AnyVisitor::CallExists(v) => v.visit_term(ctx, term),
                AnyVisitor::ReturnTy(v) => v.visit_term(ctx, term),
                AnyVisitor::Print(v) => v.visit_term(ctx, term),
            }
        },
        Expr::Binary(_, term1, term2) => {
            let r1 = match visitor {
                AnyVisitor::CallExists(v) => v.visit_term(ctx, term1),
                AnyVisitor::ReturnTy(v) => v.visit_term(ctx, term1),
                AnyVisitor::Print(v) => v.visit_term(ctx, term1),
            };
            match r1 {
                Ok(()) => {},
                Err(e) => {
                    return Err(e);
                },
            }
            match visitor {
                AnyVisitor::CallExists(v) => v.visit_term(ctx, term2),
                AnyVisitor::ReturnTy(v) => v.visit_term(ctx, term2),
                AnyVisitor::Print(v) => v.visit_term(ctx, term2),
            }
        },
        Expr::Call(_, exprs) => {
            let mut i: usize = 0;
            while i < exprs.len()
                invariant
                    0 <= i <= exprs@.len(),
                    match *old(visitor) {
                        AnyVisitor::CallExists(v) => *visitor == *old(visitor) && (forall|j: int|
                            0 <= j < i ==> expr_calls_resolve(
                                #[trigger] exprs@[j],
                                v.symbol_table@,
                            )),
                        AnyVisitor::ReturnTy(_) => *visitor == *old(visitor),
                        AnyVisitor::Print(_) => *visitor matches AnyVisitor::Print(_),
                    },
                decreases exprs@.len() - i,
            {
                let argument = &exprs[i];
                proof {
                    assert(decreases_to!(*expr => exprs@[i as int]));
                }
                let r1 = recur_expr(ctx, argument, visitor);
                match r1 {
                    Ok(()) => {},
                    Err(e) => {
                        proof {
                            match *old(visitor) {
                                AnyVisitor::CallExists(cv) => {
                                    assert(!expr_calls_resolve(
                                        exprs@[i as int],
                                        cv.symbol_table@,
                                    ));
                                    assert(!exprs_calls_resolve(exprs@, cv.symbol_table@));
                                    assert(!sub_calls_resolve(*expr, cv.symbol_table@));
                                },
                                _ => {},
                            }
                        }
                        return Err(e);
                    },
                }
                let r2 = match visitor {
                    AnyVisitor::CallExists(v) => v.visit_expr(ctx, argument),
                    AnyVisitor::ReturnTy(v) => v.visit_expr(ctx, argument),
                    AnyVisitor::Print(v) => v.visit_expr(ctx, argument),
                };
                match r2 {
                    Ok(()) => {},
                    Err(e) => {
                        proof {
                            match *old(visitor) {
                                AnyVisitor::CallExists(cv) => {
                                    assert(!expr_calls_resolve(
                                        exprs@[i as int],
                                        cv.symbol_table@,
                                    ));
                                    assert(!exprs_calls_resolve(exprs@, cv.symbol_table@));
                                    assert(!sub_calls_resolve(*expr, cv.symbol_table@));
                                },
                                _ => {},
                            }
                        }
                        return Err(e);
                    },
                }
                i = i + 1;
            }
            Ok(())
        },
    }
}

/// Visit one statement in full: its expression tree, the statement
/// itself, and, for a conditional, the statements of its branches.
#[verifier::loop_isolation(false)]
fn visit_statement_deep<'a>(
    function: &'a Func,
    stmt: &Statement,
    visitor: &mut AnyVisitor,
) -> (r: Result<(), CompileError>)
    ensures
        match *old(visitor) {
            AnyVisitor::CallExists(v) => *final(visitor) == *old(visitor) && (r is Ok
                <==> stmt_calls_resolve(*stmt, v.symbol_table@)),
            AnyVisitor::ReturnTy(v) => *final(visitor) == *old(visitor) && (r is Ok
                <==> stmt_returns_ok(*stmt, function.ret_ty is None)),
            AnyVisitor::Print(_) => (*final(visitor) matches AnyVisitor::Print(_)) && r is Ok,
        },
    decreases *stmt,
{
    let ctx = Ctx { function: Some(function) };
    let inner = stmt.get_inner();
    if let Some(expr) = inner {
        let r1 = recur_expr(ctx, expr, visitor);
        match r1 {
            Ok(()) => {},
            Err(e) => {
                return Err(e);
            },
        }
        let r2 = match visitor {
            AnyVisitor::CallExists(v) => v.visit_expr(ctx, expr),
            AnyVisitor::ReturnTy(v) => v.visit_expr(ctx, expr),
            AnyVisitor::Print(v) => v.visit_expr(ctx, expr),
        };
        match r2 {
            Ok(()) => {},
            Err(e) => {
                return Err(e);
            },
        }
    }
    let r3 = match visitor {
        AnyVisitor::CallExists(v) => v.visit_statement(ctx, stmt),
        AnyVisitor::ReturnTy(v) => v.visit_statement(ctx, stmt),
        AnyVisitor::Print(v) => v.visit_statement(ctx, stmt),
    };
    match r3 {
        Ok(()) => {},
        Err(e) => {
            return Err(e);
        },
    }
    if let Statement::Conditional(_, then_stmts, else_stmts) = stmt {
        let r4 = visit_statements_deep(function, then_stmts, visitor);
        match r4 {
            Ok(()) => {},
            Err(e) => {
                return Err(e);
            },
        }
        if let Some(else_body) = else_stmts {
            let r5 = visit_statements_deep(function, else_body, visitor);
            match r5 {
                Ok(()) => {},
                Err(e) => {
                    return Err(e);
                },
            }
        }
    }
    Ok(())
}

/// Visit a list of statements in order, each in full.
#[verifier::loop_isolation(false)]
fn visit_statements_deep<'a>(
    function: &'a Func,
    stmts: &Vec<Statement>,
    visitor: &mut AnyVisitor,
) -> (r: Result<(), CompileError>)
    ensures
        match *old(visitor) {
            AnyVisitor::CallExists(v) => *final(visitor) == *old(visitor) && (r is Ok
                <==> stmts_calls_resolve(stmts@, v.symbol_table@)),
            AnyVisitor::ReturnTy(v) => *final(visitor) == *old(visitor) && (r is Ok
                <==> stmts_returns_ok(stmts@, function.ret_ty is None)),
            AnyVisitor::Print(_) => (*final(visitor) matches AnyVisitor::Print(_)) && r is Ok,
        },
    decreases *stmts,
{
    let mut i: usize = 0;
    while i < stmts.len()
        invariant
            0 <= i <= stmts@.len(),
            match *old(visitor) {
                AnyVisitor::CallExists(v) => *visitor == *old(visitor) && (forall|j: int|
                    0 <= j < i ==> stmt_calls_resolve(#[trigger] stmts@[j], v.symbol_table@)),
                AnyVisitor::ReturnTy(_) => *visitor == *old(visitor) && (forall|j: int|
                    0 <= j < i ==> stmt_returns_ok(
                        #[trigger] stmts@[j],
                        function.ret_ty is None,
                    )),
                AnyVisitor::Print(_) => *visitor matches AnyVisitor::Print(_),
            },
        decreases stmts@.len() - i,
    {
        let r1 = visit_statement_deep(function, &stmts[i], visitor);
        match r1 {
            Ok(()) => {},
            Err(e) => {
                return Err(e);
            },
        }
        i = i + 1;
    }
    Ok(())
}

impl Traversal for NormalTraversal {
    /// Run the visitor over the whole program in preorder.  For a fresh
    /// visitor the outcome is exactly whether the program satisfies the
    /// visitor's check.
    #[verifier::loop_isolation(false)]
    fn traverse(&mut self, visitor: &mut AnyVisitor, program: &Program) -> (r: Result<
        (),
        CompileError,
    >)
        ensures
            old(visitor).fresh() ==> (r is Ok <==> old(visitor).accepts(*program)),
    {
        let ghost v0 = *visitor;
        let ctx = Ctx::empty();
        let r0 = match visitor {
            AnyVisitor::CallExists(v) => v.visit_program(ctx, program),
            AnyVisitor::ReturnTy(v) => v.visit_program(ctx, program),
            AnyVisitor::Print(v) => v.visit_program(ctx, program),
        };
        match r0 {
            Ok(()) => {},
            Err(e) => {
                return Err(e);
            },
        }
        let mut si: usize = 0;
        while si < program.structs.len()
            invariant
                match v0 {
                    AnyVisitor::CallExists(_) => *visitor == v0,
                    AnyVisitor::ReturnTy(_) => *visitor == v0,
                    AnyVisitor::Print(_) => *visitor matches AnyVisitor::Print(_),
                },
            decreases program.structs@.len() - si,
        {
            let r1 = match visitor {
                AnyVisitor::CallExists(v) => v.visit_struct(ctx, &program.structs[si]),
                AnyVisitor::ReturnTy(v) => v.visit_struct(ctx, &program.structs[si]),
                AnyVisitor::Print(v) => v.visit_struct(ctx, &program.structs[si]),
            };
            match r1 {
                Ok(()) => {},
                Err(e) => {
                    return Err(e);
                },
            }
            si = si + 1;
        }
        // Register all functions first: a function need not be declared
        // before its caller.
        let mut fi: usize = 0;
        while fi < program.functions.len()
            invariant
                0 <= fi <= program.functions@.len(),
                match v0 {
                    AnyVisitor::CallExists(v) => v.symbol_table@ == Set::<Seq<char>>::empty()
                        ==> ((*visitor matches AnyVisitor::CallExists(cur) && cur.symbol_table@
                        == func_name_set(program.functions@.take(fi as int))) && funcs_unique(
                        program.functions@.take(fi as int),
                    )),
                    AnyVisitor::ReturnTy(_) => *visitor == v0,
                    AnyVisitor::Print(_) => *visitor matches AnyVisitor::Print(_),
                },
                (v0 matches AnyVisitor::CallExists(_)) ==> (
                *visitor matches AnyVisitor::CallExists(_)),
                (v0 matches AnyVisitor::ReturnTy(_)) ==> *visitor == v0,
            decreases program.functions@.len() - fi,
        {
            let ghost prefix = program.functions@.take(fi as int);
            let function = &program.functions[fi];
            let r2 = match visitor {
                AnyVisitor::CallExists(v) => v.visit_func(ctx, function),
                AnyVisitor::ReturnTy(v) => v.visit_func(ctx, function),
                AnyVisitor::Print(v) => v.visit_func(ctx, function),
            };
            match r2 {
                Ok(()) => {},
                Err(e) => {
                    proof {
                        if v0 matches AnyVisitor::CallExists(v) && v.symbol_table@ == Set::<
                            Seq<char>,
                        >::empty() {
                            let nm = function.id.id@;
                            let w = choose|k: int|
                                0 <= k < prefix.len() && prefix[k].id.id@ == nm;
                            assert(program.functions@[w].id.id@ == nm);
                            assert(!funcs_unique(program.functions@));
                        }
                    }
                    return Err(e);
                },
            }
            proof {
                if v0 matches AnyVisitor::CallExists(v) && v.symbol_table@ == Set::<
                    Seq<char>,
                >::empty() {
                    let next = program.functions@.take(fi + 1 as int);
                    let nm = function.id.id@;
                    assert forall|n: Seq<char>|
                        func_name_set(prefix).insert(nm).contains(n) implies func_name_set(
                        next,
                    ).contains(n) by {
                        if n == nm {
                            assert(next[fi as int].id.id@ == n);
                        } else {
                            let k = choose|k: int|
                                0 <= k < prefix.len() && prefix[k].id.id@ == n;
                            assert(next[k].id.id@ == n);
                        }
                    }
                    assert forall|n: Seq<char>|
                        func_name_set(next).contains(n) implies func_name_set(prefix).insert(
                        nm,
                    ).contains(n) by {
                        let k = choose|k: int| 0 <= k < next.len() && next[k].id.id@ == n;
                        if k < fi as int {
                            assert(prefix[k].id.id@ == n);
                        }
                    }
                    assert(func_name_set(prefix).insert(nm) =~= func_name_set(next));
                    assert forall|a: int, b: int|
                        0 <= a < b < next.len() implies next[a].id.id@ != next[b].id.id@ by {
                        if b == fi as int {
                            assert(prefix[a].id.id@ == next[a].id.id@);
                            assert(!func_name_set(prefix).contains(nm));
                        } else {
                            assert(prefix[a].id.id@ == next[a].id.id@);
                            assert(prefix[b].id.id@ == next[b].id.id@);
                        }
                    }
                }
            }
            fi = fi + 1;
        }
        proof {
            assert(program.functions@.take(program.functions@.len() as int)
                =~= program.functions@);
        }
        // Now walk each function's body.
        let mut fj: usize = 0;
        while fj < program.functions.len()
            invariant
                0 <= fj <= program.functions@.len(),
                match v0 {
                    AnyVisitor::CallExists(v) => v.symbol_table@ == Set::<Seq<char>>::empty()
                        ==> ((*visitor matches AnyVisitor::CallExists(cur) && cur.symbol_table@
                        == func_name_set(program.functions@)) && funcs_unique(program.functions@)
                        && (forall|k: int|
                        0 <= k < fj ==> stmts_calls_resolve(
                            (#[trigger] program.functions@[k]).statements@,
                            func_name_set(program.functions@),
                        ))),
                    AnyVisitor::ReturnTy(_) => *visitor == v0 && (forall|k: int|
                        0 <= k < fj ==> crate::visitors::func_returns_ok(
                            #[trigger] program.functions@[k],
                        )),
                    AnyVisitor::Print(_) => *visitor matches AnyVisitor::Print(_),
                },
            decreases program.functions@.len() - fj,
        {
            let function = &program.functions[fj];
            let r3 = visit_statements_deep(function, &function.statements, visitor);
            match r3 {
                Ok(()) => {},
                Err(e) => {
                    proof {
                        if v0 matches AnyVisitor::CallExists(v) && v.symbol_table@ == Set::<
                            Seq<char>,
                        >::empty() {
                            assert(!stmts_calls_resolve(
                                function.statements@,
                                func_name_set(program.functions@),
                            ));
                            assert(program.functions@[fj as int] == *function);
                            assert(!program_calls_resolve(*program));
                        }
                        if v0 matches AnyVisitor::ReturnTy(_) {
                            assert(!crate::visitors::func_returns_ok(
                                program.functions@[fj as int],
                            ));
                            assert(!program_returns_ok(*program));
                        }
                    }
                    return Err(e);
                },
            }
            fj = fj + 1;
        }
        Ok(())
    }
}

/// The semantic suite accepts the program: functions are uniquely named,
/// every call resolves, and every return agrees with its function's
/// declared return type.
pub open spec fn sem_ok(p: Program) -> bool {
    funcs_unique(p.functions@) && program_calls_resolve(p) && program_returns_ok(p)
}

} // verus!
