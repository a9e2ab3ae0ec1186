use vstd::prelude::*;
use crate::ast::{Expr, Func, Program, Statement, Struct, Term};
use crate::error::CompileError;
use crate::visitors::{Ctx, Visitor};

verus! {

/// A node of the syntax tree that can receive a visitor.
pub trait AbstractNode {
    fn accept<'a, V: Visitor>(&self, ctx: Ctx<'a>, visitor: &mut V) -> Result<(), CompileError>;
}

impl AbstractNode for Program {
    fn accept<'a, V: Visitor>(&self, ctx: Ctx<'a>, visitor: &mut V) -> Result<(), CompileError> {
        visitor.visit_program(ctx, self)
    }
}

impl AbstractNode for Func {
    fn accept<'a, V: Visitor>(&self, ctx: Ctx<'a>, visitor: &mut V) -> Result<(), CompileError> {
        visitor.visit_func(ctx, self)
    }
}

impl AbstractNode for Statement {
    fn accept<'a, V: Visitor>(&self, ctx: Ctx<'a>, visitor: &mut V) -> Result<(), CompileError> {
        visitor.visit_statement(ctx, self)
    }
}

impl AbstractNode for Expr {
    fn accept<'a, V: Visitor>(&self, ctx: Ctx<'a>, visitor: &mut V) -> Result<(), CompileError> {
        visitor.visit_expr(ctx, self)
    }
}

impl AbstractNode for Term {
    fn accept<'a, V: Visitor>(&self, ctx: Ctx<'a>, visitor: &mut V) -> Result<(), CompileError> {
        visitor.visit_term(ctx, self)
    }
}

impl AbstractNode for Struct {
    fn accept<'a, V: Visitor>(&self, ctx: Ctx<'a>, visitor: &mut V) -> Result<(), CompileError> {
        visitor.visit_struct(ctx, self)
    }
}

} // verus!
