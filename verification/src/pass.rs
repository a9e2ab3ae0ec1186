use vstd::prelude::*;
use crate::ast::Program;
use crate::error::CompileError;
use crate::traversal::{NormalTraversal, Traversal};
use crate::visitors::AnyVisitor;

verus! {

/// A visitor paired with the traversal that drives it.
pub struct Pass {
    visitor: AnyVisitor,
    traversal: NormalTraversal,
}

impl Pass {
    pub closed spec fn spec_visitor(&self) -> AnyVisitor {
        self.visitor
    }

    pub fn new(visitor: AnyVisitor, traversal: NormalTraversal) -> (r: Self)
        ensures
            r.spec_visitor() == visitor,
    {
        Self { visitor, traversal }
    }

    pub fn get_name(&self) -> String {
        self.visitor.get_name()
    }

    pub fn get_visitor(&self) -> (r: &AnyVisitor)
        ensures
            r == &self.spec_visitor(),
    {
        &self.visitor
    }

    /// Run the pass over the program.  A pass whose visitor has not run
    /// before succeeds exactly when the program satisfies its check.
    pub fn run(&mut self, program: &Program) -> (r: Result<(), CompileError>)
        ensures
            old(self).spec_visitor().fresh() ==> (r is Ok <==> old(self).spec_visitor().accepts(
                *program,
            )),
    {
        self.traversal.traverse(&mut self.visitor, program)
    }
}

} // verus!
