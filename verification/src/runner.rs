use vstd::prelude::*;
use crate::ast::Program;
use crate::error::{CompileError, ErrorKind};
use crate::lir::LoweredProgram;
use crate::lowering::{LoweringPass, needed_program_from, spec_lower_program_from, lfuncs_view};
use crate::pass::Pass;
use crate::traversal::{NormalTraversal, sem_ok};
use crate::visitors::{AnyVisitor, CheckIfFunctionCallExistsVisitor,
    CheckIfFunctionHasReturnTyVisitor};
use crate::backend::{EModule, module_calls_wf};
use crate::codegen::{Codegen, CodegenTraversal, CodegenVisitor, cg_fresh, codegen_ok, program_pars_typed};

verus! {

/// Executes a sequence of passes over the program and short-circuits on
/// the first error.
pub struct Runner;

pub open spec fn passes_fresh(ps: Seq<Pass>) -> bool {
    forall|i: int| 0 <= i < ps.len() ==> (#[trigger] ps[i]).spec_visitor().fresh()
}

pub open spec fn passes_accept(ps: Seq<Pass>, p: Program) -> bool {
    forall|i: int| 0 <= i < ps.len() ==> (#[trigger] ps[i]).spec_visitor().accepts(p)
}

impl Runner {
    /// Run the passes in order; the first failing pass aborts the
    /// pipeline and its error is handed through verbatim.
    #[verifier::loop_isolation(false)]
    pub fn run_visitors(&mut self, passes: Vec<Pass>, program: &Program) -> (r: Result<
        (),
        CompileError,
    >)
        ensures
            passes_fresh(passes@) ==> (r is Ok <==> passes_accept(passes@, *program)),
    {
        let ghost orig = passes@;
        let mut rest = passes;
        let ghost k: int = 0;
        while rest.len() > 0
            invariant
                0 <= k <= orig.len(),
                rest@ == orig.skip(k),
                passes_fresh(orig) ==> (forall|j: int|
                    0 <= j < k ==> (#[trigger] orig[j]).spec_visitor().accepts(*program)),
            decreases rest@.len(),
        {
            let mut pass = rest.remove(0);
            proof {
                assert(pass == orig[k]);
                assert(rest@ =~= orig.skip(k + 1));
            }
            match pass.run(program) {
                Ok(()) => {},
                Err(e) => {
                    return Err(e);
                },
            }
            proof {
                k = k + 1;
            }
        }
        proof {
            assert(k == orig.len());
        }
        Ok(())
    }

    /// The semantic validation suite: every call resolves against a
    /// uniquely named function, and every return agrees with its
    /// function's declared return type.
    pub fn run_semantic_passes(&mut self, program: &Program) -> (r: Result<(), CompileError>)
        ensures
            r is Ok <==> sem_ok(*program),
    {
        let mut passes: Vec<Pass> = Vec::new();
        passes.push(
            Pass::new(
                AnyVisitor::CallExists(CheckIfFunctionCallExistsVisitor::default()),
                NormalTraversal,
            ),
        );
        passes.push(
            Pass::new(
                AnyVisitor::ReturnTy(CheckIfFunctionHasReturnTyVisitor::default()),
                NormalTraversal,
            ),
        );
        let ghost ps = passes@;
        let r = self.run_visitors(passes, program);
        proof {
            assert(ps[0].spec_visitor() matches AnyVisitor::CallExists(_));
            assert(ps[1].spec_visitor() matches AnyVisitor::ReturnTy(_));
            assert(passes_fresh(ps));
            if passes_accept(ps, *program) {
                assert(ps[0].spec_visitor().accepts(*program));
                assert(ps[1].spec_visitor().accepts(*program));
            }
            if sem_ok(*program) {
                assert forall|i: int|
                    0 <= i < ps.len() implies (#[trigger] ps[i]).spec_visitor().accepts(
                    *program,
                ) by {
                    if i == 0 {
                        assert(ps[0].spec_visitor().accepts(*program));
                    } else {
                        assert(ps[1].spec_visitor().accepts(*program));
                    }
                }
            }
        }
        r
    }

    /// Lower the program to its control-flow-graph form, numbering
    /// blocks from zero across the whole program.
    pub fn lowering(&mut self, program: &Program) -> (r: Result<LoweredProgram, CompileError>)
        requires
            needed_program_from(program.functions@, 0) <= usize::MAX,
        ensures
            match r {
                Ok(lp) => lp.spec_name() == "Program"@ && (spec_lower_program_from(
                    program.functions@,
                    0,
                    0,
                ) matches Some((fs, _)) && lfuncs_view(lp.spec_entries()) == fs),
                Err(e) => spec_lower_program_from(program.functions@, 0, 0) is None && e.kind
                    matches ErrorKind::LoweringFailure,
            },
    {
        let mut pass = LoweringPass::default();
        pass.lower(program)
    }
}


impl Runner {
    /// Drive the code generator over the program with the given
    /// traversal, from a fresh backend state.
    pub fn run_codegen(
        &mut self,
        visitor: &mut CodegenVisitor,
        codegen: &mut Codegen,
        traversal: CodegenTraversal,
        program: &Program,
    ) -> (r: Result<(), CompileError>)
        requires
            program_pars_typed(*program),
            cg_fresh(*old(codegen)),
        ensures
            r is Ok <==> codegen_ok(*program),
            r is Ok ==> {
                &&& final(codegen).module.functions@.len() == program.functions@.len()
                &&& (forall|k: int|
                    0 <= k < program.functions@.len() ==> (
                    #[trigger] final(codegen).module.functions@[k]).name@
                        == program.functions@[k].id.id@)
                &&& (forall|a: int, b: int|
                    0 <= a < b < program.functions@.len() ==> (
                    #[trigger] final(codegen).module.functions@[a]).name@ != (
                    #[trigger] final(codegen).module.functions@[b]).name@)
                &&& module_calls_wf(final(codegen).module)
            },
    {
        let mut t = traversal;
        t.traverse(visitor, program, codegen)
    }

    /// The middle of the pipeline in one call: run the semantic suite,
    /// then generate code into a fresh module named `main`.  On success
    /// the program satisfied every semantic check, the module holds each
    /// function name exactly once, in declaration order, and every call
    /// site in it matches a declared function's arity.
    pub fn compile(&mut self, program: &Program) -> (r: Result<EModule, CompileError>)
        requires
            program_pars_typed(*program),
        ensures
            r is Ok <==> sem_ok(*program) && codegen_ok(*program),
            r matches Ok(m) ==> {
                &&& m.functions@.len() == program.functions@.len()
                &&& (forall|k: int|
                    0 <= k < program.functions@.len() ==> (#[trigger] m.functions@[k]).name@
                        == program.functions@[k].id.id@)
                &&& (forall|a: int, b: int|
                    0 <= a < b < program.functions@.len() ==> (
                    #[trigger] m.functions@[a]).name@ != (#[trigger] m.functions@[b]).name@)
                &&& module_calls_wf(m)
            },
    {
        match self.run_semantic_passes(program) {
            Ok(()) => {},
            Err(e) => {
                return Err(e);
            },
        }
        let module = EModule::new(String::from_str("main"));
        let mut codegen = Codegen::new(module);
        let mut visitor = CodegenVisitor::new();
        let traversal = CodegenTraversal;
        match self.run_codegen(&mut visitor, &mut codegen, traversal, program) {
            Ok(()) => Ok(codegen.module),
            Err(e) => Err(e),
        }
    }
}

} // verus!
