use vstd::prelude::*;
use crate::ast::{Expr, Func, Program, Statement, Term};
use crate::error::{CompileError, ErrorKind};
use crate::lir::{BasicBlock, BasicBlockId, BlockView, LExprView, LFuncView, LStmtView, LTermView,
    LoweredExpression, LoweredFunction, LoweredProgram, LoweredStatement, LoweredTerm, Variable,
    VarView, lexprs_view, lemma_lexprs_view};

verus! {

// ---------------------------------------------------------------------
// The mathematical model of the lowering: what each piece of the AST
// becomes.  `None` marks the inputs the lowering rejects.
// ---------------------------------------------------------------------

pub open spec fn spec_lower_var(id: crate::ast::Identifier) -> VarView {
    VarView { ident: id@, generated: false }
}

pub open spec fn spec_lower_term(t: Term) -> Option<LTermView> {
    match t {
        Term::Num(n) => Some(LTermView::Constant(n)),
        Term::Id(id) => Some(LTermView::Id(spec_lower_var(id))),
        Term::Object(_, _) => None,
    }
}

pub open spec fn spec_lower_expr(e: Expr) -> Option<LExprView>
    decreases e,
{
    match e {
        Expr::Num(n) => Some(LExprView::Term(LTermView::Constant(n))),
        Expr::Id(id) => Some(LExprView::Term(LTermView::Id(spec_lower_var(id)))),
        Expr::Term(t) => match spec_lower_term(*t) {
            Some(lt) => Some(LExprView::Term(lt)),
            None => None,
        },
        Expr::Binary(op, a, b) => match (spec_lower_term(*a), spec_lower_term(*b)) {
            (Some(x), Some(y)) => Some(LExprView::Binary(op, x, y)),
            _ => None,
        },
        Expr::Call(id, args) => match spec_lower_exprs(args@) {
            Some(ls) => Some(LExprView::Call(id@, ls)),
            None => None,
        },
        Expr::Struct(_) => None,
    }
}

pub open spec fn spec_lower_exprs(s: Seq<Expr>) -> Option<Seq<LExprView>>
    decreases s,
{
    if s.len() <= 0 {
        Some(Seq::empty())
    } else {
        match (spec_lower_expr(s[0]), spec_lower_exprs(s.skip(1))) {
            (Some(h), Some(t)) => Some(seq![h] + t),
            _ => None,
        }
    }
}

/// `spec_lower_exprs` succeeds exactly when each element lowers, and
/// then maps the elements one by one.
pub proof fn lemma_spec_lower_exprs(s: Seq<Expr>)
    ensures
        (spec_lower_exprs(s) is Some) <==> (forall|i: int|
            0 <= i < s.len() ==> spec_lower_expr(#[trigger] s[i]) is Some),
        spec_lower_exprs(s) matches Some(ls) ==> ls.len() == s.len() && (forall|i: int|
            0 <= i < s.len() ==> ls[i] == spec_lower_expr(#[trigger] s[i]).unwrap()),
    decreases s,
{
    if s.len() > 0 {
        lemma_spec_lower_exprs(s.skip(1));
        assert(forall|i: int| 1 <= i < s.len() ==> #[trigger] s[i] == s.skip(1)[i - 1]);
        if spec_lower_expr(s[0]) is Some && spec_lower_exprs(s.skip(1)) is Some {
            let h = seq![spec_lower_expr(s[0]).unwrap()];
            let t = spec_lower_exprs(s.skip(1)).unwrap();
            assert forall|i: int|
                0 <= i < s.len() implies (h + t)[i] == spec_lower_expr(s[i]).unwrap() by {
                if i > 0 {
                    assert((h + t)[i] == t[i - 1]);
                }
            }
        }
    }
}

/// A block with one more lowered statement at its tail.
pub open spec fn push_stmt(b: BlockView, s: LStmtView) -> BlockView {
    BlockView { id: b.id, stmts: b.stmts.push(s), next: b.next }
}

/// A fresh, empty block with the given id.
pub open spec fn fresh_block(id: int) -> BlockView {
    BlockView { id, stmts: Seq::empty(), next: Seq::empty() }
}

/// The chain with the continuation id added as a successor of its last
/// block: the exit edge of a branch body.
pub open spec fn patch_last(bs: Seq<BlockView>, succ: int) -> Seq<BlockView>
    recommends
        bs.len() > 0,
{
    bs.update(
        bs.len() - 1,
        BlockView {
            id: bs.last().id,
            stmts: bs.last().stmts,
            next: bs.last().next.push(succ),
        },
    )
}

/// How many fresh block ids lowering one statement consumes.
pub open spec fn needed_step(stmt: Statement) -> int
    decreases stmt, 0int,
{
    match stmt {
        Statement::Conditional(_, t, els) => 2 + needed_from(t@, 0) + (match els {
            Some(v) => 1 + needed_from(v@, 0),
            None => 0,
        }),
        _ => 0,
    }
}

/// How many fresh block ids lowering the statements from `i` on consumes.
pub open spec fn needed_from(stmts: Seq<Statement>, i: int) -> int
    decreases stmts, stmts.len() - i,
{
    if i < 0 || i >= stmts.len() {
        0
    } else {
        needed_step(stmts[i]) + needed_from(stmts, i + 1)
    }
}

/// Lower one statement into the current block: the completed blocks (in
/// order), the block that lowering continues in, and the next fresh id.
pub open spec fn spec_lower_step(stmt: Statement, cur: BlockView, c: int) -> Option<
    (Seq<BlockView>, BlockView, int),
>
    decreases stmt, 1int,
{
    match stmt {
        Statement::RetVoid => Some((Seq::empty(), push_stmt(cur, LStmtView::RetVoid), c)),
        Statement::Ret(e) => match spec_lower_expr(e) {
            Some(le) => Some((Seq::empty(), push_stmt(cur, LStmtView::Ret(le)), c)),
            None => None,
        },
        Statement::Definition(id, e) => match spec_lower_expr(e) {
            Some(le) => Some(
                (
                    Seq::empty(),
                    push_stmt(cur, LStmtView::Definition(spec_lower_var(id), le)),
                    c,
                ),
            ),
            None => None,
        },
        Statement::Assign(id, e) => match spec_lower_expr(e) {
            Some(le) => Some(
                (
                    Seq::empty(),
                    push_stmt(cur, LStmtView::Assignment(spec_lower_var(id), le)),
                    c,
                ),
            ),
            None => None,
        },
        Statement::Conditional(cond, t, els) => match spec_lower_expr(cond) {
            None => None,
            Some(lc) => match spec_lower_from(t@, 0, fresh_block(c), c + 1) {
                None => None,
                Some((tblocks, c1)) => match els {
                    Some(ev) => match spec_lower_from(ev@, 0, fresh_block(c1), c1 + 1) {
                        None => None,
                        Some((eblocks, c2)) => {
                            let closed = BlockView {
                                id: cur.id,
                                stmts: cur.stmts.push(LStmtView::ConditionalJump(lc, c)),
                                next: cur.next + seq![c, c1],
                            };
                            Some(
                                (
                                    seq![closed] + patch_last(tblocks, c2) + patch_last(
                                        eblocks,
                                        c2,
                                    ),
                                    fresh_block(c2),
                                    c2 + 1,
                                ),
                            )
                        },
                    },
                    None => {
                        let closed = BlockView {
                            id: cur.id,
                            stmts: cur.stmts.push(LStmtView::ConditionalJump(lc, c)),
                            next: cur.next + seq![c, c1],
                        };
                        Some(
                            (seq![closed] + patch_last(tblocks, c1), fresh_block(c1), c1 + 1),
                        )
                    },
                },
            },
        },
    }
}

/// Lower the statements from `i` on, starting in `cur`, with `c` the
/// next fresh block id: the finished chain and the next fresh id.
pub open spec fn spec_lower_from(
    stmts: Seq<Statement>,
    i: int,
    cur: BlockView,
    c: int,
) -> Option<(Seq<BlockView>, int)>
    decreases stmts, stmts.len() - i + 1,
{
    if i < 0 || i >= stmts.len() {
        Some((seq![cur], c))
    } else {
        match spec_lower_step(stmts[i], cur, c) {
            None => None,
            Some((done, cur2, c2)) => match spec_lower_from(stmts, i + 1, cur2, c2) {
                None => None,
                Some((bs, c3)) => Some((done + bs, c3)),
            },
        }
    }
}

/// Lower a whole function: an entry block numbered `c`, the statement
/// chain after it.
pub open spec fn spec_lower_function(f: Func, c: int) -> Option<(LFuncView, int)> {
    match spec_lower_from(f.statements@, 0, fresh_block(c), c + 1) {
        None => None,
        Some((bs, c2)) => Some(
            (
                LFuncView {
                    name: f.id.id@,
                    pars: f.pars@.map(|i: int, p: crate::ast::Identifier| p@),
                    entry: c,
                    blocks: bs,
                },
                c2,
            ),
        ),
    }
}

/// Lower a program's functions in order, threading the block counter.
pub open spec fn spec_lower_program(funcs: Seq<Func>, c: int) -> Option<(Seq<LFuncView>, int)>
    decreases funcs.len(),
{
    if funcs.len() <= 0 {
        Some((Seq::empty(), c))
    } else {
        match spec_lower_function(funcs[0], c) {
            None => None,
            Some((lf, c1)) => match spec_lower_program(funcs.skip(1), c1) {
                None => None,
                Some((rest, c2)) => Some((seq![lf] + rest, c2)),
            },
        }
    }
}

/// Block ids a whole program consumes, from function `i` on.
pub open spec fn needed_program_from(funcs: Seq<Func>, i: int) -> int
    decreases funcs.len() - i,
{
    if i < 0 || i >= funcs.len() {
        0
    } else {
        1 + needed_from(funcs[i].statements@, 0) + needed_program_from(funcs, i + 1)
    }
}

/// Lower the functions from `i` on, threading the block counter.
pub open spec fn spec_lower_program_from(funcs: Seq<Func>, i: int, c: int) -> Option<
    (Seq<LFuncView>, int),
>
    decreases funcs.len() - i,
{
    if i < 0 || i >= funcs.len() {
        Some((Seq::empty(), c))
    } else {
        match spec_lower_function(funcs[i], c) {
            None => None,
            Some((lf, c1)) => match spec_lower_program_from(funcs, i + 1, c1) {
                None => None,
                Some((rest, c2)) => Some((seq![lf] + rest, c2)),
            },
        }
    }
}

// ---------------------------------------------------------------------
// Counting lemmas: how the lowering advances the block counter, and
// that every chain holds at least one block.
// ---------------------------------------------------------------------

pub proof fn lemma_needed_step_nonneg(stmt: Statement)
    ensures
        needed_step(stmt) >= 0,
    decreases stmt, 0int,
{
    match stmt {
        Statement::Conditional(_, t, els) => {
            lemma_needed_from_nonneg(t@, 0);
            match els {
                Some(v) => {
                    lemma_needed_from_nonneg(v@, 0);
                },
                None => {},
            }
        },
        _ => {},
    }
}

pub proof fn lemma_needed_from_nonneg(stmts: Seq<Statement>, i: int)
    ensures
        needed_from(stmts, i) >= 0,
    decreases stmts, stmts.len() - i + 1,
{
    if 0 <= i < stmts.len() {
        lemma_needed_step_nonneg(stmts[i]);
        lemma_needed_from_nonneg(stmts, i + 1);
    }
}

/// When a step succeeds it consumes exactly its `needed_step` ids.
pub proof fn lemma_lower_counts_step(stmt: Statement, cur: BlockView, c: int)
    ensures
        spec_lower_step(stmt, cur, c) matches Some((done, cur2, c2)) ==> c2 == c + needed_step(
            stmt,
        ),
    decreases stmt, 1int,
{
    match stmt {
        Statement::Conditional(cond, t, els) => {
            if spec_lower_expr(cond) is Some {
                lemma_lower_counts_from(t@, 0, fresh_block(c), c + 1);
                match spec_lower_from(t@, 0, fresh_block(c), c + 1) {
                    Some((tb, c1)) => {
                        match els {
                            Some(ev) => {
                                lemma_lower_counts_from(ev@, 0, fresh_block(c1), c1 + 1);
                            },
                            None => {},
                        }
                    },
                    None => {},
                }
            }
        },
        _ => {},
    }
}

/// When a chain succeeds it consumes exactly its `needed_from` ids, and
/// holds at least one block.
pub proof fn lemma_lower_counts_from(stmts: Seq<Statement>, i: int, cur: BlockView, c: int)
    ensures
        spec_lower_from(stmts, i, cur, c) matches Some((bs, c2)) ==> c2 == c + needed_from(
            stmts,
            i,
        ) && bs.len() >= 1,
    decreases stmts, stmts.len() - i + 1,
{
    if 0 <= i < stmts.len() {
        lemma_lower_counts_step(stmts[i], cur, c);
        match spec_lower_step(stmts[i], cur, c) {
            Some((done, cur2, c2)) => {
                lemma_lower_counts_from(stmts, i + 1, cur2, c2);
            },
            None => {},
        }
    }
}

// ---------------------------------------------------------------------
// The executable lowering pass.
// ---------------------------------------------------------------------

/// The views of a sequence of blocks.
pub open spec fn blocks_view(s: Seq<BasicBlock>) -> Seq<BlockView> {
    s.map(|i: int, b: BasicBlock| b@)
}

/// The views of a sequence of lowered functions.
pub open spec fn lfuncs_view(s: Seq<LoweredFunction>) -> Seq<LFuncView> {
    s.map(|i: int, f: LoweredFunction| f@)
}

/// Transforms a syntax tree into a lowered, block-structured
/// representation of the program.
pub struct LoweringPass {
    pub basic_block_counter: BasicBlockId,
}

impl LoweringPass {
    /// A pass whose counter starts at the first block id.
    pub fn default() -> (r: Self)
        ensures
            r.basic_block_counter.0 == 0,
    {
        Self { basic_block_counter: BasicBlockId::default() }
    }

    /// Lower an atomic term.
    pub fn map_term(&mut self, term: &Term) -> (r: Result<LoweredTerm, CompileError>)
        ensures
            *final(self) == *old(self),
            match r {
                Ok(lt) => spec_lower_term(*term) == Some(lt@),
                Err(e) => spec_lower_term(*term) is None && e.kind matches
                    ErrorKind::LoweringFailure,
            },
    {
        match term {
            Term::Num(num) => Ok(LoweredTerm::Constant(*num)),
            Term::Id(id) => Ok(LoweredTerm::Id(Variable::new(id.clone(), false))),
            Term::Object(_, _) => Err(CompileError::new(ErrorKind::LoweringFailure)),
        }
    }

    /// Lower an expression; record references and calls keep their
    /// shape, a struct literal is rejected.
    #[verifier::loop_isolation(false)]
    pub fn map_expr(&mut self, expr: &Expr) -> (r: Result<LoweredExpression, CompileError>)
        ensures
            *final(self) == *old(self),
            match r {
                Ok(le) => spec_lower_expr(*expr) == Some(le@),
                Err(e) => spec_lower_expr(*expr) is None && e.kind matches
                    ErrorKind::LoweringFailure,
            },
        decreases *expr,
    {
        match expr {
            Expr::Num(n) => Ok(LoweredExpression::Term(LoweredTerm::Constant(*n))),
            Expr::Id(id) => Ok(
                LoweredExpression::Term(LoweredTerm::Id(Variable::new(id.clone(), false))),
            ),
            Expr::Term(t) => {
                match self.map_term(t) {
                    Ok(lt) => Ok(LoweredExpression::Term(lt)),
                    Err(e) => Err(e),
                }
            },
            Expr::Binary(op, a, b) => {
                let la = match self.map_term(a) {
                    Ok(x) => x,
                    Err(e) => {
                        return Err(e);
                    },
                };
                let lb = match self.map_term(b) {
                    Ok(x) => x,
                    Err(e) => {
                        return Err(e);
                    },
                };
                Ok(LoweredExpression::Binary(*op, la, lb))
            },
            Expr::Call(id, args) => {
                let mut out: Vec<LoweredExpression> = Vec::new();
                let mut i: usize = 0;
                while i < args.len()
                    invariant
                        0 <= i <= args@.len(),
                        out@.len() == i,
                        forall|j: int|
                            0 <= j < i ==> spec_lower_expr(#[trigger] args@[j]) is Some
                                && out@[j]@ == spec_lower_expr(args@[j]).unwrap(),
                        *self == *old(self),
                    decreases args@.len() - i,
                {
                    proof {
                        assert(decreases_to!(*expr => args@[i as int]));
                    }
                    match self.map_expr(&args[i]) {
                        Ok(le) => {
                            out.push(le);
                        },
                        Err(e) => {
                            proof {
                                lemma_spec_lower_exprs(args@);
                            }
                            return Err(e);
                        },
                    }
                    i = i + 1;
                }
                proof {
                    lemma_spec_lower_exprs(args@);
                    lemma_lexprs_view(out@);
                    assert forall|k: int|
                        0 <= k < args@.len() implies lexprs_view(out@)[k] == spec_lower_exprs(
                        args@,
                    ).unwrap()[k] by {
                        assert(out@[k]@ == spec_lower_expr(args@[k]).unwrap());
                    }
                    assert(lexprs_view(out@) =~= spec_lower_exprs(args@).unwrap());
                }
                Ok(LoweredExpression::Call(id.clone(), out))
            },
            Expr::Struct(_) => Err(CompileError::new(ErrorKind::LoweringFailure)),
        }
    }

    /// Lower one statement into the current block.  A simple statement
    /// extends the block; a conditional closes it with a jump, lowers
    /// the branch bodies into fresh chains wired to a continuation
    /// block, and continues there.
    #[verifier::loop_isolation(false)]
    pub fn map_block(&mut self, stmt: &Statement, current_block: BasicBlock) -> (r: Result<
        (Vec<BasicBlock>, BasicBlock),
        CompileError,
    >)
        requires
            old(self).basic_block_counter.0 + needed_step(*stmt) <= usize::MAX,
        ensures
            match r {
                Ok(p) => spec_lower_step(
                    *stmt,
                    current_block@,
                    old(self).basic_block_counter.0 as int,
                ) == Some((blocks_view(p.0@), p.1@, final(self).basic_block_counter.0 as int)),
                Err(e) => spec_lower_step(
                    *stmt,
                    current_block@,
                    old(self).basic_block_counter.0 as int,
                ) is None && (e.kind matches ErrorKind::LoweringFailure),
            },
        decreases *stmt,
    {
        let ghost c0 = self.basic_block_counter.0 as int;
        proof {
            lemma_needed_step_nonneg(*stmt);
        }
        match stmt {
            Statement::RetVoid => {
                let mut cur = current_block;
                let _ = cur.add_to_bottom(LoweredStatement::RetVoid);
                proof {
                    assert(blocks_view(Seq::<BasicBlock>::empty()) =~= Seq::<
                        BlockView,
                    >::empty());
                }
                Ok((Vec::new(), cur))
            },
            Statement::Ret(e) => {
                let le = match self.map_expr(e) {
                    Ok(x) => x,
                    Err(err) => {
                        return Err(err);
                    },
                };
                let mut cur = current_block;
                let _ = cur.add_to_bottom(LoweredStatement::Ret(le));
                proof {
                    assert(blocks_view(Seq::<BasicBlock>::empty()) =~= Seq::<
                        BlockView,
                    >::empty());
                }
                Ok((Vec::new(), cur))
            },
            Statement::Definition(id, e) => {
                let le = match self.map_expr(e) {
                    Ok(x) => x,
                    Err(err) => {
                        return Err(err);
                    },
                };
                let mut cur = current_block;
                let _ = cur.add_to_bottom(
                    LoweredStatement::Definition(Variable::new(id.clone(), false), le),
                );
                proof {
                    assert(blocks_view(Seq::<BasicBlock>::empty()) =~= Seq::<
                        BlockView,
                    >::empty());
                }
                Ok((Vec::new(), cur))
            },
            Statement::Assign(id, e) => {
                let le = match self.map_expr(e) {
                    Ok(x) => x,
                    Err(err) => {
                        return Err(err);
                    },
                };
                let mut cur = current_block;
                let _ = cur.add_to_bottom(
                    LoweredStatement::Assignment(Variable::new(id.clone(), false), le),
                );
                proof {
                    assert(blocks_view(Seq::<BasicBlock>::empty()) =~= Seq::<
                        BlockView,
                    >::empty());
                }
                Ok((Vec::new(), cur))
            },
            Statement::Conditional(cond, then_stmts, else_stmts) => {
                let lc = match self.map_expr(cond) {
                    Ok(x) => x,
                    Err(err) => {
                        return Err(err);
                    },
                };
                proof {
                    lemma_needed_from_nonneg(then_stmts@, 0);
                    match else_stmts {
                        Some(v) => {
                            lemma_needed_from_nonneg(v@, 0);
                        },
                        None => {},
                    }
                }
                let then_id = self.basic_block_counter.fetch_and_increment();
                let then_entry = BasicBlock::empty(then_id);
                proof {
                    assert(decreases_to!(*stmt => then_stmts@));
                }
                let mut tchain = match self.map_stmts(then_stmts, then_entry) {
                    Ok(x) => x,
                    Err(err) => {
                        return Err(err);
                    },
                };
                proof {
                    lemma_lower_counts_from(
                        then_stmts@,
                        0,
                        fresh_block(then_id.0 as int),
                        then_id.0 + 1,
                    );
                    assert(tchain@.len() >= 1) by {
                        assert(blocks_view(tchain@).len() == tchain@.len());
                    }
                }
                match else_stmts {
                    None => {
                        let cont_id = self.basic_block_counter.fetch_and_increment();
                        let cont = BasicBlock::empty(cont_id);
                        let ghost tb = blocks_view(tchain@);
                        let mut tlast = match tchain.pop() {
                            Some(x) => x,
                            None => {
                                proof {
                                    assert(false);
                                }
                                return Err(CompileError::new(ErrorKind::LoweringFailure));
                            },
                        };
                        tlast.add_successor(&cont_id);
                        tchain.push(tlast);
                        proof {
                            assert(blocks_view(tchain@) =~= patch_last(tb, cont_id.0 as int));
                        }
                        let mut cur = current_block;
                        let _ = cur.add_to_bottom(
                            LoweredStatement::ConditionalJump(lc, then_id),
                        );
                        cur.add_successor(&then_id);
                        cur.add_successor(&cont_id);
                        let ghost curv = cur@;
                        let mut done: Vec<BasicBlock> = Vec::new();
                        done.push(cur);
                        done.append(&mut tchain);
                        proof {
                            assert(curv.next =~= current_block@.next + seq![
                                then_id.0 as int,
                                cont_id.0 as int,
                            ]);
                            assert(blocks_view(done@) =~= seq![curv] + patch_last(
                                tb,
                                cont_id.0 as int,
                            ));
                        }
                        Ok((done, cont))
                    },
                    Some(else_body) => {
                        let else_id = self.basic_block_counter.fetch_and_increment();
                        let else_entry = BasicBlock::empty(else_id);
                        proof {
                            assert(decreases_to!(*stmt => else_body@));
                        }
                        let mut echain = match self.map_stmts(else_body, else_entry) {
                            Ok(x) => x,
                            Err(err) => {
                                return Err(err);
                            },
                        };
                        proof {
                            lemma_lower_counts_from(
                                else_body@,
                                0,
                                fresh_block(else_id.0 as int),
                                else_id.0 + 1,
                            );
                            assert(echain@.len() >= 1) by {
                                assert(blocks_view(echain@).len() == echain@.len());
                            }
                        }
                        let cont_id = self.basic_block_counter.fetch_and_increment();
                        let cont = BasicBlock::empty(cont_id);
                        let ghost tb = blocks_view(tchain@);
                        let ghost eb = blocks_view(echain@);
                        let mut tlast = match tchain.pop() {
                            Some(x) => x,
                            None => {
                                proof {
                                    assert(false);
                                }
                                return Err(CompileError::new(ErrorKind::LoweringFailure));
                            },
                        };
                        tlast.add_successor(&cont_id);
                        tchain.push(tlast);
                        let mut elast = match echain.pop() {
                            Some(x) => x,
                            None => {
                                proof {
                                    assert(false);
                                }
                                return Err(CompileError::new(ErrorKind::LoweringFailure));
                            },
                        };
                        elast.add_successor(&cont_id);
                        echain.push(elast);
                        proof {
                            assert(blocks_view(tchain@) =~= patch_last(tb, cont_id.0 as int));
                            assert(blocks_view(echain@) =~= patch_last(eb, cont_id.0 as int));
                        }
                        let mut cur = current_block;
                        let _ = cur.add_to_bottom(
                            LoweredStatement::ConditionalJump(lc, then_id),
                        );
                        cur.add_successor(&then_id);
                        cur.add_successor(&else_id);
                        let ghost curv = cur@;
                        let mut done: Vec<BasicBlock> = Vec::new();
                        done.push(cur);
                        done.append(&mut tchain);
                        done.append(&mut echain);
                        proof {
                            assert(curv.next =~= current_block@.next + seq![
                                then_id.0 as int,
                                else_id.0 as int,
                            ]);
                            assert(blocks_view(done@) =~= seq![curv] + patch_last(
                                tb,
                                cont_id.0 as int,
                            ) + patch_last(eb, cont_id.0 as int));
                        }
                        Ok((done, cont))
                    },
                }
            },
        }
    }

    /// Lower a list of statements into the current block, appending the
    /// chains that conditionals open; the last, still-open block closes
    /// the chain.
    #[verifier::loop_isolation(false)]
    pub fn map_stmts(&mut self, stmts: &Vec<Statement>, current_block: BasicBlock) -> (r: Result<
        Vec<BasicBlock>,
        CompileError,
    >)
        requires
            old(self).basic_block_counter.0 + needed_from(stmts@, 0) <= usize::MAX,
        ensures
            match r {
                Ok(chain) => spec_lower_from(
                    stmts@,
                    0,
                    current_block@,
                    old(self).basic_block_counter.0 as int,
                ) == Some((blocks_view(chain@), final(self).basic_block_counter.0 as int)),
                Err(e) => spec_lower_from(
                    stmts@,
                    0,
                    current_block@,
                    old(self).basic_block_counter.0 as int,
                ) is None && e.kind matches ErrorKind::LoweringFailure,
            },
        decreases *stmts,
    {
        let ghost c0 = old(self).basic_block_counter.0 as int;
        let ghost cur0 = current_block@;
        let mut out: Vec<BasicBlock> = Vec::new();
        let mut cur = current_block;
        let mut i: usize = 0;
        while i < stmts.len()
            invariant
                0 <= i <= stmts@.len(),
                self.basic_block_counter.0 + needed_from(stmts@, i as int) <= usize::MAX,
                (match spec_lower_from(
                    stmts@,
                    i as int,
                    cur@,
                    self.basic_block_counter.0 as int,
                ) {
                    Some((bs, c2)) => spec_lower_from(stmts@, 0, cur0, c0) == Some(
                        (blocks_view(out@) + bs, c2),
                    ),
                    None => spec_lower_from(stmts@, 0, cur0, c0) is None,
                }),
            decreases stmts@.len() - i,
        {
            proof {
                assert(decreases_to!(*stmts => stmts@[i as int]));
                lemma_needed_step_nonneg(stmts@[i as int]);
                lemma_needed_from_nonneg(stmts@, i + 1);
            }
            let ghost c_here = self.basic_block_counter.0 as int;
            let ghost cur_here = cur@;
            let step = self.map_block(&stmts[i], cur);
            match step {
                Ok(p) => {
                    let (mut done, cur2) = p;
                    proof {
                        lemma_lower_counts_step(stmts@[i as int], cur_here, c_here);
                    }
                    out.append(&mut done);
                    cur = cur2;
                    proof {
                        match spec_lower_from(
                            stmts@,
                            i + 1,
                            cur@,
                            self.basic_block_counter.0 as int,
                        ) {
                            Some((bs, c2)) => {
                                assert(blocks_view(out@) + bs =~= blocks_view(out@.subrange(
                                    0,
                                    out@.len() - done@.len(),
                                )) + (blocks_view(done@) + bs));
                            },
                            None => {},
                        }
                    }
                    i = i + 1;
                },
                Err(e) => {
                    return Err(e);
                },
            }
        }
        out.push(cur);
        proof {
            assert(blocks_view(out@) =~= blocks_view(out@.subrange(0, out@.len() - 1)) + seq![
                cur@,
            ]);
        }
        Ok(out)
    }

    /// Lower one function: a fresh entry block, then its statements.
    pub fn map_function(&mut self, function: &Func) -> (r: Result<LoweredFunction, CompileError>)
        requires
            old(self).basic_block_counter.0 + 1 + needed_from(function.statements@, 0)
                <= usize::MAX,
        ensures
            match r {
                Ok(lf) => spec_lower_function(
                    *function,
                    old(self).basic_block_counter.0 as int,
                ) == Some((lf@, final(self).basic_block_counter.0 as int)) && crate::lir::lfunc_wf(
                    lf@,
                ),
                Err(e) => spec_lower_function(
                    *function,
                    old(self).basic_block_counter.0 as int,
                ) is None && e.kind matches ErrorKind::LoweringFailure,
            },
    {
        proof {
            lemma_needed_from_nonneg(function.statements@, 0);
            lemma_lower_function_wf(*function, old(self).basic_block_counter.0 as int);
        }
        let entry_id = self.basic_block_counter.fetch_and_increment();
        let entry = BasicBlock::empty(entry_id);
        let chain = match self.map_stmts(&function.statements, entry) {
            Ok(x) => x,
            Err(e) => {
                return Err(e);
            },
        };
        let mut pars: Vec<crate::ast::Identifier> = Vec::new();
        let mut i: usize = 0;
        while i < function.pars.len()
            invariant
                0 <= i <= function.pars@.len(),
                pars@.len() == i,
                forall|j: int| 0 <= j < i ==> pars@[j]@ == function.pars@[j]@,
            decreases function.pars@.len() - i,
        {
            pars.push(function.pars[i].clone());
            i = i + 1;
        }
        let lf = LoweredFunction::new(function.id.clone(), pars, entry_id, chain);
        proof {
            assert(lf@.pars =~= function.pars@.map(|k: int, p: crate::ast::Identifier| p@));
            let spec_r = spec_lower_function(
                *function,
                old(self).basic_block_counter.0 as int,
            );
            assert(spec_r matches Some((v, c2)) && v == lf@ && c2
                == final(self).basic_block_counter.0 as int);
        }
        Ok(lf)
    }

    /// Lower a whole program, keeping one monotonic block counter.
    #[verifier::loop_isolation(false)]
    pub fn lower(&mut self, program: &Program) -> (r: Result<LoweredProgram, CompileError>)
        requires
            old(self).basic_block_counter.0 + needed_program_from(program.functions@, 0)
                <= usize::MAX,
        ensures
            match r {
                Ok(lp) => lp.spec_name() == "Program"@ && spec_lower_program_from(
                    program.functions@,
                    0,
                    old(self).basic_block_counter.0 as int,
                ) == Some(
                    (lfuncs_view(lp.spec_entries()), final(self).basic_block_counter.0 as int),
                ),
                Err(e) => spec_lower_program_from(
                    program.functions@,
                    0,
                    old(self).basic_block_counter.0 as int,
                ) is None && e.kind matches ErrorKind::LoweringFailure,
            },
    {
        let ghost c0 = old(self).basic_block_counter.0 as int;
        let mut entries: Vec<LoweredFunction> = Vec::new();
        let mut i: usize = 0;
        while i < program.functions.len()
            invariant
                0 <= i <= program.functions@.len(),
                self.basic_block_counter.0 + needed_program_from(program.functions@, i as int)
                    <= usize::MAX,
                (match spec_lower_program_from(
                    program.functions@,
                    i as int,
                    self.basic_block_counter.0 as int,
                ) {
                    Some((fs, c2)) => spec_lower_program_from(program.functions@, 0, c0)
                        == Some((lfuncs_view(entries@) + fs, c2)),
                    None => spec_lower_program_from(program.functions@, 0, c0) is None,
                }),
            decreases program.functions@.len() - i,
        {
            proof {
                lemma_needed_from_nonneg(program.functions@[i as int].statements@, 0);
                lemma_needed_program_from_nonneg(program.functions@, i + 1);
            }
            let ghost c_here = self.basic_block_counter.0 as int;
            let lf = match self.map_function(&program.functions[i]) {
                Ok(x) => x,
                Err(e) => {
                    return Err(e);
                },
            };
            proof {
                lemma_lower_counts_from(
                    program.functions@[i as int].statements@,
                    0,
                    fresh_block(c_here),
                    c_here + 1,
                );
            }
            let ghost before = lfuncs_view(entries@);
            entries.push(lf);
            proof {
                match spec_lower_program_from(
                    program.functions@,
                    i + 1,
                    self.basic_block_counter.0 as int,
                ) {
                    Some((fs, c2)) => {
                        assert(lfuncs_view(entries@) + fs =~= before + (seq![
                            entries@.last()@,
                        ] + fs));
                    },
                    None => {},
                }
            }
            i = i + 1;
        }
        let name = String::from_str("Program");
        let lp = LoweredProgram::new(name, entries);
        proof {
            assert(lfuncs_view(lp.spec_entries()) + Seq::<LFuncView>::empty() =~= lfuncs_view(
                lp.spec_entries(),
            ));
        }
        Ok(lp)
    }

    /// Structs carry no behaviour to lower.
    pub fn map_struct(&mut self, _struc: &crate::ast::Struct) -> (r: Result<(), CompileError>)
        ensures
            r is Ok,
            *final(self) == *old(self),
    {
        Ok(())
    }
}

pub proof fn lemma_needed_program_from_nonneg(funcs: Seq<Func>, i: int)
    ensures
        needed_program_from(funcs, i) >= 0,
    decreases funcs.len() - i,
{
    if 0 <= i < funcs.len() {
        lemma_needed_from_nonneg(funcs[i].statements@, 0);
        lemma_needed_program_from_nonneg(funcs, i + 1);
    }
}

// ---------------------------------------------------------------------
// Well-formedness of the lowered graph: block ids are dense in creation
// order and no successor edge or jump target dangles.
// ---------------------------------------------------------------------

/// The statement is not a jump.
pub open spec fn stmt_not_jump(s: LStmtView) -> bool {
    match s {
        LStmtView::ConditionalJump(_, _) => false,
        LStmtView::UnconditionalJump(_) => false,
        _ => true,
    }
}

/// A block still open for appending: no successors and no jumps yet.
pub open spec fn open_block(b: BlockView) -> bool {
    b.next =~= Seq::<int>::empty() && (forall|j: int|
        0 <= j < b.stmts.len() ==> stmt_not_jump(#[trigger] b.stmts[j]))
}

/// Every successor edge and jump target of the block lies in `[lo, hi)`.
pub open spec fn block_targets_in(b: BlockView, lo: int, hi: int) -> bool {
    (forall|e: int| 0 <= e < b.next.len() ==> lo <= #[trigger] b.next[e] < hi) && (forall|j: int|
        0 <= j < b.stmts.len() ==> match #[trigger] b.stmts[j] {
            LStmtView::ConditionalJump(_, t) => lo <= t < hi,
            LStmtView::UnconditionalJump(t) => lo <= t < hi,
            _ => true,
        })
}

/// The chain a lowering step or run yields is dense: the head keeps the
/// current block's id and the rest carry the freshly allocated ids in
/// order, with every target among the allocated ids.
pub proof fn lemma_lower_step_wf(stmt: Statement, cur: BlockView, c: int)
    requires
        cur.id < c,
        open_block(cur),
    ensures
        spec_lower_step(stmt, cur, c) matches Some((done, cur2, c2)) ==> {
            &&& c2 >= c
            &&& done.len() == c2 - c
            &&& (done.len() == 0 ==> cur2.id == cur.id && open_block(cur2))
            &&& (done.len() > 0 ==> cur2.id == c2 - 1 && cur2 == fresh_block(c2 - 1))
            &&& (forall|k: int| 1 <= k < done.len() ==> (#[trigger] done[k]).id == c + k - 1)
            &&& (done.len() > 0 ==> done[0].id == cur.id)
            &&& (forall|k: int|
                0 <= k < done.len() ==> block_targets_in(#[trigger] done[k], c, c2))
        },
    decreases stmt, 1int,
{
    match stmt {
        Statement::Conditional(cond, t, els) => {
            if spec_lower_expr(cond) is Some {
                lemma_lower_from_wf(t@, 0, fresh_block(c), c + 1);
                lemma_lower_counts_from(t@, 0, fresh_block(c), c + 1);
                match spec_lower_from(t@, 0, fresh_block(c), c + 1) {
                    Some((tb, c1)) => {
                        match els {
                            Some(ev) => {
                                lemma_lower_from_wf(ev@, 0, fresh_block(c1), c1 + 1);
                                lemma_lower_counts_from(ev@, 0, fresh_block(c1), c1 + 1);
                                match spec_lower_from(ev@, 0, fresh_block(c1), c1 + 1) {
                                    Some((eb, c2)) => {
                                        let tbp = patch_last(tb, c2);
                                        let ebp = patch_last(eb, c2);
                                        assert forall|k: int|
                                            0 <= k < tbp.len() implies block_targets_in(
                                            #[trigger] tbp[k],
                                            c,
                                            c2 + 1,
                                        ) by {
                                            assert(block_targets_in(tb[k], c + 1, c1));
                                        }
                                        assert forall|k: int|
                                            0 <= k < ebp.len() implies block_targets_in(
                                            #[trigger] ebp[k],
                                            c,
                                            c2 + 1,
                                        ) by {
                                            assert(block_targets_in(eb[k], c1 + 1, c2));
                                        }
                                    },
                                    None => {},
                                }
                            },
                            None => {
                                let tbp = patch_last(tb, c1);
                                assert forall|k: int|
                                    0 <= k < tbp.len() implies block_targets_in(
                                    #[trigger] tbp[k],
                                    c,
                                    c1 + 1,
                                ) by {
                                    assert(block_targets_in(tb[k], c + 1, c1));
                                }
                            },
                        }
                    },
                    None => {},
                }
            }
        },
        _ => {},
    }
}

pub proof fn lemma_lower_from_wf(stmts: Seq<Statement>, i: int, cur: BlockView, c: int)
    requires
        cur.id < c,
        open_block(cur),
    ensures
        spec_lower_from(stmts, i, cur, c) matches Some((bs, c2)) ==> {
            &&& c2 >= c
            &&& bs.len() == 1 + (c2 - c)
            &&& bs[0].id == cur.id
            &&& (forall|k: int| 1 <= k < bs.len() ==> (#[trigger] bs[k]).id == c + k - 1)
            &&& (forall|k: int| 0 <= k < bs.len() ==> block_targets_in(#[trigger] bs[k], c, c2))
        },
    decreases stmts, stmts.len() - i + 1,
{
    if 0 <= i < stmts.len() {
        lemma_lower_step_wf(stmts[i], cur, c);
        lemma_lower_counts_step(stmts[i], cur, c);
        match spec_lower_step(stmts[i], cur, c) {
            Some((done, cur2, cm)) => {
                lemma_lower_from_wf(stmts, i + 1, cur2, if done.len() == 0 {
                    c
                } else {
                    cm
                });
                lemma_lower_counts_from(stmts, i + 1, cur2, cm);
                match spec_lower_from(stmts, i + 1, cur2, cm) {
                    Some((rest, c2)) => {
                        let bs = done + rest;
                        assert forall|k: int|
                            1 <= k < bs.len() implies (#[trigger] bs[k]).id == c + k - 1 by {
                            if k >= done.len() {
                                assert(rest[k - done.len()] == bs[k]);
                            }
                        }
                        assert forall|k: int|
                            0 <= k < bs.len() implies block_targets_in(
                            #[trigger] bs[k],
                            c,
                            c2,
                        ) by {
                            if k < done.len() {
                                assert(block_targets_in(done[k], c, cm));
                            } else {
                                assert(rest[k - done.len()] == bs[k]);
                                assert(block_targets_in(rest[k - done.len()], cm, c2));
                            }
                        }
                    },
                    None => {},
                }
            },
            None => {},
        }
    }
}

/// The lowered control-flow graph of a function is well-formed: its
/// entry exists, its block ids are unique, and no successor edge or
/// conditional-jump target dangles.
pub proof fn lemma_lower_function_wf(f: Func, c: int)
    ensures
        spec_lower_function(f, c) matches Some((lf, c2)) ==> crate::lir::lfunc_wf(lf),
{
    lemma_lower_from_wf(f.statements@, 0, fresh_block(c), c + 1);
    match spec_lower_from(f.statements@, 0, fresh_block(c), c + 1) {
        Some((bs, c2)) => {
            assert forall|k: int, e: int|
                0 <= k < bs.len() && 0 <= e < bs[k].next.len() implies crate::lir::block_id_in(
                bs,
                #[trigger] bs[k].next[e],
            ) by {
                let t = bs[k].next[e];
                assert(block_targets_in(bs[k], c + 1, c2));
                assert(bs[t - c].id == t);
            }
            assert forall|k: int, j: int|
                0 <= k < bs.len() && 0 <= j < bs[k].stmts.len() implies ((
            #[trigger] bs[k].stmts[j]) matches LStmtView::ConditionalJump(_, t)
                ==> crate::lir::block_id_in(bs, t)) by {
                assert(block_targets_in(bs[k], c + 1, c2));
                match bs[k].stmts[j] {
                    LStmtView::ConditionalJump(_, t) => {
                        assert(bs[t - c].id == t);
                    },
                    _ => {},
                }
            }
            assert(crate::lir::block_id_in(bs, c)) by {
                assert(bs[0].id == c);
            }
        },
        None => {},
    }
}

// ---------------------------------------------------------------------
// Idempotence up to renumbering: lowering the same statements from two
// different counter values yields the same graph, with every block id
// shifted by the counter offset.
// ---------------------------------------------------------------------

pub open spec fn shift_stmt(s: LStmtView, d: int) -> LStmtView {
    match s {
        LStmtView::ConditionalJump(e, t) => LStmtView::ConditionalJump(e, t + d),
        LStmtView::UnconditionalJump(t) => LStmtView::UnconditionalJump(t + d),
        _ => s,
    }
}

pub open spec fn shift_block(b: BlockView, d: int) -> BlockView {
    BlockView {
        id: b.id + d,
        stmts: b.stmts.map(|i: int, s: LStmtView| shift_stmt(s, d)),
        next: b.next.map(|i: int, t: int| t + d),
    }
}

pub open spec fn shift_blocks(bs: Seq<BlockView>, d: int) -> Seq<BlockView> {
    bs.map(|i: int, b: BlockView| shift_block(b, d))
}

proof fn lemma_shift_push_stmt(b: BlockView, s: LStmtView, d: int)
    ensures
        shift_block(push_stmt(b, s), d) == push_stmt(shift_block(b, d), shift_stmt(s, d)),
{
    assert(shift_block(push_stmt(b, s), d).stmts =~= push_stmt(
        shift_block(b, d),
        shift_stmt(s, d),
    ).stmts);
    assert(shift_block(push_stmt(b, s), d).next =~= push_stmt(
        shift_block(b, d),
        shift_stmt(s, d),
    ).next);
}

proof fn lemma_shift_patch_last(bs: Seq<BlockView>, succ: int, d: int)
    requires
        bs.len() > 0,
    ensures
        shift_blocks(patch_last(bs, succ), d) == patch_last(shift_blocks(bs, d), succ + d),
{
    let lhs = shift_blocks(patch_last(bs, succ), d);
    let rhs = patch_last(shift_blocks(bs, d), succ + d);
    assert forall|k: int| 0 <= k < lhs.len() implies lhs[k] == rhs[k] by {
        if k == bs.len() - 1 {
            assert(lhs[k].next =~= rhs[k].next);
            assert(lhs[k].stmts =~= rhs[k].stmts);
        }
    }
    assert(lhs =~= rhs);
}

pub proof fn lemma_lower_step_shift(stmt: Statement, cur: BlockView, c: int, d: int)
    ensures
        (spec_lower_step(stmt, cur, c) is Some) <==> (spec_lower_step(
            stmt,
            shift_block(cur, d),
            c + d,
        ) is Some),
        spec_lower_step(stmt, cur, c) matches Some((done, cur2, c2))
            ==> spec_lower_step(stmt, shift_block(cur, d), c + d) == Some(
            (shift_blocks(done, d), shift_block(cur2, d), c2 + d),
        ),
    decreases stmt, 1int,
{
    match stmt {
        Statement::RetVoid => {
            lemma_shift_push_stmt(cur, LStmtView::RetVoid, d);
            assert(shift_blocks(Seq::<BlockView>::empty(), d) =~= Seq::<BlockView>::empty());
        },
        Statement::Ret(e) => {
            match spec_lower_expr(e) {
                Some(le) => {
                    lemma_shift_push_stmt(cur, LStmtView::Ret(le), d);
                    assert(shift_blocks(Seq::<BlockView>::empty(), d) =~= Seq::<
                        BlockView,
                    >::empty());
                },
                None => {},
            }
        },
        Statement::Definition(id, e) => {
            match spec_lower_expr(e) {
                Some(le) => {
                    lemma_shift_push_stmt(
                        cur,
                        LStmtView::Definition(spec_lower_var(id), le),
                        d,
                    );
                    assert(shift_blocks(Seq::<BlockView>::empty(), d) =~= Seq::<
                        BlockView,
                    >::empty());
                },
                None => {},
            }
        },
        Statement::Assign(id, e) => {
            match spec_lower_expr(e) {
                Some(le) => {
                    lemma_shift_push_stmt(
                        cur,
                        LStmtView::Assignment(spec_lower_var(id), le),
                        d,
                    );
                    assert(shift_blocks(Seq::<BlockView>::empty(), d) =~= Seq::<
                        BlockView,
                    >::empty());
                },
                None => {},
            }
        },
        Statement::Conditional(cond, t, els) => {
            match spec_lower_expr(cond) {
                Some(lc) => {
                    assert(shift_block(fresh_block(c), d) == fresh_block(c + d)) by {
                        assert(shift_block(fresh_block(c), d).stmts =~= fresh_block(
                            c + d,
                        ).stmts);
                        assert(shift_block(fresh_block(c), d).next =~= fresh_block(
                            c + d,
                        ).next);
                    }
                    lemma_lower_from_shift(t@, 0, fresh_block(c), c + 1, d);
                    match spec_lower_from(t@, 0, fresh_block(c), c + 1) {
                        Some((tb, c1)) => {
                            lemma_lower_counts_from(t@, 0, fresh_block(c), c + 1);
                            assert(shift_block(fresh_block(c1), d) == fresh_block(c1 + d)) by {
                                assert(shift_block(fresh_block(c1), d).stmts =~= fresh_block(
                                    c1 + d,
                                ).stmts);
                                assert(shift_block(fresh_block(c1), d).next =~= fresh_block(
                                    c1 + d,
                                ).next);
                            }
                            match els {
                                Some(ev) => {
                                    lemma_lower_from_shift(
                                        ev@,
                                        0,
                                        fresh_block(c1),
                                        c1 + 1,
                                        d,
                                    );
                                    lemma_lower_counts_from(ev@, 0, fresh_block(c1), c1 + 1);
                                    match spec_lower_from(ev@, 0, fresh_block(c1), c1 + 1) {
                                        Some((eb, c2)) => {
                                            let closed = BlockView {
                                                id: cur.id,
                                                stmts: cur.stmts.push(
                                                    LStmtView::ConditionalJump(lc, c),
                                                ),
                                                next: cur.next + seq![c, c1],
                                            };
                                            let closed_s = BlockView {
                                                id: cur.id + d,
                                                stmts: shift_block(cur, d).stmts.push(
                                                    LStmtView::ConditionalJump(lc, c + d),
                                                ),
                                                next: shift_block(cur, d).next + seq![
                                                    c + d,
                                                    c1 + d,
                                                ],
                                            };
                                            assert(shift_block(closed, d) == closed_s) by {
                                                assert(shift_block(closed, d).stmts
                                                    =~= closed_s.stmts);
                                                assert(shift_block(closed, d).next
                                                    =~= closed_s.next);
                                            }
                                            lemma_shift_patch_last(tb, c2, d);
                                            lemma_shift_patch_last(eb, c2, d);
                                            assert(shift_blocks(
                                                seq![closed] + patch_last(tb, c2) + patch_last(
                                                    eb,
                                                    c2,
                                                ),
                                                d,
                                            ) =~= seq![shift_block(closed, d)] + shift_blocks(
                                                patch_last(tb, c2),
                                                d,
                                            ) + shift_blocks(patch_last(eb, c2), d));
                                        },
                                        None => {},
                                    }
                                },
                                None => {
                                    let closed = BlockView {
                                        id: cur.id,
                                        stmts: cur.stmts.push(
                                            LStmtView::ConditionalJump(lc, c),
                                        ),
                                        next: cur.next + seq![c, c1],
                                    };
                                    let closed_s = BlockView {
                                        id: cur.id + d,
                                        stmts: shift_block(cur, d).stmts.push(
                                            LStmtView::ConditionalJump(lc, c + d),
                                        ),
                                        next: shift_block(cur, d).next + seq![c + d, c1 + d],
                                    };
                                    assert(shift_block(closed, d) == closed_s) by {
                                        assert(shift_block(closed, d).stmts =~= closed_s.stmts);
                                        assert(shift_block(closed, d).next =~= closed_s.next);
                                    }
                                    lemma_shift_patch_last(tb, c1, d);
                                    assert(shift_blocks(
                                        seq![closed] + patch_last(tb, c1),
                                        d,
                                    ) =~= seq![shift_block(closed, d)] + shift_blocks(
                                        patch_last(tb, c1),
                                        d,
                                    ));
                                },
                            }
                        },
                        None => {},
                    }
                },
                None => {},
            }
        },
    }
}

pub proof fn lemma_lower_from_shift(stmts: Seq<Statement>, i: int, cur: BlockView, c: int, d: int)
    ensures
        (spec_lower_from(stmts, i, cur, c) is Some) <==> (spec_lower_from(
            stmts,
            i,
            shift_block(cur, d),
            c + d,
        ) is Some),
        spec_lower_from(stmts, i, cur, c) matches Some((bs, c2)) ==> spec_lower_from(
            stmts,
            i,
            shift_block(cur, d),
            c + d,
        ) == Some((shift_blocks(bs, d), c2 + d)),
    decreases stmts, stmts.len() - i + 1,
{
    if i < 0 || i >= stmts.len() {
        assert(shift_blocks(seq![cur], d) =~= seq![shift_block(cur, d)]);
    } else {
        lemma_lower_step_shift(stmts[i], cur, c, d);
        match spec_lower_step(stmts[i], cur, c) {
            Some((done, cur2, cm)) => {
                lemma_lower_from_shift(stmts, i + 1, cur2, cm, d);
                match spec_lower_from(stmts, i + 1, cur2, cm) {
                    Some((bs, c2)) => {
                        assert(shift_blocks(done + bs, d) =~= shift_blocks(done, d)
                            + shift_blocks(bs, d));
                    },
                    None => {},
                }
            },
            None => {},
        }
    }
}

/// Lowering is idempotent on the control-flow graph: lowering the same
/// function from two counter values yields isomorphic graphs, the
/// isomorphism being the renumbering of every block id by the counter
/// offset.
pub proof fn lemma_lowering_idempotent(f: Func, c1: int, c2: int)
    ensures
        (spec_lower_function(f, c1) is Some) <==> (spec_lower_function(f, c2) is Some),
        (spec_lower_function(f, c1) is Some && spec_lower_function(f, c2) is Some) ==> ({
            let g1 = spec_lower_function(f, c1).unwrap().0;
            let g2 = spec_lower_function(f, c2).unwrap().0;
            &&& g2.name == g1.name
            &&& g2.pars == g1.pars
            &&& g2.entry == g1.entry + (c2 - c1)
            &&& g2.blocks == shift_blocks(g1.blocks, c2 - c1)
        }),
{
    let d = c2 - c1;
    assert(shift_block(fresh_block(c1), d) == fresh_block(c2)) by {
        assert(shift_block(fresh_block(c1), d).stmts =~= fresh_block(c2).stmts);
        assert(shift_block(fresh_block(c1), d).next =~= fresh_block(c2).next);
    }
    lemma_lower_from_shift(f.statements@, 0, fresh_block(c1), c1 + 1, d);
}

} // verus!
